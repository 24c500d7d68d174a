use vstd::prelude::*;
use crate::named_map::{NamedMap, table, lemma_table_push, lemma_table_step, row_view};
use crate::num::{decimal, decimal_string};
use crate::text::{concat2, concat3, lines, lines_of_str, seqs, split_char, split_on, str_eq, string_from, strs};

verus! {

/// The figures that `zpool list -H` prints for one pool.
pub struct PoolInfo {
    pub size: String,
    pub alloc: String,
    pub free: String,
    pub frag: String,
    pub cap: String,
    pub dedup: String,
    pub health: String,
}

/// What a `PoolInfo` holds.
pub struct PoolInfoView {
    pub size: Seq<char>,
    pub alloc: Seq<char>,
    pub free: Seq<char>,
    pub frag: Seq<char>,
    pub cap: Seq<char>,
    pub dedup: Seq<char>,
    pub health: Seq<char>,
}

impl View for PoolInfo {
    type V = PoolInfoView;

    open spec fn view(&self) -> PoolInfoView {
        PoolInfoView {
            size: self.size@,
            alloc: self.alloc@,
            free: self.free@,
            frag: self.frag@,
            cap: self.cap@,
            dedup: self.dedup@,
            health: self.health@,
        }
    }
}

/// The pool that one line of `zpool list -H` describes: its tab-separated columns
/// are the name and seven figures; a line with fewer columns describes none.
pub open spec fn pool_row(line: Seq<char>) -> Option<(Seq<char>, PoolInfoView)> {
    let c = split_char(line, '\t');
    if c.len() < 8 {
        None
    } else {
        Some(
            (
                c[0],
                PoolInfoView {
                    size: c[1],
                    alloc: c[2],
                    free: c[3],
                    frag: c[4],
                    cap: c[5],
                    dedup: c[6],
                    health: c[7],
                },
            ),
        )
    }
}

/// The pools that the lines describe, by name.
pub open spec fn pool_table(ls: Seq<Seq<char>>) -> Map<Seq<char>, PoolInfoView> {
    table(ls.map_values(|l: Seq<char>| pool_row(l)))
}

/// The pool that one line describes.
fn pool_row_of(line: &Vec<char>) -> (r: Option<(String, PoolInfo)>)
    ensures
        row_view(r) == pool_row(line@),
{
    let c = split_on(line, '\t');
    if c.len() < 8 {
        return None;
    }
    assert(seqs(c@)[0] == c@[0]@);
    assert(seqs(c@)[7] == c@[7]@);
    let info = PoolInfo {
        size: string_from(&c[1]),
        alloc: string_from(&c[2]),
        free: string_from(&c[3]),
        frag: string_from(&c[4]),
        cap: string_from(&c[5]),
        dedup: string_from(&c[6]),
        health: string_from(&c[7]),
    };
    Some((string_from(&c[0]), info))
}

/// Whether `s` names a RAID layout that pools may be created with.
pub open spec fn is_raid_type(s: Seq<char>) -> bool {
    s == "mirror"@ || s == "raidz"@ || s == "raidz2"@ || s == "raidz3"@
}

/// The fewest devices a pool of the layout `s` is created from.
pub open spec fn min_devices(s: Seq<char>) -> nat {
    if s == "raidz3"@ {
        4
    } else if s == "raidz2"@ {
        3
    } else {
        2
    }
}

/// Why a pool cannot be created.
#[derive(PartialEq, Eq, Structural, Debug)]
pub enum PoolError {
    /// The layout is none of `mirror`, `raidz`, `raidz2`, `raidz3`.
    InvalidRaidType,
    /// The layout needs more devices than were given.
    TooFewDevices { required: usize, got: usize },
}

impl PoolError {
    /// The text of the error for a pool of the layout `raid_type`.
    pub fn message(&self, raid_type: &str) -> (s: String)
        ensures
            s@ == match *self {
                PoolError::InvalidRaidType => "invalid raid type '"@ + raid_type@
                    + "' (expected: mirror, raidz, raidz2, raidz3)"@,
                PoolError::TooFewDevices { required, got } => raid_type@ + " requires at least "@
                    + decimal(required as nat) + " devices, got "@ + decimal(got as nat),
            },
    {
        match self {
            PoolError::InvalidRaidType => concat3(
                "invalid raid type '",
                raid_type,
                "' (expected: mirror, raidz, raidz2, raidz3)",
            ),
            PoolError::TooFewDevices { required, got } => {
                let r = decimal_string(*required as u64);
                let g = decimal_string(*got as u64);
                let a = concat3(raid_type, " requires at least ", r.as_str());
                let b = concat3(a.as_str(), " devices, got ", g.as_str());
                b
            },
        }
    }
}

/// The device paths of device names.
pub open spec fn device_paths(devices: Seq<String>) -> Seq<Seq<char>> {
    devices.map_values(|d: String| "/dev/"@ + d@)
}

/// Manages the storage pools through `zpool`.
pub struct Pool;

impl Pool {
    /// The pools that the output of `zpool list -H` describes, by name.
    pub fn parse_pool_list(output: &str) -> (m: NamedMap<PoolInfo>)
        ensures
            m.view() == pool_table(lines(output@)),
    {
        let ls = lines_of_str(output);
        let ghost rows = seqs(ls@).map_values(|l: Seq<char>| pool_row(l));
        let mut m = NamedMap::new();
        let mut i: usize = 0;
        while i < ls.len()
            invariant
                i <= ls.len(),
                rows == seqs(ls@).map_values(|l: Seq<char>| pool_row(l)),
                m.view() == table(rows.take(i as int)),
            decreases ls.len() - i,
        {
            proof {
                lemma_table_step(rows, i as int);
            }
            let r = pool_row_of(&ls[i]);
            m.insert_row(r);
            i = i + 1;
        }
        assert(rows.take(ls.len() as int) =~= rows);
        m
    }

    /// Checks a pool's layout and its number of devices before creating it.
    pub fn check_create(raid_type: &str, devices: usize) -> (r: Result<(), PoolError>)
        ensures
            !is_raid_type(raid_type@) ==> r == Err::<(), PoolError>(PoolError::InvalidRaidType),
            is_raid_type(raid_type@) && devices < min_devices(raid_type@) ==> r == Err::<(), PoolError>(
                PoolError::TooFewDevices { required: min_devices(raid_type@) as usize, got: devices },
            ),
            is_raid_type(raid_type@) && devices >= min_devices(raid_type@) ==> r is Ok,
    {
        if !(str_eq(raid_type, "mirror") || str_eq(raid_type, "raidz") || str_eq(raid_type, "raidz2")
            || str_eq(raid_type, "raidz3")) {
            return Err(PoolError::InvalidRaidType);
        }
        let required: usize = if str_eq(raid_type, "raidz3") {
            4
        } else if str_eq(raid_type, "raidz2") {
            3
        } else {
            2
        };
        if devices < required {
            return Err(PoolError::TooFewDevices { required, got: devices });
        }
        Ok(())
    }

    /// The arguments of the `zpool` run that creates a pool.
    pub fn create_args(name: &str, raid_type: &str, devices: &Vec<String>) -> (a: Vec<String>)
        ensures
            strs(a@) == seq!["create"@, "-f"@, name@, raid_type@] + device_paths(devices@),
    {
        let mut a = vec!["create".to_owned(), "-f".to_owned(), name.to_owned(), raid_type.to_owned()];
        let ghost head = seq!["create"@, "-f"@, name@, raid_type@];
        assert(strs(a@) =~= head);
        let mut i: usize = 0;
        while i < devices.len()
            invariant
                i <= devices.len(),
                strs(a@) == head + device_paths(devices@).take(i as int),
            decreases devices.len() - i,
        {
            let ghost prev = strs(a@);
            a.push(concat2("/dev/", devices[i].as_str()));
            assert(strs(a@) =~= prev.push("/dev/"@ + devices@[i as int]@));
            assert(device_paths(devices@).take(i + 1) =~= device_paths(devices@).take(i as int).push(
                "/dev/"@ + devices@[i as int]@,
            ));
            i = i + 1;
        }
        assert(device_paths(devices@).take(devices.len() as int) =~= device_paths(devices@));
        a
    }

    /// The arguments of the `zpool` run that destroys a pool.
    pub fn destroy_args(name: &str) -> (a: Vec<String>)
        ensures
            strs(a@) == seq!["destroy"@, name@],
    {
        let a = vec!["destroy".to_owned(), name.to_owned()];
        assert(strs(a@) =~= seq!["destroy"@, name@]);
        a
    }

    /// The arguments of the `zpool` run that lists the pools.
    pub fn list_args() -> (a: Vec<String>)
        ensures
            strs(a@) == seq!["list"@, "-H"@],
    {
        let a = vec!["list".to_owned(), "-H".to_owned()];
        assert(strs(a@) =~= seq!["list"@, "-H"@]);
        a
    }

    /// The answer to a pool that was created.
    pub fn created_message(name: &str) -> (s: String)
        ensures
            s@ == "Pool '"@ + name@ + "' created"@,
    {
        concat3("Pool '", name, "' created")
    }

    /// The answer to a pool that was destroyed.
    pub fn destroyed_message(name: &str) -> (s: String)
        ensures
            s@ == "Pool '"@ + name@ + "' destroyed"@,
    {
        concat3("Pool '", name, "' destroyed")
    }
}


/// One more line of `zpool list -H` output with at least eight tab-separated columns
/// lists the pool named in its first column, with its size, allocated space, free
/// space, fragmentation, capacity, dedup ratio and health taken from the next seven
/// columns in that order, replacing an earlier pool of that name; a line with fewer
/// columns changes nothing.
pub proof fn law_pool_line(ls: Seq<Seq<char>>, l: Seq<char>)
    ensures
        ({
            let c = split_char(l, '\t');
            c.len() >= 8 ==> pool_table(ls.push(l)) == pool_table(ls).insert(
                c[0],
                PoolInfoView {
                    size: c[1],
                    alloc: c[2],
                    free: c[3],
                    frag: c[4],
                    cap: c[5],
                    dedup: c[6],
                    health: c[7],
                },
            )
        }),
        split_char(l, '\t').len() < 8 ==> pool_table(ls.push(l)) == pool_table(ls),
{
    let f = |x: Seq<char>| pool_row(x);
    assert(ls.push(l).map_values(f) =~= ls.map_values(f).push(pool_row(l)));
    lemma_table_push(ls.map_values(f), pool_row(l));
}


/// The layouts a pool may be created with are exactly `mirror`, `raidz`, `raidz2` and
/// `raidz3`, needing at least 2, 2, 3 and 4 devices.
pub proof fn law_raid_layouts(s: Seq<char>)
    ensures
        is_raid_type(s) <==> (s == "mirror"@ || s == "raidz"@ || s == "raidz2"@ || s == "raidz3"@),
        s == "mirror"@ ==> min_devices(s) == 2,
        s == "raidz"@ ==> min_devices(s) == 2,
        s == "raidz2"@ ==> min_devices(s) == 3,
        s == "raidz3"@ ==> min_devices(s) == 4,
{
    reveal_strlit("mirror");
    reveal_strlit("raidz");
    reveal_strlit("raidz2");
    reveal_strlit("raidz3");
    assert("mirror"@.len() == 6 && "raidz"@.len() == 5 && "raidz2"@.len() == 6 && "raidz3"@.len() == 6);
    assert("mirror"@[0] != "raidz2"@[0] && "mirror"@[0] != "raidz3"@[0] && "raidz2"@[5] != "raidz3"@[5]);
}

} // verus!
