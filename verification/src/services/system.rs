use vstd::prelude::*;
use crate::named_map::{NamedMap, table, lemma_table_push, lemma_table_step, lemma_table_names, row_view};
use crate::num::{parse_u64, parse_u64_chars, parse_or_zero, u64_or_zero};
use crate::text::{
    ends_with_cr, joined_lines, lemma_lines_of_joined, lemma_words_nonempty, plain_lines,
    after, chars_of, concat2, concat3, has_prefix, is_ws, lines, lines_of_str, same_chars, seqs, starts_with,
    string_from, trim, trim_end, trim_start, trim_end_char, trimmed_end_char, words, words_of,
};

verus! {

/// The number of lines that begin with `p`.
pub open spec fn count_prefixed(ls: Seq<Seq<char>>, p: Seq<char>) -> nat
    decreases ls.len(),
{
    if ls.len() == 0 {
        0
    } else {
        count_prefixed(ls.drop_last(), p) + if starts_with(ls.last(), p) {
            1nat
        } else {
            0nat
        }
    }
}

/// The number of processors that a `/proc/cpuinfo` text lists: its lines that begin
/// with `processor`, and at least one.
pub open spec fn core_count(cpuinfo: Seq<char>) -> nat {
    let n = count_prefixed(lines(cpuinfo), "processor"@);
    if n >= 1 {
        n
    } else {
        1
    }
}

/// The first line that begins with `cpu ` (the line of totals in `/proc/stat`).
pub open spec fn first_cpu_line(ls: Seq<Seq<char>>) -> Option<Seq<char>>
    decreases ls.len(),
{
    if ls.len() == 0 {
        None
    } else if starts_with(ls[0], "cpu "@) {
        Some(ls[0])
    } else {
        first_cpu_line(ls.drop_first())
    }
}

/// The words that read as `u64`, in order, the others left out.
pub open spec fn counters(ws: Seq<Seq<char>>) -> Seq<u64>
    decreases ws.len(),
{
    if ws.len() == 0 {
        Seq::empty()
    } else {
        match parse_u64(ws.last()) {
            Some(n) => counters(ws.drop_last()).push(n),
            None => counters(ws.drop_last()),
        }
    }
}

/// The sum of some counters.
pub open spec fn total(s: Seq<u64>) -> nat
    decreases s.len(),
{
    if s.len() == 0 {
        0
    } else {
        total(s.drop_last()) + s.last() as nat
    }
}

/// A sum of counters is at most their number times `u64::MAX`.
proof fn lemma_total_bound(s: Seq<u64>)
    ensures
        total(s) <= s.len() * 18446744073709551615,
    decreases s.len(),
{
    if s.len() > 0 {
        lemma_total_bound(s.drop_last());
    }
}

/// The time counters of the `cpu ` line of a `/proc/stat` text: the sum of all its
/// counters and its fourth counter (idle time); none when there is no such line or it
/// has fewer than four counters.
pub open spec fn cpu_times(stat: Seq<char>) -> Option<(nat, u64)> {
    match first_cpu_line(lines(stat)) {
        Some(l) => {
            let ws = words(l);
            let v = counters(if ws.len() == 0 {
                ws
            } else {
                ws.drop_first()
            });
            if v.len() >= 4 {
                Some((total(v), v[3]))
            } else {
                None
            }
        },
        None => None,
    }
}

/// The `/proc/meminfo` fields that the memory report reads, in kB.
#[derive(PartialEq, Eq, Structural, Clone, Copy, Debug)]
pub struct MemFields {
    pub total: u64,
    pub free: u64,
    pub available: u64,
    pub buffers: u64,
    pub cached: u64,
}

/// The fields after one more line of `/proc/meminfo`: a line of at least two words
/// whose first word is a known key sets that field to its second word read as a
/// number, or zero.
pub open spec fn mem_step(m: MemFields, line: Seq<char>) -> MemFields {
    let p = words(line);
    if p.len() < 2 {
        m
    } else {
        let v = u64_or_zero(p[1]);
        let k = p[0];
        if k == "MemTotal:"@ {
            MemFields { total: v, ..m }
        } else if k == "MemFree:"@ {
            MemFields { free: v, ..m }
        } else if k == "MemAvailable:"@ {
            MemFields { available: v, ..m }
        } else if k == "Buffers:"@ {
            MemFields { buffers: v, ..m }
        } else if k == "Cached:"@ {
            MemFields { cached: v, ..m }
        } else {
            m
        }
    }
}

/// The fields that the lines of `/proc/meminfo` set, zero where none does.
pub open spec fn mem_scan(ls: Seq<Seq<char>>) -> MemFields
    decreases ls.len(),
{
    if ls.len() == 0 {
        MemFields { total: 0, free: 0, available: 0, buffers: 0, cached: 0 }
    } else {
        mem_step(mem_scan(ls.drop_last()), ls.last())
    }
}

/// The memory figures that the daemon reports.
#[derive(PartialEq, Eq, Structural, Clone, Copy, Debug)]
pub struct MemoryStats {
    pub total_kb: u64,
    pub free_kb: u64,
    pub available_kb: u64,
    pub used_kb: u64,
    pub total_mb: u64,
    pub used_mb: u64,
    pub free_mb: u64,
    pub available_mb: u64,
}

/// The memory figures of a `/proc/meminfo` text. Without a `MemAvailable` figure
/// (or with zero there) the available memory is free plus buffers plus cache, added
/// as `u64` additions wrap; the used memory is the total less the available, and
/// zero when that is negative; megabytes are kilobytes divided by 1024.
pub open spec fn memory_stats(meminfo: Seq<char>) -> MemoryStats {
    let f = mem_scan(lines(meminfo));
    let available: u64 = if f.available == 0 {
        ((f.free as int + f.buffers as int + f.cached as int) % 0x1_0000_0000_0000_0000) as u64
    } else {
        f.available
    };
    let used: u64 = if f.total >= available {
        (f.total - available) as u64
    } else {
        0
    };
    MemoryStats {
        total_kb: f.total,
        free_kb: f.free,
        available_kb: available,
        used_kb: used,
        total_mb: f.total / 1024,
        used_mb: used / 1024,
        free_mb: f.free / 1024,
        available_mb: available / 1024,
    }
}

/// Whether the characters of `v` are those of `lit`.
fn chars_are(v: &Vec<char>, lit: &str) -> (b: bool)
    ensures
        b == (v@ == lit@),
{
    let l = chars_of(lit);
    same_chars(v, &l)
}

/// The used memory never exceeds the total.
pub proof fn law_used_within_total(meminfo: Seq<char>)
    ensures
        memory_stats(meminfo).used_kb <= memory_stats(meminfo).total_kb,
{
}

/// The traffic counters of one network interface.
#[derive(PartialEq, Eq, Structural, Clone, Copy, Debug)]
pub struct NetworkInterface {
    pub rx_bytes: u64,
    pub tx_bytes: u64,
    pub rx_packets: u64,
    pub tx_packets: u64,
}

impl View for NetworkInterface {
    type V = NetworkInterface;

    open spec fn view(&self) -> NetworkInterface {
        *self
    }
}

/// The interface that one line of `/proc/net/dev` describes: a line of at least
/// eleven words names the interface in its first word, less any trailing `:`, with
/// received bytes and packets in the second and third words and sent bytes and
/// packets in the tenth and eleventh; the loopback interface `lo` is left out.
pub open spec fn net_dev_row(line: Seq<char>) -> Option<(Seq<char>, NetworkInterface)> {
    let p = words(line);
    if p.len() < 11 {
        None
    } else {
        let name = trim_end_char(p[0], ':');
        if name == "lo"@ {
            None
        } else {
            Some(
                (
                    name,
                    NetworkInterface {
                        rx_bytes: u64_or_zero(p[1]),
                        rx_packets: u64_or_zero(p[2]),
                        tx_bytes: u64_or_zero(p[9]),
                        tx_packets: u64_or_zero(p[10]),
                    },
                ),
            )
        }
    }
}

/// The interfaces of a `/proc/net/dev` text, whose first two lines are headers.
pub open spec fn net_dev_table(text: Seq<char>) -> Map<Seq<char>, NetworkInterface> {
    table(after(lines(text), 2).map_values(|l: Seq<char>| net_dev_row(l)))
}

/// The interface that one line describes.
fn net_dev_row_of(line: &Vec<char>) -> (r: Option<(String, NetworkInterface)>)
    ensures
        row_view(r) == net_dev_row(line@),
{
    let p = words_of(line);
    if p.len() < 11 {
        return None;
    }
    assert(seqs(p@)[0] == p@[0]@);
    assert(seqs(p@)[1] == p@[1]@);
    assert(seqs(p@)[2] == p@[2]@);
    assert(seqs(p@)[9] == p@[9]@);
    assert(seqs(p@)[10] == p@[10]@);
    let name = trimmed_end_char(&p[0], ':');
    if chars_are(&name, "lo") {
        return None;
    }
    let counters = NetworkInterface {
        rx_bytes: parse_or_zero(&p[1]),
        rx_packets: parse_or_zero(&p[2]),
        tx_bytes: parse_or_zero(&p[9]),
        tx_packets: parse_or_zero(&p[10]),
    };
    Some((string_from(&name), counters))
}

/// The loopback interface is never listed.
pub proof fn law_loopback_not_listed(text: Seq<char>)
    ensures
        !net_dev_table(text).contains_key("lo"@),
{
    let rows = after(lines(text), 2).map_values(|l: Seq<char>| net_dev_row(l));
    if table(rows).contains_key("lo"@) {
        lemma_table_names(rows, "lo"@);
        let i = choose|i: int| 0 <= i < rows.len() && #[trigger] rows[i] == Some(("lo"@, table(rows)["lo"@]));
        assert(rows[i] == net_dev_row(after(lines(text), 2)[i]));
    }
}

/// One filesystem of the `df -m --output=target,size,used,avail,pcent` output.
pub struct DiskRow {
    pub mountpoint: String,
    pub total_mb: u64,
    pub used_mb: u64,
    pub free_mb: u64,
    /// The use percentage as `df` printed it, without its `%`.
    pub usage: String,
}

/// What a `DiskRow` holds.
pub struct DiskRowView {
    pub mountpoint: Seq<char>,
    pub total_mb: u64,
    pub used_mb: u64,
    pub free_mb: u64,
    pub usage: Seq<char>,
}

impl View for DiskRow {
    type V = DiskRowView;

    open spec fn view(&self) -> DiskRowView {
        DiskRowView {
            mountpoint: self.mountpoint@,
            total_mb: self.total_mb,
            used_mb: self.used_mb,
            free_mb: self.free_mb,
            usage: self.usage@,
        }
    }
}

/// The filesystem that one line of `df` output describes: a line of at least five
/// words whose first word, the mountpoint, begins with `/`.
pub open spec fn disk_row(line: Seq<char>) -> Option<DiskRowView> {
    let p = words(line);
    if p.len() < 5 || !starts_with(p[0], seq!['/']) {
        None
    } else {
        Some(
            DiskRowView {
                mountpoint: p[0],
                total_mb: u64_or_zero(p[1]),
                used_mb: u64_or_zero(p[2]),
                free_mb: u64_or_zero(p[3]),
                usage: trim_end_char(p[4], '%'),
            },
        )
    }
}

/// The filesystems that the lines describe, in order.
pub open spec fn disk_rows(ls: Seq<Seq<char>>) -> Seq<DiskRowView>
    decreases ls.len(),
{
    if ls.len() == 0 {
        Seq::empty()
    } else {
        match disk_row(ls.last()) {
            Some(d) => disk_rows(ls.drop_last()).push(d),
            None => disk_rows(ls.drop_last()),
        }
    }
}

/// The filesystems of a `df` output, whose first line is a header.
pub open spec fn disk_list(output: Seq<char>) -> Seq<DiskRowView> {
    disk_rows(after(lines(output), 1))
}

/// The views of some filesystem rows.
pub open spec fn disk_views(v: Seq<DiskRow>) -> Seq<DiskRowView> {
    v.map_values(|d: DiskRow| d@)
}

/// The filesystem that one line describes.
fn disk_row_of(line: &Vec<char>) -> (r: Option<DiskRow>)
    ensures
        match r {
            Some(d) => disk_row(line@) == Some(d@),
            None => disk_row(line@) is None,
        },
{
    let p = words_of(line);
    if p.len() < 5 {
        return None;
    }
    assert(seqs(p@)[0] == p@[0]@);
    assert(seqs(p@)[1] == p@[1]@);
    assert(seqs(p@)[2] == p@[2]@);
    assert(seqs(p@)[3] == p@[3]@);
    assert(seqs(p@)[4] == p@[4]@);
    let slash = vec!['/'];
    assert(slash@ =~= seq!['/']);
    if !has_prefix(&p[0], &slash) {
        return None;
    }
    let usage = trimmed_end_char(&p[4], '%');
    Some(
        DiskRow {
            mountpoint: string_from(&p[0]),
            total_mb: parse_or_zero(&p[1]),
            used_mb: parse_or_zero(&p[2]),
            free_mb: parse_or_zero(&p[3]),
            usage: string_from(&usage),
        },
    )
}

/// Every filesystem that the report lists is mounted at an absolute path.
pub proof fn law_disks_are_absolute(ls: Seq<Seq<char>>)
    ensures
        forall|i: int| 0 <= i < disk_rows(ls).len() ==> starts_with(#[trigger] disk_rows(ls)[i].mountpoint, seq!['/']),
    decreases ls.len(),
{
    if ls.len() > 0 {
        law_disks_are_absolute(ls.drop_last());
        let prev = disk_rows(ls.drop_last());
        assert forall|i: int| 0 <= i < disk_rows(ls).len() implies starts_with(
            #[trigger] disk_rows(ls)[i].mountpoint,
            seq!['/'],
        ) by {
            if i < prev.len() {
                assert(disk_rows(ls)[i] == prev[i]);
            }
        }
    }
}

/// The hostname read back (trimmed, as it is read) after it is set (written with a
/// newline after it) is the name that was set, for a name without leading or trailing
/// whitespace.
pub proof fn law_hostname_reads_back(name: Seq<char>)
    requires
        name.len() > 0 ==> !is_ws(name[0]) && !is_ws(name.last()),
    ensures
        trim(name + seq!['\n']) == name,
{
    let s = name + seq!['\n'];
    if name.len() == 0 {
        assert(s.drop_first() =~= Seq::<char>::empty());
        assert(trim_start(s) == trim_start(s.drop_first()));
        assert(trim_start(s) =~= Seq::<char>::empty());
    } else {
        assert(s[0] == name[0]);
        assert(trim_start(s) == s);
        assert(s.drop_last() =~= name);
        assert(trim_end(s) == trim_end(name));
        assert(name.last() == name[name.len() - 1]);
        assert(trim_end(name) == name);
    }
}

/// Reports the state of the system: processors, memory, network traffic and filesystems.
pub struct System;

impl System {
    /// Counts the processors of a `/proc/cpuinfo` text.
    pub fn count_cores(cpuinfo: &str) -> (n: usize)
        ensures
            n == core_count(cpuinfo@),
            n >= 1,
    {
        let ls = lines_of_str(cpuinfo);
        let p = chars_of("processor");
        let mut n: usize = 0;
        let mut i: usize = 0;
        while i < ls.len()
            invariant
                i <= ls.len(),
                p@ == "processor"@,
                n <= i,
                n == count_prefixed(seqs(ls@).take(i as int), p@),
            decreases ls.len() - i,
        {
            assert(seqs(ls@).take(i + 1).drop_last() =~= seqs(ls@).take(i as int));
            assert(seqs(ls@).take(i + 1).last() == ls@[i as int]@);
            if has_prefix(&ls[i], &p) {
                n = n + 1;
            }
            i = i + 1;
        }
        assert(seqs(ls@).take(ls.len() as int) =~= seqs(ls@));
        if n == 0 {
            1
        } else {
            n
        }
    }

    /// Reads the time counters of a `/proc/stat` text: the total and the idle time.
    pub fn cpu_counters(stat: &str) -> (r: Option<(u128, u64)>)
        ensures
            match cpu_times(stat@) {
                Some(t) => r matches Some(p) && p.0 == t.0 && p.1 == t.1,
                None => r is None,
            },
    {
        let ls = lines_of_str(stat);
        let p = chars_of("cpu ");
        let mut i: usize = 0;
        assert(seqs(ls@).skip(0) =~= seqs(ls@));
        while i < ls.len() && !has_prefix(&ls[i], &p)
            invariant
                i <= ls.len(),
                p@ == "cpu "@,
                first_cpu_line(seqs(ls@)) == first_cpu_line(seqs(ls@).skip(i as int)),
            decreases ls.len() - i,
        {
            assert(seqs(ls@).skip(i as int).drop_first() =~= seqs(ls@).skip(i + 1));
            i = i + 1;
        }
        if i == ls.len() {
            return None;
        }
        assert(seqs(ls@).skip(i as int)[0] == ls@[i as int]@);
        let ws = words_of(&ls[i]);
        let ghost rest = if seqs(ws@).len() == 0 {
            seqs(ws@)
        } else {
            seqs(ws@).drop_first()
        };
        let mut vals: Vec<u64> = Vec::new();
        let mut sum: u128 = 0;
        let mut j: usize = if ws.len() == 0 {
            0
        } else {
            1
        };
        let start = j;
        assert(rest =~= seqs(ws@).skip(start as int));
        assert(rest.take(0) =~= Seq::<Seq<char>>::empty());
        while j < ws.len()
            invariant
                start <= j <= ws.len(),
                rest == seqs(ws@).skip(start as int),
                vals@ == counters(rest.take(j - start)),
                sum == total(vals@),
                vals@.len() <= j,
            decreases ws.len() - j,
        {
            let ghost t = rest.take(j - start + 1);
            assert(t.drop_last() =~= rest.take(j - start));
            assert(t.last() == ws@[j as int]@);
            match parse_u64_chars(&ws[j]) {
                Some(n) => {
                    proof {
                        lemma_total_bound(vals@);
                    }
                    assert(vals@.push(n).drop_last() =~= vals@);
                    vals.push(n);
                    sum = sum + n as u128;
                },
                None => {},
            }
            j = j + 1;
        }
        assert(rest.take(ws.len() - start) =~= rest);
        if vals.len() >= 4 {
            Some((sum, vals[3]))
        } else {
            None
        }
    }

    /// Reads the memory figures of a `/proc/meminfo` text.
    pub fn parse_meminfo(meminfo: &str) -> (m: MemoryStats)
        ensures
            m == memory_stats(meminfo@),
    {
        let ls = lines_of_str(meminfo);
        let mut f = MemFields { total: 0, free: 0, available: 0, buffers: 0, cached: 0 };
        let mut i: usize = 0;
        while i < ls.len()
            invariant
                i <= ls.len(),
                f == mem_scan(seqs(ls@).take(i as int)),
            decreases ls.len() - i,
        {
            assert(seqs(ls@).take(i + 1).drop_last() =~= seqs(ls@).take(i as int));
            assert(seqs(ls@).take(i + 1).last() == ls@[i as int]@);
            let p = words_of(&ls[i]);
            if p.len() >= 2 {
                assert(seqs(p@)[0] == p@[0]@);
                assert(seqs(p@)[1] == p@[1]@);
                let v = parse_or_zero(&p[1]);
                let k = &p[0];
                if chars_are(k, "MemTotal:") {
                    f.total = v;
                } else if chars_are(k, "MemFree:") {
                    f.free = v;
                } else if chars_are(k, "MemAvailable:") {
                    f.available = v;
                } else if chars_are(k, "Buffers:") {
                    f.buffers = v;
                } else if chars_are(k, "Cached:") {
                    f.cached = v;
                }
            }
            i = i + 1;
        }
        assert(seqs(ls@).take(ls.len() as int) =~= seqs(ls@));
        let available: u64 = if f.available == 0 {
            ((f.free as u128 + f.buffers as u128 + f.cached as u128) % 0x1_0000_0000_0000_0000u128) as u64
        } else {
            f.available
        };
        let used = f.total.saturating_sub(available);
        MemoryStats {
            total_kb: f.total,
            free_kb: f.free,
            available_kb: available,
            used_kb: used,
            total_mb: f.total / 1024,
            used_mb: used / 1024,
            free_mb: f.free / 1024,
            available_mb: available / 1024,
        }
    }

    /// The interfaces that a `/proc/net/dev` text lists, by name.
    pub fn parse_net_dev(text: &str) -> (m: NamedMap<NetworkInterface>)
        ensures
            m.view() == net_dev_table(text@),
    {
        let ls = lines_of_str(text);
        let ghost body = after(seqs(ls@), 2);
        let ghost rows = body.map_values(|l: Seq<char>| net_dev_row(l));
        let mut m = NamedMap::new();
        if ls.len() <= 2 {
            assert(rows =~= Seq::<Option<(Seq<char>, NetworkInterface)>>::empty());
            assert(m.view() =~= table(rows));
            return m;
        }
        let mut i: usize = 2;
        assert(rows.take(0) =~= Seq::<Option<(Seq<char>, NetworkInterface)>>::empty());
        while i < ls.len()
            invariant
                2 <= i <= ls.len(),
                body == seqs(ls@).skip(2),
                rows == body.map_values(|l: Seq<char>| net_dev_row(l)),
                m.view() == table(rows.take(i - 2)),
            decreases ls.len() - i,
        {
            proof {
                lemma_table_step(rows, i - 2);
            }
            assert(rows[i - 2] == net_dev_row(ls@[i as int]@));
            let r = net_dev_row_of(&ls[i]);
            m.insert_row(r);
            i = i + 1;
        }
        assert(rows.take(ls.len() - 2) =~= rows);
        m
    }

    /// The filesystems that a `df` output lists, in order.
    pub fn parse_df(output: &str) -> (v: Vec<DiskRow>)
        ensures
            disk_views(v@) == disk_list(output@),
    {
        let ls = lines_of_str(output);
        let ghost body = after(seqs(ls@), 1);
        let mut v: Vec<DiskRow> = Vec::new();
        if ls.len() <= 1 {
            assert(disk_views(v@) =~= disk_rows(body));
            return v;
        }
        let mut i: usize = 1;
        assert(body.take(0) =~= Seq::<Seq<char>>::empty());
        assert(disk_views(v@) =~= Seq::<DiskRowView>::empty());
        while i < ls.len()
            invariant
                1 <= i <= ls.len(),
                body == seqs(ls@).skip(1),
                disk_views(v@) == disk_rows(body.take(i - 1)),
            decreases ls.len() - i,
        {
            assert(body.take(i as int).drop_last() =~= body.take(i - 1));
            assert(body.take(i as int).last() == ls@[i as int]@);
            let ghost prev = disk_views(v@);
            match disk_row_of(&ls[i]) {
                Some(d) => {
                    v.push(d);
                    assert(disk_views(v@) =~= prev.push(d@));
                },
                None => {},
            }
            i = i + 1;
        }
        assert(body.take(ls.len() - 1) =~= body);
        v
    }

    /// The first word of a text, as the uptime file holds the seconds since boot there.
    pub fn first_word(text: &str) -> (r: Option<String>)
        ensures
            match r {
                Some(w) => words(text@).len() > 0 && w@ == words(text@)[0],
                None => words(text@).len() == 0,
            },
    {
        let v = chars_of(text);
        let ws = words_of(&v);
        if ws.len() == 0 {
            None
        } else {
            assert(seqs(ws@)[0] == ws@[0]@);
            Some(string_from(&ws[0]))
        }
    }

    /// What the hostname file holds after the hostname is set.
    pub fn hostname_file(name: &str) -> (s: String)
        ensures
            s@ == name@ + seq!['\n'],
    {
        let s = concat2(name, "\n");
        proof {
            reveal_strlit("\n");
        }
        assert(s@ =~= name@ + seq!['\n']);
        s
    }

    /// The answer to a hostname that was set.
    pub fn hostname_message(name: &str) -> (s: String)
        ensures
            s@ == "Hostname set to '"@ + name@ + "'"@,
    {
        concat3("Hostname set to '", name, "'")
    }
}


/// Whether some line begins with `processor`.
pub open spec fn has_processor_line(ls: Seq<Seq<char>>) -> bool {
    exists|i: int| 0 <= i < ls.len() && starts_with(#[trigger] ls[i], "processor"@)
}

/// A count of lines with a prefix is zero just when no line has it.
proof fn lemma_count_zero(ls: Seq<Seq<char>>, p: Seq<char>)
    ensures
        (count_prefixed(ls, p) == 0) <==> !(exists|i: int| 0 <= i < ls.len() && starts_with(#[trigger] ls[i], p)),
    decreases ls.len(),
{
    if ls.len() > 0 {
        let prev = ls.drop_last();
        lemma_count_zero(prev, p);
        if exists|i: int| 0 <= i < prev.len() && starts_with(#[trigger] prev[i], p) {
            let i = choose|i: int| 0 <= i < prev.len() && starts_with(#[trigger] prev[i], p);
            assert(ls[i] == prev[i]);
        }
        if exists|i: int| 0 <= i < ls.len() && starts_with(#[trigger] ls[i], p) {
            let i = choose|i: int| 0 <= i < ls.len() && starts_with(#[trigger] ls[i], p);
            if i < prev.len() {
                assert(prev[i] == ls[i]);
            }
        }
        assert(ls[ls.len() - 1] == ls.last());
    }
}

/// The processor count of a `/proc/cpuinfo` text, line by line: a text with no line
/// beginning with `processor` counts one; one more line that does not begin with
/// `processor` leaves the count as it was; one more line that does raises it by one,
/// or makes it one when it is the first such line.
pub proof fn law_core_count_lines(ls: Seq<Seq<char>>, l: Seq<char>)
    requires
        plain_lines(ls.push(l)),
    ensures
        !has_processor_line(ls) ==> core_count(joined_lines(ls)) == 1,
        !starts_with(l, "processor"@) ==> core_count(joined_lines(ls.push(l))) == core_count(
            joined_lines(ls),
        ),
        starts_with(l, "processor"@) ==> core_count(joined_lines(ls.push(l))) == if has_processor_line(ls) {
            core_count(joined_lines(ls)) + 1
        } else {
            1
        },
{
    let k = ls.push(l);
    assert(plain_lines(ls)) by {
        assert forall|i: int| 0 <= i < ls.len() implies !(#[trigger] ls[i]).contains('\n') && !ends_with_cr(ls[i]) by {
            assert(ls[i] == k[i]);
        }
    }
    lemma_lines_of_joined(ls);
    lemma_lines_of_joined(k);
    assert(k.drop_last() =~= ls);
    assert(k.last() == l);
    lemma_count_zero(ls, "processor"@);
}


/// One more line of a `/proc/net/dev` text, after its two header lines: a line of at
/// least eleven words whose first word, less any trailing `:`, names an interface other
/// than the loopback lists it with received bytes and packets from the second and third
/// words and sent bytes and packets from the tenth and eleventh (each zero when not a
/// number), replacing an earlier line of that name; any other line changes nothing.
pub proof fn law_net_dev_line(ls: Seq<Seq<char>>, l: Seq<char>)
    requires
        ls.len() >= 2,
        plain_lines(ls.push(l)),
    ensures
        ({
            let w = words(l);
            let name = trim_end_char(w[0], ':');
            w.len() >= 11 && name != "lo"@ ==> net_dev_table(joined_lines(ls.push(l))) == net_dev_table(
                joined_lines(ls),
            ).insert(
                name,
                NetworkInterface {
                    rx_bytes: u64_or_zero(w[1]),
                    rx_packets: u64_or_zero(w[2]),
                    tx_bytes: u64_or_zero(w[9]),
                    tx_packets: u64_or_zero(w[10]),
                },
            )
        }),
        words(l).len() < 11 || trim_end_char(words(l)[0], ':') == "lo"@ ==> net_dev_table(
            joined_lines(ls.push(l)),
        ) == net_dev_table(joined_lines(ls)),
{
    let k = ls.push(l);
    assert(plain_lines(ls)) by {
        assert forall|i: int| 0 <= i < ls.len() implies !(#[trigger] ls[i]).contains('\n') && !ends_with_cr(ls[i]) by {
            assert(ls[i] == k[i]);
        }
    }
    lemma_lines_of_joined(ls);
    lemma_lines_of_joined(k);
    assert(after(k, 2) =~= after(ls, 2).push(l));
    let f = |x: Seq<char>| net_dev_row(x);
    assert(after(k, 2).map_values(f) =~= after(ls, 2).map_values(f).push(net_dev_row(l)));
    lemma_table_push(after(ls, 2).map_values(f), net_dev_row(l));
}

/// One more line of `df -m --output=target,size,used,avail,pcent` output: a line of at
/// least five words whose first word begins with `/` adds that filesystem at the end,
/// with its size, used and available megabytes from the next three words (each zero
/// when not a number) and its use percentage from the fifth, less its `%`; any other
/// line (a pseudo filesystem) adds nothing.
pub proof fn law_df_line(ls: Seq<Seq<char>>, l: Seq<char>)
    ensures
        ({
            let w = words(l);
            w.len() >= 5 && starts_with(w[0], seq!['/']) ==> disk_rows(ls.push(l)) == disk_rows(ls).push(
                DiskRowView {
                    mountpoint: w[0],
                    total_mb: u64_or_zero(w[1]),
                    used_mb: u64_or_zero(w[2]),
                    free_mb: u64_or_zero(w[3]),
                    usage: trim_end_char(w[4], '%'),
                },
            )
        }),
        words(l).len() < 5 || !starts_with(words(l)[0], seq!['/']) ==> disk_rows(ls.push(l)) == disk_rows(ls),
{
    assert(ls.push(l).drop_last() =~= ls);
}

/// One more line of `/proc/meminfo`: a line of at least two words whose first word is
/// `MemTotal:`, `MemFree:`, `MemAvailable:`, `Buffers:` or `Cached:` sets that figure
/// to its second word read as a number (zero when not one) and leaves the others;
/// any other line changes nothing.
pub proof fn law_meminfo_line(ls: Seq<Seq<char>>, l: Seq<char>)
    ensures
        ({
            let w = words(l);
            let f = mem_scan(ls);
            let g = mem_scan(ls.push(l));
            let v = u64_or_zero(w[1]);
            &&& w.len() >= 2 && w[0] == "MemTotal:"@ ==> g == MemFields { total: v, ..f }
            &&& w.len() >= 2 && w[0] == "MemFree:"@ ==> g == MemFields { free: v, ..f }
            &&& w.len() >= 2 && w[0] == "MemAvailable:"@ ==> g == MemFields { available: v, ..f }
            &&& w.len() >= 2 && w[0] == "Buffers:"@ ==> g == MemFields { buffers: v, ..f }
            &&& w.len() >= 2 && w[0] == "Cached:"@ ==> g == MemFields { cached: v, ..f }
            &&& (w.len() < 2 || (w[0] != "MemTotal:"@ && w[0] != "MemFree:"@ && w[0] != "MemAvailable:"@
                && w[0] != "Buffers:"@ && w[0] != "Cached:"@)) ==> g == f
        }),
{
    reveal_strlit("MemTotal:");
    reveal_strlit("MemFree:");
    reveal_strlit("MemAvailable:");
    reveal_strlit("Buffers:");
    reveal_strlit("Cached:");
    assert(ls.push(l).drop_last() =~= ls);
    assert(mem_scan(ls.push(l)) == mem_step(mem_scan(ls), l));
    assert("MemTotal:"@.len() == 9 && "MemFree:"@.len() == 8 && "MemAvailable:"@.len() == 13);
    assert("Buffers:"@.len() == 8 && "Cached:"@.len() == 7);
    assert("MemTotal:"@[0] == 'M' && "MemFree:"@[3] == 'F' && "MemTotal:"@[3] == 'T');
    assert("MemTotal:"@ != "MemFree:"@ && "MemTotal:"@ != "MemAvailable:"@ && "MemTotal:"@ != "Buffers:"@
        && "MemTotal:"@ != "Cached:"@);
    assert("MemFree:"@[0] != "Buffers:"@[0]);
    assert("MemFree:"@ != "MemAvailable:"@ && "MemFree:"@ != "Buffers:"@ && "MemFree:"@ != "Cached:"@);
    assert("MemAvailable:"@ != "Buffers:"@ && "MemAvailable:"@ != "Cached:"@ && "Buffers:"@ != "Cached:"@);
}

/// How the memory figures follow from the fields of `/proc/meminfo`: total and free
/// are those fields; available is the `MemAvailable` field, or when that is zero the
/// sum of free, buffers and cache (when it fits in a `u64`); used is total less
/// available, and zero when available exceeds the total; each megabyte figure is the
/// kilobyte figure divided by 1024, rounded down.
pub proof fn law_memory_figures(meminfo: Seq<char>)
    ensures
        ({
            let f = mem_scan(lines(meminfo));
            let m = memory_stats(meminfo);
            &&& m.total_kb == f.total
            &&& m.free_kb == f.free
            &&& f.available != 0 ==> m.available_kb == f.available
            &&& f.available == 0 && f.free + f.buffers + f.cached <= u64::MAX ==> m.available_kb == f.free
                + f.buffers + f.cached
            &&& m.available_kb <= m.total_kb ==> m.used_kb + m.available_kb == m.total_kb
            &&& m.available_kb > m.total_kb ==> m.used_kb == 0
            &&& m.total_mb * 1024 <= m.total_kb < m.total_mb * 1024 + 1024
            &&& m.used_mb * 1024 <= m.used_kb < m.used_mb * 1024 + 1024
            &&& m.free_mb * 1024 <= m.free_kb < m.free_mb * 1024 + 1024
            &&& m.available_mb * 1024 <= m.available_kb < m.available_mb * 1024 + 1024
        }),
{
    let f = mem_scan(lines(meminfo));
    let sum = f.free as int + f.buffers as int + f.cached as int;
    if sum <= u64::MAX {
        assert(sum % 0x1_0000_0000_0000_0000 == sum) by (nonlinear_arith)
            requires
                0 <= sum <= u64::MAX,
        ;
    }
}


/// The time counters come from the first line that begins with `cpu `: the total is
/// the sum of the numbers after its first word and the idle time is the fourth of them;
/// with fewer than four numbers there, or no such line, there are none.
pub proof fn law_cpu_times(stat: Seq<char>, l: Seq<char>)
    ensures
        ({
            let v = counters(words(l).drop_first());
            &&& first_cpu_line(lines(stat)) == Some(l) && v.len() >= 4 ==> cpu_times(stat) == Some(
                (total(v), v[3]),
            )
            &&& first_cpu_line(lines(stat)) == Some(l) && v.len() < 4 ==> cpu_times(stat) is None
        }),
        first_cpu_line(lines(stat)) is None ==> cpu_times(stat) is None,
{
    reveal_strlit("cpu ");
    lemma_first_cpu_line_starts(lines(stat));
    if first_cpu_line(lines(stat)) == Some(l) {
        assert(l[0] == "cpu "@[0]);
        lemma_words_nonempty(l);
    }
}

/// The line that `first_cpu_line` finds begins with `cpu `.
proof fn lemma_first_cpu_line_starts(ls: Seq<Seq<char>>)
    ensures
        first_cpu_line(ls) matches Some(l) ==> starts_with(l, "cpu "@),
    decreases ls.len(),
{
    if ls.len() > 0 && !starts_with(ls[0], "cpu "@) {
        lemma_first_cpu_line_starts(ls.drop_first());
    }
}

/// The sum of counters with one more is their sum plus it.
pub proof fn law_total_push(v: Seq<u64>, x: u64)
    ensures
        total(v.push(x)) == total(v) + x,
{
    assert(v.push(x).drop_last() =~= v);
}


/// The line of totals is the first line that begins with `cpu ` (lines for single
/// processors, `cpu0` and on, are passed over); there is none without such a line.
pub proof fn law_first_cpu_line(ls: Seq<Seq<char>>, k: int)
    ensures
        0 <= k < ls.len() && starts_with(ls[k], "cpu "@) && (forall|i: int|
            0 <= i < k ==> !starts_with(#[trigger] ls[i], "cpu "@)) ==> first_cpu_line(ls) == Some(ls[k]),
        (forall|i: int| 0 <= i < ls.len() ==> !starts_with(#[trigger] ls[i], "cpu "@)) ==> first_cpu_line(ls)
            is None,
    decreases ls.len(),
{
    if ls.len() > 0 {
        let rest = ls.drop_first();
        law_first_cpu_line(rest, k - 1);
        if (forall|i: int| 0 <= i < ls.len() ==> !starts_with(#[trigger] ls[i], "cpu "@)) {
            assert(!starts_with(ls[0], "cpu "@));
            assert forall|i: int| 0 <= i < rest.len() implies !starts_with(#[trigger] rest[i], "cpu "@) by {
                assert(rest[i] == ls[i + 1]);
            }
        }
        if 0 < k < ls.len() && (forall|i: int| 0 <= i < k ==> !starts_with(#[trigger] ls[i], "cpu "@)) {
            assert(!starts_with(ls[0], "cpu "@));
            assert forall|i: int| 0 <= i < k - 1 implies !starts_with(#[trigger] rest[i], "cpu "@) by {
                assert(rest[i] == ls[i + 1]);
            }
            assert(rest[k - 1] == ls[k]);
        }
    }
}

} // verus!
