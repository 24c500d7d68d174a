use vstd::prelude::*;
use crate::named_map::{NamedMap, lemma_table_has_row, lemma_table_push, lemma_table_names, lemma_table_step, table};
use crate::text::{concat2, concat3, opt_chars};

verus! {

/// The error that `serde_json` reports for text that is not JSON.
#[verifier::external_type_specification]
#[verifier::external_body]
pub struct ExJsonError(serde_json::Error);

/// The fields of one device object in the JSON that `lsblk -J` prints, each one
/// present when the field is a JSON string.
pub struct LsblkEntry {
    pub name: Option<String>,
    pub size: Option<String>,
    pub dtype: Option<String>,
    pub model: Option<String>,
    pub mountpoint: Option<String>,
}

/// What an `LsblkEntry` holds.
pub struct LsblkEntryView {
    pub name: Option<Seq<char>>,
    pub size: Option<Seq<char>>,
    pub dtype: Option<Seq<char>>,
    pub model: Option<Seq<char>>,
    pub mountpoint: Option<Seq<char>>,
}

impl View for LsblkEntry {
    type V = LsblkEntryView;

    open spec fn view(&self) -> LsblkEntryView {
        LsblkEntryView {
            name: opt_chars(self.name),
            size: opt_chars(self.size),
            dtype: opt_chars(self.dtype),
            model: opt_chars(self.model),
            mountpoint: opt_chars(self.mountpoint),
        }
    }
}

/// A block device as the daemon reports it.
pub struct BlockDevice {
    pub size: Option<String>,
    pub dtype: Option<String>,
    pub model: Option<String>,
    pub mountpoint: Option<String>,
}

/// What a `BlockDevice` holds.
pub struct BlockDeviceView {
    pub size: Option<Seq<char>>,
    pub dtype: Option<Seq<char>>,
    pub model: Option<Seq<char>>,
    pub mountpoint: Option<Seq<char>>,
}

impl View for BlockDevice {
    type V = BlockDeviceView;

    open spec fn view(&self) -> BlockDeviceView {
        BlockDeviceView {
            size: opt_chars(self.size),
            dtype: opt_chars(self.dtype),
            model: opt_chars(self.model),
            mountpoint: opt_chars(self.mountpoint),
        }
    }
}

/// Why a block device query failed.
#[derive(Debug)]
pub enum BlockError {
    /// The output of `lsblk` is not JSON.
    InvalidJson(serde_json::Error),
    /// The JSON has no `blockdevices` array.
    UnexpectedOutput,
    /// The `blockdevices` array is missing or empty.
    NotFound,
    /// The first device has no name.
    Unparsable,
}

impl BlockError {
    /// The text of the error for a query of `device`; none for a JSON error, whose text
    /// is the one `serde_json` gives.
    pub fn message(&self, device: &str) -> (r: Option<String>)
        ensures
            match *self {
                BlockError::InvalidJson(_) => r is None,
                BlockError::UnexpectedOutput => r matches Some(s) && s@ == "unexpected lsblk output"@,
                BlockError::NotFound => r matches Some(s) && s@ == "device '"@ + device@ + "' not found"@,
                BlockError::Unparsable => r matches Some(s) && s@ == "failed to parse device '"@ + device@
                    + "'"@,
            },
    {
        match self {
            BlockError::InvalidJson(_) => None,
            BlockError::UnexpectedOutput => Some("unexpected lsblk output".to_owned()),
            BlockError::NotFound => Some(concat3("device '", device, "' not found")),
            BlockError::Unparsable => Some(concat3("failed to parse device '", device, "'")),
        }
    }
}

/// The device objects of the JSON text `output`: `None` when the text is not JSON,
/// `Some(None)` when it has no `blockdevices` array, and otherwise the fields of the
/// array's elements, in order.
pub uninterp spec fn lsblk_document(output: Seq<u8>) -> Option<Option<Seq<LsblkEntryView>>>;

/// The views of a list of entries.
pub open spec fn entry_views(v: Seq<LsblkEntry>) -> Seq<LsblkEntryView> {
    v.map_values(|e: LsblkEntry| e@)
}

/// Reads the device objects of the JSON that `lsblk -J` printed.
/// Trusted: `serde_json::from_slice` into a `serde_json::Value`, then `Index` with
/// `"blockdevices"`, `Value::as_array`, and for each element `Index` with each field
/// name and `Value::as_str`. The contract only names the outcome: the same bytes give
/// the same devices; what JSON parsing does is not restated.
#[verifier::external_body]
fn read_lsblk_json(output: &[u8]) -> (r: Result<Option<Vec<LsblkEntry>>, serde_json::Error>)
    ensures
        match r {
            Err(_) => lsblk_document(output@) is None,
            Ok(None) => lsblk_document(output@) == Some(None::<Seq<LsblkEntryView>>),
            Ok(Some(v)) => lsblk_document(output@) == Some(Some(entry_views(v@))),
        },
{
    let doc: serde_json::Value = serde_json::from_slice(output)?;
    let field = |d: &serde_json::Value, k: &str| d[k].as_str().map(String::from);
    Ok(doc["blockdevices"].as_array().map(|a| a.iter().map(|d| LsblkEntry {
        name: field(d, "name"),
        size: field(d, "size"),
        dtype: field(d, "type"),
        model: field(d, "model"),
        mountpoint: field(d, "mountpoint"),
    }).collect()))
}

/// The name and record that a device object yields: none when it has no name.
pub open spec fn device_record(e: LsblkEntryView) -> Option<(Seq<char>, BlockDeviceView)> {
    match e.name {
        Some(n) => Some(
            (
                n,
                BlockDeviceView {
                    size: e.size,
                    dtype: e.dtype,
                    model: e.model,
                    mountpoint: e.mountpoint,
                },
            ),
        ),
        None => None,
    }
}

/// The devices that a listing shows, by name: every device object that has a name;
/// a later device of the same name replaces an earlier one.
pub open spec fn device_table(es: Seq<LsblkEntryView>) -> Map<Seq<char>, BlockDeviceView> {
    table(es.map_values(|e: LsblkEntryView| device_record(e)))
}

/// Every device object that has a name is listed, and every listed device is the
/// record of a device object of its name.
pub proof fn law_named_devices_are_listed(es: Seq<LsblkEntryView>, i: int, name: Seq<char>)
    requires
        0 <= i < es.len(),
    ensures
        es[i].name == Some(name) ==> device_table(es).contains_key(name),
        device_table(es).contains_key(name) ==> exists|j: int|
            0 <= j < es.len() && #[trigger] device_record(es[j]) == Some((name, device_table(es)[name])),
{
    let rows = es.map_values(|e: LsblkEntryView| device_record(e));
    if es[i].name == Some(name) {
        assert(rows[i] == device_record(es[i]));
        lemma_table_has_row(rows, i);
    }
    if table(rows).contains_key(name) {
        lemma_table_names(rows, name);
        let j = choose|j: int| 0 <= j < rows.len() && #[trigger] rows[j] == Some((name, table(rows)[name]));
        assert(device_record(es[j]) == rows[j]);
    }
}

/// A copy of an optional string.
pub fn clone_opt(o: &Option<String>) -> (r: Option<String>)
    ensures
        opt_chars(r) == opt_chars(*o),
{
    match o {
        Some(s) => Some(s.clone()),
        None => None,
    }
}

impl BlockDevice {
    /// The name and record of a device object; none when it has no name.
    pub fn from_entry(e: &LsblkEntry) -> (r: Option<(String, BlockDevice)>)
        ensures
            match r {
                Some(p) => device_record(e@) == Some((p.0@, p.1@)),
                None => device_record(e@) is None,
            },
    {
        match &e.name {
            Some(n) => Some(
                (
                    n.clone(),
                    BlockDevice {
                        size: clone_opt(&e.size),
                        dtype: clone_opt(&e.dtype),
                        model: clone_opt(&e.model),
                        mountpoint: clone_opt(&e.mountpoint),
                    },
                ),
            ),
            None => None,
        }
    }
}

/// The record that a device query shows: that of the first device object.
pub open spec fn device_info_result(doc: Option<Seq<LsblkEntryView>>) -> Option<Option<BlockDeviceView>> {
    match doc {
        Some(es) => if es.len() > 0 {
            match device_record(es[0]) {
                Some(r) => Some(Some(r.1)),
                None => Some(None),
            }
        } else {
            None
        },
        None => None,
    }
}

/// Queries the block devices of the system through `lsblk`.
pub struct Block;

impl Block {
    /// The device objects that have a name, by name.
    pub fn select_devices(entries: &Vec<LsblkEntry>) -> (m: NamedMap<BlockDevice>)
        ensures
            m.view() == device_table(entry_views(entries@)),
    {
        let ghost rows = entry_views(entries@).map_values(|e: LsblkEntryView| device_record(e));
        let mut m = NamedMap::new();
        let mut i: usize = 0;
        while i < entries.len()
            invariant
                i <= entries.len(),
                rows == entry_views(entries@).map_values(|e: LsblkEntryView| device_record(e)),
                m.view() == table(rows.take(i as int)),
            decreases entries.len() - i,
        {
            proof {
                lemma_table_step(rows, i as int);
                assert(rows[i as int] == device_record(entries@[i as int]@));
            }
            match BlockDevice::from_entry(&entries[i]) {
                Some(p) => {
                    let (name, dev) = p;
                    m.insert(name, dev);
                },
                None => {},
            }
            i = i + 1;
        }
        assert(rows.take(entries.len() as int) =~= rows);
        m
    }

    /// The record of the first device object: `NotFound` when there is no device array
    /// or it is empty, `Unparsable` when the first device has no name.
    pub fn first_device(entries: &Option<Vec<LsblkEntry>>) -> (r: Result<BlockDevice, BlockError>)
        ensures
            ({
                let doc = match entries {
                    Some(v) => Some(entry_views(v@)),
                    None => None,
                };
                match device_info_result(doc) {
                    None => r matches Err(BlockError::NotFound),
                    Some(None) => r matches Err(BlockError::Unparsable),
                    Some(Some(d)) => r matches Ok(dev) && dev@ == d,
                }
            }),
    {
        match entries {
            Some(v) => {
                if v.len() == 0 {
                    return Err(BlockError::NotFound);
                }
                assert(entry_views(v@)[0] == v@[0]@);
                match BlockDevice::from_entry(&v[0]) {
                    Some(p) => Ok(p.1),
                    None => Err(BlockError::Unparsable),
                }
            },
            None => Err(BlockError::NotFound),
        }
    }

    /// The devices that the JSON printed by `lsblk -d -J` describes, by name.
    pub fn list_devices(output: &[u8]) -> (r: Result<NamedMap<BlockDevice>, BlockError>)
        ensures
            match lsblk_document(output@) {
                None => r matches Err(BlockError::InvalidJson(_)),
                Some(None) => r matches Err(BlockError::UnexpectedOutput),
                Some(Some(es)) => r matches Ok(m) && m.view() == device_table(es),
            },
    {
        match read_lsblk_json(output) {
            Err(e) => Err(BlockError::InvalidJson(e)),
            Ok(None) => Err(BlockError::UnexpectedOutput),
            Ok(Some(v)) => Ok(Self::select_devices(&v)),
        }
    }

    /// The record of the device that the JSON printed by `lsblk -J <device>` describes.
    pub fn device_info(output: &[u8]) -> (r: Result<BlockDevice, BlockError>)
        ensures
            match lsblk_document(output@) {
                None => r matches Err(BlockError::InvalidJson(_)),
                Some(doc) => match device_info_result(doc) {
                    None => r matches Err(BlockError::NotFound),
                    Some(None) => r matches Err(BlockError::Unparsable),
                    Some(Some(d)) => r matches Ok(dev) && dev@ == d,
                },
            },
    {
        match read_lsblk_json(output) {
            Err(e) => Err(BlockError::InvalidJson(e)),
            Ok(v) => Self::first_device(&v),
        }
    }

    /// The columns that the daemon asks `lsblk` for.
    pub fn lsblk_columns() -> (s: String)
        ensures
            s@ == "NAME,SIZE,TYPE,MODEL,MOUNTPOINT"@,
    {
        "NAME,SIZE,TYPE,MODEL,MOUNTPOINT".to_owned()
    }

    /// The arguments of the `lsblk` run that lists the devices.
    pub fn list_args() -> (a: Vec<String>)
        ensures
            a@.map_values(|s: String| s@) == seq!["-d"@, "-o"@, "NAME,SIZE,TYPE,MODEL,MOUNTPOINT"@, "-J"@],
    {
        let a = vec!["-d".to_owned(), "-o".to_owned(), Self::lsblk_columns(), "-J".to_owned()];
        assert(a@.map_values(|s: String| s@) =~= seq!["-d"@, "-o"@, "NAME,SIZE,TYPE,MODEL,MOUNTPOINT"@, "-J"@]);
        a
    }

    /// The arguments of the `lsblk` run that shows one device.
    pub fn info_args(device: &str) -> (a: Vec<String>)
        ensures
            a@.map_values(|s: String| s@) == seq!["-o"@, "NAME,SIZE,TYPE,MODEL,MOUNTPOINT"@, "/dev/"@ + device@, "-J"@],
    {
        let a = vec!["-o".to_owned(), Self::lsblk_columns(), concat2("/dev/", device), "-J".to_owned()];
        assert(a@.map_values(|s: String| s@) =~= seq!["-o"@, "NAME,SIZE,TYPE,MODEL,MOUNTPOINT"@, "/dev/"@ + device@, "-J"@]);
        a
    }
}


/// One more device object with a name lists it under that name, replacing an earlier
/// one, with its size, type, model and mountpoint as the object gives them; one without
/// a name changes nothing.
pub proof fn law_device_object(es: Seq<LsblkEntryView>, e: LsblkEntryView)
    ensures
        e.name is Some ==> device_table(es.push(e)) == device_table(es).insert(
            e.name.unwrap(),
            BlockDeviceView { size: e.size, dtype: e.dtype, model: e.model, mountpoint: e.mountpoint },
        ),
        e.name is None ==> device_table(es.push(e)) == device_table(es),
{
    let f = |x: LsblkEntryView| device_record(x);
    assert(es.push(e).map_values(f) =~= es.map_values(f).push(device_record(e)));
    lemma_table_push(es.map_values(f), device_record(e));
}


/// A device query shows the first device object alone, whatever follows it: its size,
/// type, model and mountpoint when it has a name, and no record when it has none; an
/// empty device list shows nothing.
pub proof fn law_device_query_first(e: LsblkEntryView, rest: Seq<LsblkEntryView>)
    ensures
        device_info_result(Some(seq![e] + rest)) == device_info_result(Some(seq![e])),
        e.name is Some ==> device_info_result(Some(seq![e])) == Some(
            Some(BlockDeviceView { size: e.size, dtype: e.dtype, model: e.model, mountpoint: e.mountpoint }),
        ),
        e.name is None ==> device_info_result(Some(seq![e])) == Some(None::<BlockDeviceView>),
        device_info_result(Some(Seq::<LsblkEntryView>::empty())) is None,
{
    assert((seq![e] + rest)[0] == e);
}

} // verus!
