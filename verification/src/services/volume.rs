use vstd::prelude::*;
use crate::named_map::{NamedMap, table, lemma_table_push, lemma_table_step, lemma_table_names, row_view};
use crate::num::{parse_i32, parse_i32_chars, signed_decimal, signed_decimal_string};
use crate::text::{is_ws, lemma_piece_range, lemma_trim_end_length, lemma_trim_start_offset, lemma_split_joined, lemma_split_newline_join, lemma_split_prepend, lemma_split_char_pieces, lemma_trim_first, lemma_trim_keeps, non_empty, strip_cr, stripped, trim_start, chars_of, ends_with_cr, joined_lines, lemma_lines_have_no_newline, lemma_lines_of_joined, lemma_split_char_append, plain_lines, concat2, concat3, contains, extend_chars, has_infix, has_prefix, lemma_split_char_len, lines, lines_of_str, same_chars, seqs, split_char, split_on, starts_with, string_from, strs, trim, trimmed};

verus! {

/// The figures that `zfs list -H` prints for one dataset.
pub struct VolumeInfo {
    pub used: String,
    pub avail: String,
    pub refer: String,
    pub mountpoint: String,
}

/// What a `VolumeInfo` holds.
pub struct VolumeInfoView {
    pub used: Seq<char>,
    pub avail: Seq<char>,
    pub refer: Seq<char>,
    pub mountpoint: Seq<char>,
}

impl View for VolumeInfo {
    type V = VolumeInfoView;

    open spec fn view(&self) -> VolumeInfoView {
        VolumeInfoView {
            used: self.used@,
            avail: self.avail@,
            refer: self.refer@,
            mountpoint: self.mountpoint@,
        }
    }
}

/// The volume that one line of `zfs list -H -o name,used,avail,refer,mountpoint`
/// describes: none when it has fewer than five tab-separated columns, and none for
/// a pool's top-level dataset, whose name has no `/`.
pub open spec fn volume_row(line: Seq<char>) -> Option<(Seq<char>, VolumeInfoView)> {
    let c = split_char(line, '\t');
    if c.len() < 5 || !contains(c[0], seq!['/']) {
        None
    } else {
        Some((c[0], VolumeInfoView { used: c[1], avail: c[2], refer: c[3], mountpoint: c[4] }))
    }
}

/// The volumes that the lines describe, by name.
pub open spec fn volume_table(ls: Seq<Seq<char>>) -> Map<Seq<char>, VolumeInfoView> {
    table(ls.map_values(|l: Seq<char>| volume_row(l)))
}

/// The volume that one line describes.
fn volume_row_of(line: &Vec<char>) -> (r: Option<(String, VolumeInfo)>)
    ensures
        row_view(r) == volume_row(line@),
{
    let c = split_on(line, '\t');
    if c.len() < 5 {
        return None;
    }
    assert(seqs(c@)[0] == c@[0]@);
    assert(seqs(c@)[4] == c@[4]@);
    let slash = vec!['/'];
    assert(slash@ =~= seq!['/']);
    if !has_infix(&c[0], &slash) {
        return None;
    }
    let info = VolumeInfo {
        used: string_from(&c[1]),
        avail: string_from(&c[2]),
        refer: string_from(&c[3]),
        mountpoint: string_from(&c[4]),
    };
    Some((string_from(&c[0]), info))
}

/// Every volume that a listing shows is a dataset below a pool: its name has a `/`.
pub proof fn law_listed_volumes_are_nested(ls: Seq<Seq<char>>, name: Seq<char>)
    requires
        volume_table(ls).contains_key(name),
    ensures
        contains(name, seq!['/']),
{
    let rows = ls.map_values(|l: Seq<char>| volume_row(l));
    lemma_table_names(rows, name);
    let i = choose|i: int| 0 <= i < rows.len() && #[trigger] rows[i] == Some((name, table(rows)[name]));
    assert(rows[i] == volume_row(ls[i]));
}

/// The dataset of a volume named `name` in `pool`.
pub open spec fn dataset_of(name: Seq<char>, pool: Seq<char>) -> Seq<char> {
    pool + seq!['/'] + name
}

/// Where a volume named `name` in `pool` is mounted.
pub open spec fn mountpoint_of(name: Seq<char>, pool: Seq<char>) -> Seq<char> {
    "/mnt/pools/"@ + pool + seq!['/'] + name
}

/// The share name of a dataset: the part after its last `/`, or all of it.
pub open spec fn share_name(dataset: Seq<char>) -> Seq<char> {
    split_char(dataset, '/').last()
}

/// The share of a volume created as `name` in `pool` is the one that deleting its
/// dataset removes: the share name of the dataset is `name`, when `name` has no `/`.
pub proof fn law_deleted_volume_share_is_created_share(name: Seq<char>, pool: Seq<char>)
    requires
        forall|i: int| 0 <= i < name.len() ==> name[i] != '/',
    ensures
        share_name(dataset_of(name, pool)) == name,
{
    let x = pool + seq!['/'];
    assert(dataset_of(name, pool) =~= x + name);
    lemma_split_char_append(x, name, '/');
    assert(x.drop_last() =~= pool);
    lemma_split_char_len(pool, '/');
    assert(split_char(x, '/').last() =~= Seq::<char>::empty());
    assert(Seq::<char>::empty() + name =~= name);
}

/// The line that opens the Samba section of a share.
pub open spec fn share_header(name: Seq<char>) -> Seq<char> {
    seq!['['] + name + seq![']']
}

/// The line that gives a share's path.
pub open spec fn path_line(path: Seq<char>) -> Seq<char> {
    "   path = "@ + path
}

/// The settings that every share gets after its path, one line each.
pub open spec fn setting_lines() -> Seq<Seq<char>> {
    seq![
        "   browseable = yes"@,
        "   guest ok = yes"@,
        "   guest only = no"@,
        "   read only = no"@,
        "   writable = yes"@,
        "   create mask = 0664"@,
        "   directory mask = 0775"@,
    ]
}

/// The Samba section of a share, with a blank line before it: its header line, its
/// path line and its setting lines, each line ended by a newline.
pub open spec fn share_section(name: Seq<char>, path: Seq<char>) -> Seq<char> {
    seq!['\n'] + share_header(name) + seq!['\n'] + path_line(path) + seq!['\n'] + joined_lines(
        setting_lines(),
    )
}

/// Whether a line of a section neither ends it nor opens another: it holds no newline,
/// does not end with a carriage return, and its trimmed text does not begin with `[`.
pub open spec fn inner_line(l: Seq<char>) -> bool {
    &&& !l.contains('\n')
    &&& !ends_with_cr(l)
    &&& !starts_with(trim(l), seq!['['])
}

/// A line indented by three spaces before a lowercase letter, with no newline and no
/// final carriage return, is an inner line.
proof fn lemma_indented_line(l: Seq<char>)
    requires
        l.len() > 3,
        l[0] == ' ',
        l[1] == ' ',
        l[2] == ' ',
        'a' <= l[3] <= 'z',
        forall|i: int| 0 <= i < l.len() ==> l[i] != '\n',
        l.last() != '\r',
    ensures
        inner_line(l),
{
    lemma_not_opening(l);
}

/// A line indented by three spaces before a lowercase letter does not open a section.
proof fn lemma_not_opening(l: Seq<char>)
    requires
        l.len() > 3,
        l[0] == ' ',
        l[1] == ' ',
        l[2] == ' ',
        'a' <= l[3] <= 'z',
    ensures
        !starts_with(trim(l), seq!['[']),
{
    assert forall|i: int| 0 <= i < 3 implies is_ws(#[trigger] l[i]) by {
        if i == 0 {
        } else if i == 1 {
        } else {
        }
    }
    lemma_trim_first(l, 3);
    if starts_with(trim(l), seq!['[']) {
        assert(trim(l).take(1)[0] == trim(l)[0]);
    }
}

/// Every setting line is an inner line.
proof fn lemma_setting_lines_inner()
    ensures
        forall|k: int| 0 <= k < setting_lines().len() ==> inner_line(#[trigger] setting_lines()[k]),
{
    reveal_strlit("   browseable = yes");
    lemma_indented_line("   browseable = yes"@);
    reveal_strlit("   guest ok = yes");
    lemma_indented_line("   guest ok = yes"@);
    reveal_strlit("   guest only = no");
    lemma_indented_line("   guest only = no"@);
    reveal_strlit("   read only = no");
    lemma_indented_line("   read only = no"@);
    reveal_strlit("   writable = yes");
    lemma_indented_line("   writable = yes"@);
    reveal_strlit("   create mask = 0664");
    lemma_indented_line("   create mask = 0664"@);
    reveal_strlit("   directory mask = 0775");
    lemma_indented_line("   directory mask = 0775"@);
    assert forall|k: int| 0 <= k < setting_lines().len() implies inner_line(#[trigger] setting_lines()[k]) by {
        if k == 0 {
        } else if k == 1 {
        } else if k == 2 {
        } else if k == 3 {
        } else if k == 4 {
        } else if k == 5 {
        } else {
        }
    }
}

/// A configuration with a share's section added holds the share's header, so adding
/// the same share to it again changes nothing.
pub proof fn law_added_share_has_header(conf: Seq<char>, name: Seq<char>, path: Seq<char>)
    ensures
        contains(conf + share_section(name, path), share_header(name)),
{
    let s = conf + share_section(name, path);
    let h = share_header(name);
    let i: int = conf.len() as int + 1;
    assert(s.subrange(i, i + h.len() as int) =~= h);
}

/// Scans the lines of a configuration for the share with header `header`: whether
/// the scan is inside that share's section, and the lines kept so far. A line whose
/// trimmed text starts with `[` opens a section; the share's section is the one whose
/// header line, trimmed, is `header`.
pub open spec fn share_scan(ls: Seq<Seq<char>>, header: Seq<char>) -> (bool, Seq<Seq<char>>)
    decreases ls.len(),
{
    if ls.len() == 0 {
        (false, Seq::empty())
    } else {
        let st = share_scan(ls.drop_last(), header);
        let line = ls.last();
        let t = trim(line);
        let skip = if starts_with(t, seq!['[']) {
            t == header
        } else {
            st.0
        };
        (skip, if skip {
            st.1
        } else {
            st.1.push(line)
        })
    }
}

/// The Samba configuration without the section of the share `name`.
pub open spec fn without_share(conf: Seq<char>, name: Seq<char>) -> Seq<char> {
    joined_lines(share_scan(lines(conf), share_header(name)).1)
}

/// A scan for a header that opens a section keeps no line that is that header.
proof fn lemma_scan_drops_header(ls: Seq<Seq<char>>, header: Seq<char>)
    requires
        starts_with(header, seq!['[']),
    ensures
        forall|i: int|
            0 <= i < share_scan(ls, header).1.len() ==> trim(#[trigger] share_scan(ls, header).1[i]) != header,
    decreases ls.len(),
{
    if ls.len() > 0 {
        lemma_scan_drops_header(ls.drop_last(), header);
        let st = share_scan(ls.drop_last(), header);
        let t = trim(ls.last());
        if t == header {
            assert(starts_with(t, seq!['[']));
        }
    }
}

/// The header of every share starts with `[`.
pub proof fn lemma_share_header_opens(name: Seq<char>)
    ensures
        starts_with(share_header(name), seq!['[']),
{
    assert(share_header(name).take(1) =~= seq!['[']);
}

/// How Samba is told to reload its configuration.
pub enum SambaReload {
    /// Send a hang-up signal: the arguments of `kill`.
    Hangup(Vec<String>),
    /// Ask for a reload: the arguments of `smbcontrol`.
    Control(Vec<String>),
}

/// Manages the ZFS volumes and their Samba shares.
pub struct Volume;

impl Volume {
    /// The volumes that the output of `zfs list` describes, by name.
    pub fn parse_volume_list(output: &str) -> (m: NamedMap<VolumeInfo>)
        ensures
            m.view() == volume_table(lines(output@)),
    {
        let ls = lines_of_str(output);
        let ghost rows = seqs(ls@).map_values(|l: Seq<char>| volume_row(l));
        let mut m = NamedMap::new();
        let mut i: usize = 0;
        while i < ls.len()
            invariant
                i <= ls.len(),
                rows == seqs(ls@).map_values(|l: Seq<char>| volume_row(l)),
                m.view() == table(rows.take(i as int)),
            decreases ls.len() - i,
        {
            proof {
                lemma_table_step(rows, i as int);
            }
            let r = volume_row_of(&ls[i]);
            m.insert_row(r);
            i = i + 1;
        }
        assert(rows.take(ls.len() as int) =~= rows);
        m
    }

    /// The arguments of the `zfs` run that lists the volumes.
    pub fn list_args() -> (a: Vec<String>)
        ensures
            strs(a@) == seq!["list"@, "-H"@, "-t"@, "filesystem"@, "-o"@, "name,used,avail,refer,mountpoint"@],
    {
        let a = vec![
            "list".to_owned(),
            "-H".to_owned(),
            "-t".to_owned(),
            "filesystem".to_owned(),
            "-o".to_owned(),
            "name,used,avail,refer,mountpoint".to_owned(),
        ];
        assert(strs(a@) =~= seq!["list"@, "-H"@, "-t"@, "filesystem"@, "-o"@, "name,used,avail,refer,mountpoint"@]);
        a
    }

    /// The dataset of a new volume.
    pub fn volume_dataset(name: &str, pool: &str) -> (s: String)
        ensures
            s@ == dataset_of(name@, pool@),
    {
        let s = concat3(pool, "/", name);
        proof {
            reveal_strlit("/");
        }
        assert("/"@ =~= seq!['/']);
        s
    }

    /// The mountpoint of a new volume.
    pub fn volume_mountpoint(name: &str, pool: &str) -> (s: String)
        ensures
            s@ == mountpoint_of(name@, pool@),
    {
        let d = concat3(pool, "/", name);
        proof {
            reveal_strlit("/");
        }
        assert("/"@ =~= seq!['/']);
        let s = concat2("/mnt/pools/", d.as_str());
        assert(s@ =~= mountpoint_of(name@, pool@));
        s
    }

    /// The arguments of the `zfs` run that creates a volume's dataset.
    pub fn create_args(name: &str, pool: &str) -> (a: Vec<String>)
        ensures
            strs(a@) == seq!["create"@, "-o"@, "mountpoint="@ + mountpoint_of(name@, pool@), dataset_of(name@, pool@)],
    {
        let mp = Self::volume_mountpoint(name, pool);
        let a = vec![
            "create".to_owned(),
            "-o".to_owned(),
            concat2("mountpoint=", mp.as_str()),
            Self::volume_dataset(name, pool),
        ];
        assert(strs(a@) =~= seq!["create"@, "-o"@, "mountpoint="@ + mountpoint_of(name@, pool@), dataset_of(name@, pool@)]);
        a
    }

    /// The arguments of the `chmod` run that opens a new volume's directory.
    pub fn chmod_args(name: &str, pool: &str) -> (a: Vec<String>)
        ensures
            strs(a@) == seq!["755"@, mountpoint_of(name@, pool@)],
    {
        let a = vec!["755".to_owned(), Self::volume_mountpoint(name, pool)];
        assert(strs(a@) =~= seq!["755"@, mountpoint_of(name@, pool@)]);
        a
    }

    /// The arguments of the `zfs` run that destroys a dataset.
    pub fn destroy_args(dataset: &str) -> (a: Vec<String>)
        ensures
            strs(a@) == seq!["destroy"@, dataset@],
    {
        let a = vec!["destroy".to_owned(), dataset.to_owned()];
        assert(strs(a@) =~= seq!["destroy"@, dataset@]);
        a
    }

    /// The Samba share name of a dataset.
    pub fn share_name_of(dataset: &str) -> (s: String)
        ensures
            s@ == share_name(dataset@),
    {
        let v = chars_of(dataset);
        let parts = split_on(&v, '/');
        proof {
            lemma_split_char_len(v@, '/');
        }
        let last = parts.len() - 1;
        assert(seqs(parts@).last() == parts@[last as int]@);
        string_from(&parts[last])
    }

    /// The section header of a share.
    pub fn share_header_of(name: &str) -> (s: String)
        ensures
            s@ == share_header(name@),
    {
        let s = concat3("[", name, "]");
        proof {
            reveal_strlit("[");
            reveal_strlit("]");
        }
        assert(s@ =~= share_header(name@));
        s
    }

    /// The Samba section of a share.
    pub fn share_section_of(name: &str, path: &str) -> (s: String)
        ensures
            s@ == share_section(name@, path@),
    {
        let h = Self::share_header_of(name);
        let a = concat3("\n", h.as_str(), "\n");
        let b = concat3(a.as_str(), "   path = ", path);
        let mut s = concat2(b.as_str(), "\n");
        proof {
            reveal_strlit("\n");
        }
        let settings: Vec<String> = vec![
            "   browseable = yes".to_owned(),
            "   guest ok = yes".to_owned(),
            "   guest only = no".to_owned(),
            "   read only = no".to_owned(),
            "   writable = yes".to_owned(),
            "   create mask = 0664".to_owned(),
            "   directory mask = 0775".to_owned(),
        ];
        assert(strs(settings@) =~= setting_lines());
        let ghost head = seq!['\n'] + share_header(name@) + seq!['\n'] + path_line(path@) + seq!['\n'];
        assert(s@ =~= head);
        assert(setting_lines().take(0) =~= Seq::<Seq<char>>::empty());
        let mut i: usize = 0;
        while i < settings.len()
            invariant
                i <= settings.len(),
                strs(settings@) == setting_lines(),
                s@ == head + joined_lines(setting_lines().take(i as int)),
                "\n"@ == seq!['\n'],
            decreases settings.len() - i,
        {
            let ghost before = s@;
            let t = concat3(s.as_str(), settings[i].as_str(), "\n");
            s = t;
            let ghost k = setting_lines().take(i + 1);
            assert(k.drop_last() =~= setting_lines().take(i as int));
            assert(k.last() == settings@[i as int]@);
            assert(s@ =~= head + joined_lines(k));
            i = i + 1;
        }
        assert(setting_lines().take(7) =~= setting_lines());
        s
    }

    /// The Samba configuration with a share added: `None` when the configuration already
    /// holds the share's header anywhere, and otherwise the configuration followed by the
    /// share's section.
    pub fn add_share(conf: &str, name: &str, path: &str) -> (r: Option<String>)
        ensures
            r is None <==> contains(conf@, share_header(name@)),
            r matches Some(s) ==> s@ == conf@ + share_section(name@, path@),
            r matches Some(s) ==> s@ == conf@ + "\n["@ + name@ + "]\n   path = "@ + path@
                + "\n   browseable = yes\n   guest ok = yes\n   guest only = no\n   read only = no\n   writable = yes\n   create mask = 0664\n   directory mask = 0775\n"@,
    {
        proof {
            law_share_section_text(name@, path@);
        }
        let c = chars_of(conf);
        let h = Self::share_header_of(name);
        let hv = chars_of(h.as_str());
        if has_infix(&c, &hv) {
            return None;
        }
        let sec = Self::share_section_of(name, path);
        Some(concat2(conf, sec.as_str()))
    }

    /// Removes the section of a share from a Samba configuration: every line from the
    /// share's header line up to the next section header goes, and every other line is
    /// kept with a newline after it.
    pub fn remove_share(conf: &str, name: &str) -> (s: String)
        ensures
            s@ == without_share(conf@, name@),
    {
        let ls = lines_of_str(conf);
        let h = Self::share_header_of(name);
        let hv = chars_of(h.as_str());
        let open = vec!['['];
        assert(open@ =~= seq!['[']);
        let ghost header = share_header(name@);
        let ghost all = seqs(ls@);
        let mut skip = false;
        let mut out: Vec<char> = Vec::new();
        let ghost kept: Seq<Seq<char>> = Seq::empty();
        let mut i: usize = 0;
        while i < ls.len()
            invariant
                i <= ls.len(),
                all == seqs(ls@),
                hv@ == header,
                open@ == seq!['['],
                share_scan(all.take(i as int), header) == (skip, kept),
                out@ == joined_lines(kept),
            decreases ls.len() - i,
        {
            let line = &ls[i];
            let t = trimmed(line);
            if has_prefix(&t, &open) {
                skip = same_chars(&t, &hv);
            }
            assert(all.take(i + 1).drop_last() =~= all.take(i as int));
            assert(all.take(i + 1).last() == line@);
            if !skip {
                extend_chars(&mut out, line);
                out.push('\n');
                proof {
                    let k2 = kept.push(line@);
                    assert(k2.drop_last() =~= kept);
                    kept = k2;
                }
            }
            i = i + 1;
        }
        assert(all.take(ls.len() as int) =~= all);
        string_from(&out)
    }

    /// The process id that a Samba pid file holds: its trimmed text read as an `i32`.
    pub fn parse_pid(text: &str) -> (r: Option<i32>)
        ensures
            r == parse_i32(trim(text@)),
    {
        let v = chars_of(text);
        let t = trimmed(&v);
        parse_i32_chars(&t)
    }

    /// How Samba is told to reload its configuration, given the text of its pid file
    /// (none when it could not be read): a hang-up signal to the process it names when
    /// that text is a process id, else a reload request through `smbcontrol`.
    pub fn reload_command(pid_file: Option<&str>) -> (r: SambaReload)
        ensures
            match r {
                SambaReload::Hangup(a) => pid_file matches Some(t) && parse_i32(trim(t@)) matches Some(
                    pid,
                ) && strs(a@) == seq!["-HUP"@, signed_decimal(pid as int)],
                SambaReload::Control(a) => !(pid_file matches Some(t) && parse_i32(trim(t@)) is Some)
                    && strs(a@) == seq!["all"@, "reload-config"@],
            },
    {
        let pid = match pid_file {
            Some(t) => Self::parse_pid(t),
            None => None,
        };
        match pid {
            Some(p) => {
                let a = vec!["-HUP".to_owned(), signed_decimal_string(p)];
                assert(strs(a@) =~= seq!["-HUP"@, signed_decimal(p as int)]);
                SambaReload::Hangup(a)
            },
            None => {
                let a = vec!["all".to_owned(), "reload-config".to_owned()];
                assert(strs(a@) =~= seq!["all"@, "reload-config"@]);
                SambaReload::Control(a)
            },
        }
    }

    /// The answer to a volume that was created.
    pub fn created_message(name: &str, pool: &str) -> (s: String)
        ensures
            s@ == "Volume '"@ + name@ + "' created on pool '"@ + pool@ + "' and shared via Samba"@,
    {
        let a = concat3("Volume '", name, "' created on pool '");
        concat3(a.as_str(), pool, "' and shared via Samba")
    }

    /// The answer to a volume that was deleted.
    pub fn deleted_message(dataset: &str) -> (s: String)
        ensures
            s@ == "Volume '"@ + dataset@ + "' deleted"@,
    {
        concat3("Volume '", dataset, "' deleted")
    }
}

/// After a share is removed from a configuration, none of the lines that remain is
/// the share's header line.
pub proof fn law_removed_share_has_no_header(conf: Seq<char>, name: Seq<char>)
    ensures
        forall|i: int|
            0 <= i < share_scan(lines(conf), share_header(name)).1.len() ==> trim(
                #[trigger] share_scan(lines(conf), share_header(name)).1[i],
            ) != share_header(name),
{
    lemma_share_header_opens(name);
    lemma_scan_drops_header(lines(conf), share_header(name));
}

/// A scan keeps only lines of the text it scans.
proof fn lemma_scan_keeps_lines(ls: Seq<Seq<char>>, header: Seq<char>)
    ensures
        forall|i: int|
            0 <= i < share_scan(ls, header).1.len() ==> exists|j: int|
                0 <= j < ls.len() && ls[j] == #[trigger] share_scan(ls, header).1[i],
    decreases ls.len(),
{
    if ls.len() > 0 {
        let prev = ls.drop_last();
        lemma_scan_keeps_lines(prev, header);
        let k0 = share_scan(prev, header).1;
        let k = share_scan(ls, header).1;
        assert forall|i: int| 0 <= i < k.len() implies exists|j: int|
            0 <= j < ls.len() && ls[j] == #[trigger] k[i] by {
            if i < k0.len() {
                assert(k[i] == k0[i]);
                let j = choose|j: int| 0 <= j < prev.len() && prev[j] == k0[i];
                assert(ls[j] == prev[j]);
            } else {
                assert(ls[ls.len() - 1] == k[i]);
            }
        }
    }
}

/// Scanning lines none of which is the header keeps them all.
proof fn lemma_rescan_keeps_all(k: Seq<Seq<char>>, header: Seq<char>)
    requires
        forall|i: int| 0 <= i < k.len() ==> trim(#[trigger] k[i]) != header,
    ensures
        share_scan(k, header) == (false, k),
    decreases k.len(),
{
    if k.len() > 0 {
        let prev = k.drop_last();
        assert forall|i: int| 0 <= i < prev.len() implies trim(#[trigger] prev[i]) != header by {
            assert(prev[i] == k[i]);
        }
        lemma_rescan_keeps_all(prev, header);
        assert(trim(k[k.len() - 1]) != header);
        assert(prev.push(k.last()) =~= k);
    }
}

/// A scan over lines none of which is the header, then the header's section to the
/// end, keeps the first lines and drops the section.
proof fn lemma_scan_drops_section(a: Seq<Seq<char>>, b: Seq<Seq<char>>, h: Seq<char>)
    requires
        forall|i: int| 0 <= i < a.len() ==> trim(#[trigger] a[i]) != h,
        b.len() >= 1,
        trim(b[0]) == h,
        starts_with(h, seq!['[']),
        forall|i: int| 1 <= i < b.len() ==> !starts_with(trim(#[trigger] b[i]), seq!['[']),
    ensures
        share_scan(a + b, h) == (true, a),
    decreases b.len(),
{
    if b.len() == 1 {
        lemma_rescan_keeps_all(a, h);
        assert((a + b).drop_last() =~= a);
        assert((a + b).last() == b[0]);
    } else {
        let b0 = b.drop_last();
        assert forall|i: int| 1 <= i < b0.len() implies !starts_with(trim(#[trigger] b0[i]), seq!['[']) by {
            assert(b0[i] == b[i]);
        }
        lemma_scan_drops_section(a, b0, h);
        assert((a + b).drop_last() =~= a + b0);
        assert((a + b).last() == b[b.len() - 1]);
        assert(!starts_with(trim(b[b.len() - 1]), seq!['[']));
    }
}

/// A configuration that holds a share's header nowhere has no line that, trimmed, is
/// that header: every configuration to which `add_share` adds the share's section meets
/// the first condition of `law_remove_undoes_add`.
pub proof fn lemma_absent_header_has_no_line(conf: Seq<char>, name: Seq<char>)
    requires
        !contains(conf, share_header(name)),
    ensures
        forall|i: int| 0 <= i < lines(conf).len() ==> trim(#[trigger] lines(conf)[i]) != share_header(name),
{
    let h = share_header(name);
    let rc = split_char(conf, '\n');
    lemma_split_char_len(conf, '\n');
    assert forall|i: int| 0 <= i < lines(conf).len() implies trim(#[trigger] lines(conf)[i]) != h by {
        let l = lines(conf)[i];
        let q = lemma_piece_range(conf, '\n', i);
        let m: int = if i < rc.len() - 1 && ends_with_cr(rc[i]) {
            rc[i].len() - 1
        } else {
            rc[i].len() as int
        };
        assert(l =~= rc[i].take(m));
        let k = lemma_trim_start_offset(l);
        let m2 = lemma_trim_end_length(l.skip(k));
        assert(trim(l) =~= conf.subrange(q.0 + k, q.0 + k + m2));
        if trim(l) == h {
            assert(conf.subrange(q.0 + k, q.0 + k + h.len()) == h);
        }
    }
}

/// Removing a share just added gives back the non-empty lines of the configuration,
/// when the configuration had no section of that share, none of its lines ends with a
/// carriage return (such a line loses it when read back), the share's name holds no
/// newline, and no line of the path after its first opens a section.
pub proof fn law_remove_undoes_add(conf: Seq<char>, name: Seq<char>, path: Seq<char>)
    requires
        forall|i: int| 0 <= i < lines(conf).len() ==> trim(#[trigger] lines(conf)[i]) != share_header(name),
        forall|i: int| 0 <= i < lines(conf).len() ==> !ends_with_cr(#[trigger] lines(conf)[i]),
        forall|i: int| 0 <= i < name.len() ==> name[i] != '\n',
        forall|i: int|
            1 <= i < split_char(path, '\n').len() ==> !starts_with(
                trim(strip_cr(#[trigger] split_char(path, '\n')[i])),
                seq!['['],
            ),
    ensures
        non_empty(lines(without_share(conf + share_section(name, path), name))) == non_empty(lines(conf)),
{
    let h = share_header(name);
    let p = path_line(path);
    let sl = setting_lines();
    let jl = joined_lines(sl);
    let nl = seq!['\n'];
    let x1 = conf + nl + h;
    let x2 = x1 + nl + p;
    let s = conf + share_section(name, path);
    assert(s =~= x2 + nl + jl);
    lemma_split_newline_join(x2, jl);
    lemma_split_newline_join(x1, p);
    lemma_split_newline_join(conf, h);
    assert forall|i: int| 0 <= i < h.len() implies h[i] != '\n' by {
        if 0 < i < h.len() - 1 {
            assert(h[i] == name[i - 1]);
        }
    }
    lemma_split_prepend(h, Seq::empty(), '\n');
    assert(h + Seq::<char>::empty() =~= h);
    assert(split_char(Seq::<char>::empty(), '\n') =~= seq![Seq::<char>::empty()]);
    assert(split_char(h, '\n') =~= seq![h]);
    reveal_strlit("   path = ");
    let lit = "   path = "@;
    assert forall|i: int| 0 <= i < lit.len() implies lit[i] != '\n' by {}
    lemma_split_prepend(lit, path, '\n');
    lemma_setting_lines_inner();
    assert(plain_lines(sl)) by {
        assert forall|i: int| 0 <= i < sl.len() implies !(#[trigger] sl[i]).contains('\n') && !ends_with_cr(sl[i]) by {
            assert(inner_line(sl[i]));
        }
    }
    lemma_split_joined(sl);
    let rc = split_char(conf, '\n');
    let sp = split_char(p, '\n');
    let raw = rc + seq![h] + sp + sl.push(Seq::empty());
    assert(split_char(s, '\n') =~= raw);
    lemma_split_char_len(conf, '\n');
    lemma_split_char_len(path, '\n');
    let a = stripped(rc);
    let b = seq![h] + stripped(sp) + sl;
    assert(strip_cr(h) == h);
    assert forall|i: int| 0 <= i < sl.len() implies strip_cr(#[trigger] sl[i]) == sl[i] by {
        assert(inner_line(sl[i]));
    }
    assert(raw.take(raw.len() - 1) =~= rc + seq![h] + sp + sl);
    assert(stripped(rc + seq![h] + sp + sl) =~= a + b);
    assert(lines(s) =~= a + b);
    // The first lines are those of the configuration, perhaps with an empty one after.
    let lc = lines(conf);
    let ended = stripped(rc.take(rc.len() - 1));
    assert(a =~= ended.push(strip_cr(rc.last())));
    if rc.last().len() == 0 {
        assert(lc == ended);
        assert(strip_cr(rc.last()) =~= Seq::<char>::empty());
    } else {
        assert(lc == ended.push(rc.last()));
        assert(!ends_with_cr(lc[lc.len() - 1]));
        assert(strip_cr(rc.last()) == rc.last());
        assert(a =~= lc);
    }
    assert forall|i: int| 0 <= i < a.len() implies trim(#[trigger] a[i]) != h by {
        if i < lc.len() {
            assert(a[i] == lc[i]);
        } else {
            assert(a[i] =~= Seq::<char>::empty());
            assert(trim_start(a[i]) =~= Seq::<char>::empty());
        }
    }
    // The section's lines after its header open no section.
    lemma_share_header_opens(name);
    lemma_trim_keeps(h);
    let sq = split_char(path, '\n');
    assert(sp == sq.update(0, lit + sq[0]));
    assert forall|i: int| 1 <= i < b.len() implies !starts_with(trim(#[trigger] b[i]), seq!['[']) by {
        if i == 1 {
            let x = strip_cr(lit + sq[0]);
            assert(b[i] == x);
            assert(x.len() > 3);
            assert(x[0] == lit[0] && x[1] == lit[1] && x[2] == lit[2] && x[3] == lit[3]);
            lemma_not_opening(x);
        } else if i < 1 + sp.len() {
            assert(b[i] == strip_cr(sq[i - 1]));
        } else {
            assert(b[i] == sl[i - 1 - sp.len()]);
            assert(inner_line(sl[i - 1 - sp.len()]));
        }
    }
    lemma_scan_drops_section(a, b, h);
    // Reading the kept lines back gives them.
    lemma_lines_have_no_newline(conf);
    lemma_split_char_pieces(conf, '\n');
    assert(plain_lines(a)) by {
        assert forall|i: int| 0 <= i < a.len() implies !(#[trigger] a[i]).contains('\n') && !ends_with_cr(a[i]) by {
            if i < lc.len() {
                assert(a[i] == lc[i]);
            } else {
                assert(a[i] =~= Seq::<char>::empty());
            }
        }
    }
    lemma_lines_of_joined(a);
    if a != lc {
        assert(a =~= lc.push(Seq::empty()));
        assert(a.drop_last() =~= lc);
    }
}

/// Removing a share a second time changes nothing, when none of the lines that the
/// first removal keeps ends with a carriage return (such a line loses it when read
/// back).
pub proof fn law_remove_share_idempotent(conf: Seq<char>, name: Seq<char>)
    requires
        forall|i: int|
            0 <= i < share_scan(lines(conf), share_header(name)).1.len() ==> !ends_with_cr(
                #[trigger] share_scan(lines(conf), share_header(name)).1[i],
            ),
    ensures
        without_share(without_share(conf, name), name) == without_share(conf, name),
{
    let h = share_header(name);
    let ls = lines(conf);
    let k = share_scan(ls, h).1;
    law_removed_share_has_no_header(conf, name);
    lemma_scan_keeps_lines(ls, h);
    lemma_lines_have_no_newline(conf);
    assert(plain_lines(k)) by {
        assert forall|i: int| 0 <= i < k.len() implies !(#[trigger] k[i]).contains('\n')
            && !ends_with_cr(k[i]) by {
            let j = choose|j: int| 0 <= j < ls.len() && ls[j] == k[i];
            assert(!ls[j].contains('\n'));
        }
    }
    lemma_lines_of_joined(k);
    lemma_rescan_keeps_all(k, h);
}



/// One more line of `zfs list -H -o name,used,avail,refer,mountpoint` output with at
/// least five tab-separated columns whose first column holds a `/` lists the volume
/// named there, with used, available and referenced space and mountpoint from the next
/// four columns in that order, replacing an earlier volume of that name; a shorter line,
/// or one naming a pool's top-level dataset, changes nothing.
pub proof fn law_volume_line(ls: Seq<Seq<char>>, l: Seq<char>)
    ensures
        ({
            let c = split_char(l, '\t');
            c.len() >= 5 && contains(c[0], seq!['/']) ==> volume_table(ls.push(l)) == volume_table(
                ls,
            ).insert(c[0], VolumeInfoView { used: c[1], avail: c[2], refer: c[3], mountpoint: c[4] })
        }),
        ({
            let c = split_char(l, '\t');
            c.len() < 5 || !contains(c[0], seq!['/']) ==> volume_table(ls.push(l)) == volume_table(ls)
        }),
{
    let f = |x: Seq<char>| volume_row(x);
    assert(ls.push(l).map_values(f) =~= ls.map_values(f).push(volume_row(l)));
    lemma_table_push(ls.map_values(f), volume_row(l));
}


/// The settings that follow a share's path line are the writable, browsable guest
/// share of the daemon's format, line for line.
proof fn lemma_settings_text()
    ensures
        seq!['\n'] + joined_lines(setting_lines()) == "\n   browseable = yes\n   guest ok = yes\n   guest only = no\n   read only = no\n   writable = yes\n   create mask = 0664\n   directory mask = 0775\n"@,
{
    reveal_strlit("\n   browseable = yes\n   guest ok = yes\n   guest only = no\n   read only = no\n   writable = yes\n   create mask = 0664\n   directory mask = 0775\n");
    reveal_strlit("   browseable = yes");
    reveal_strlit("   guest ok = yes");
    reveal_strlit("   guest only = no");
    reveal_strlit("   read only = no");
    reveal_strlit("   writable = yes");
    reveal_strlit("   create mask = 0664");
    reveal_strlit("   directory mask = 0775");
    reveal_with_fuel(joined_lines, 8);
    assert(seq!['\n'] + joined_lines(setting_lines()) =~= "\n   browseable = yes\n   guest ok = yes\n   guest only = no\n   read only = no\n   writable = yes\n   create mask = 0664\n   directory mask = 0775\n"@);
}

/// The section added for a share is the daemon's format filled in with the share's name
/// and path: a blank line, the header `[name]`, the path line, and the settings that
/// make it a browsable share that guests may use and that is writable (`read only =
/// no`, `writable = yes`), with files created `0664` and directories `0775`.
pub proof fn law_share_section_text(name: Seq<char>, path: Seq<char>)
    ensures
        share_section(name, path) == "\n["@ + name + "]\n   path = "@ + path + "\n   browseable = yes\n   guest ok = yes\n   guest only = no\n   read only = no\n   writable = yes\n   create mask = 0664\n   directory mask = 0775\n"@,
{
    lemma_settings_text();
    reveal_strlit("\n[");
    reveal_strlit("]\n   path = ");
    reveal_strlit("   path = ");
    assert(share_section(name, path) =~= "\n["@ + name + "]\n   path = "@ + path + "\n   browseable = yes\n   guest ok = yes\n   guest only = no\n   read only = no\n   writable = yes\n   create mask = 0664\n   directory mask = 0775\n"@);
}


/// A volume's dataset is its pool and its name joined by `/`, and it is mounted at
/// that dataset under `/mnt/pools/`.
pub proof fn law_volume_paths(name: Seq<char>, pool: Seq<char>)
    ensures
        dataset_of(name, pool) == pool + "/"@ + name,
        mountpoint_of(name, pool) == "/mnt/pools/"@ + dataset_of(name, pool),
{
    reveal_strlit("/");
    assert(dataset_of(name, pool) =~= pool + "/"@ + name);
    assert(mountpoint_of(name, pool) =~= "/mnt/pools/"@ + dataset_of(name, pool));
}

/// Lines that open another section, and whatever follows up to the share's own header,
/// are kept.
proof fn lemma_scan_keeps_other(x: Seq<Seq<char>>, b: Seq<Seq<char>>, h: Seq<char>)
    requires
        b.len() >= 1,
        starts_with(trim(b[0]), seq!['[']),
        forall|i: int| 0 <= i < b.len() ==> trim(#[trigger] b[i]) != h,
    ensures
        share_scan(x + b, h) == (false, share_scan(x, h).1 + b),
    decreases b.len(),
{
    if b.len() == 1 {
        assert((x + b).drop_last() =~= x);
        assert((x + b).last() == b[0]);
        assert(share_scan(x, h).1.push(b[0]) =~= share_scan(x, h).1 + b);
    } else {
        let b0 = b.drop_last();
        assert forall|i: int| 0 <= i < b0.len() implies trim(#[trigger] b0[i]) != h by {
            assert(b0[i] == b[i]);
        }
        lemma_scan_keeps_other(x, b0, h);
        assert((x + b).drop_last() =~= x + b0);
        assert((x + b).last() == b[b.len() - 1]);
        assert(trim(b[b.len() - 1]) != h);
        assert((share_scan(x, h).1 + b0).push(b[b.len() - 1]) =~= share_scan(x, h).1 + b);
    }
}

/// Removing a share drops exactly the lines of its section: lines before its header
/// and the lines from the next section's header on are kept, in order, when none of
/// them is the share's header and its section's lines open no section.
pub proof fn law_remove_keeps_other_sections(
    a: Seq<Seq<char>>,
    sec: Seq<Seq<char>>,
    b: Seq<Seq<char>>,
    name: Seq<char>,
)
    requires
        forall|i: int| 0 <= i < a.len() ==> trim(#[trigger] a[i]) != share_header(name),
        forall|i: int| 0 <= i < sec.len() ==> !starts_with(trim(#[trigger] sec[i]), seq!['[']),
        b.len() >= 1,
        starts_with(trim(b[0]), seq!['[']),
        forall|i: int| 0 <= i < b.len() ==> trim(#[trigger] b[i]) != share_header(name),
    ensures
        share_scan(a + seq![share_header(name)] + sec + b, share_header(name)).1 == a + b,
{
    let h = share_header(name);
    let hs = seq![h] + sec;
    lemma_share_header_opens(name);
    assert(h[0] == '[' && h[h.len() - 1] == ']');
    lemma_trim_keeps(h);
    assert forall|i: int| 1 <= i < hs.len() implies !starts_with(trim(#[trigger] hs[i]), seq!['[']) by {
        assert(hs[i] == sec[i - 1]);
    }
    lemma_scan_drops_section(a, hs, h);
    assert(a + seq![h] + sec + b =~= (a + hs) + b);
    lemma_scan_keeps_other(a + hs, b, h);
}

} // verus!
