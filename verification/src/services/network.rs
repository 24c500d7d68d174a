use vstd::prelude::*;
use crate::named_map::{NamedMap, lemma_table_has_row, lemma_table_push, lemma_table_names, lemma_table_step, table};
use crate::services::system::{net_dev_row, net_dev_table};
use crate::num::{parse_or_zero, u64_or_zero};
use crate::text::{
    after, chars_of, concat3, has_prefix, lines, lines_of_str, opt_chars, same_chars, seqs,
    starts_with, string_from, strs, trim, trim_end_char, trim_str, trimmed, trimmed_end_char,
    words, words_of,
};

verus! {

/// What `str::to_uppercase` makes of `s`: each character mapped to its Unicode
/// uppercase form.
pub uninterp spec fn uppercase(s: Seq<char>) -> Seq<char>;

/// Trusted: `str::to_uppercase` (std), whose result depends on its argument alone;
/// the Unicode case mapping it applies is not restated.
#[verifier::external_body]
fn to_upper(s: &str) -> (r: String)
    ensures
        r@ == uppercase(s@),
{
    s.to_uppercase()
}

/// A network interface as the daemon reports it.
pub struct InterfaceInfo {
    pub state: String,
    pub mac: String,
    pub ipv4: String,
    pub ipv6: String,
    pub rx_bytes: u64,
    pub tx_bytes: u64,
}

/// What an `InterfaceInfo` holds.
pub struct InterfaceInfoView {
    pub state: Seq<char>,
    pub mac: Seq<char>,
    pub ipv4: Seq<char>,
    pub ipv6: Seq<char>,
    pub rx_bytes: u64,
    pub tx_bytes: u64,
}

impl View for InterfaceInfo {
    type V = InterfaceInfoView;

    open spec fn view(&self) -> InterfaceInfoView {
        InterfaceInfoView {
            state: self.state@,
            mac: self.mac@,
            ipv4: self.ipv4@,
            ipv6: self.ipv6@,
            rx_bytes: self.rx_bytes,
            tx_bytes: self.tx_bytes,
        }
    }
}

/// Why a network query failed.
#[derive(PartialEq, Eq, Structural, Debug)]
pub enum NetworkError {
    /// No interface has the name asked for.
    NotFound,
}

impl NetworkError {
    /// The text of the error for the interface `iface`.
    pub fn message(&self, iface: &str) -> (s: String)
        ensures
            s@ == "interface '"@ + iface@ + "' not found"@,
    {
        concat3("interface '", iface, "' not found")
    }
}

/// Whether an interface is the loopback interface, which is not listed.
pub open spec fn is_loopback(name: Seq<char>) -> bool {
    name == "lo"@
}

/// The second word of a line, or nothing.
pub open spec fn second_word(t: Seq<char>) -> Seq<char> {
    let w = words(t);
    if w.len() > 1 {
        w[1]
    } else {
        Seq::empty()
    }
}

/// The addresses found so far after one more line of `ip addr show` output: the
/// first `inet` line gives the IPv4 address (with its prefix length) and the first
/// `inet6` line whose address does not begin with `fe80` gives the IPv6 address; a
/// line only counts while its address is still empty.
pub open spec fn ip_step(st: (Seq<char>, Seq<char>), line: Seq<char>) -> (Seq<char>, Seq<char>) {
    let t = trim(line);
    if starts_with(t, "inet "@) && st.0.len() == 0 {
        (second_word(t), st.1)
    } else if starts_with(t, "inet6 "@) && st.1.len() == 0 {
        let a = second_word(t);
        if starts_with(a, "fe80"@) {
            st
        } else {
            (st.0, a)
        }
    } else {
        st
    }
}

/// The addresses that the lines give.
pub open spec fn ip_scan(ls: Seq<Seq<char>>) -> (Seq<char>, Seq<char>)
    decreases ls.len(),
{
    if ls.len() == 0 {
        (Seq::empty(), Seq::empty())
    } else {
        ip_step(ip_scan(ls.drop_last()), ls.last())
    }
}

/// The IPv4 and IPv6 addresses of an `ip addr show` output.
pub open spec fn addresses(output: Seq<char>) -> (Seq<char>, Seq<char>) {
    ip_scan(lines(output))
}

/// The second word of `v`, or nothing.
fn second_word_of(v: &Vec<char>) -> (r: Vec<char>)
    ensures
        r@ == second_word(v@),
{
    let w = words_of(v);
    if w.len() > 1 {
        assert(seqs(w@)[1] == w@[1]@);
        w[1].clone()
    } else {
        Vec::new()
    }
}

/// The counters that one line of `/proc/net/dev` gives for the interface `name`:
/// received and sent bytes, when the line has at least eleven words and its first
/// word, less any trailing `:`, is `name`.
pub open spec fn stats_row(line: Seq<char>, name: Seq<char>) -> Option<(u64, u64)> {
    let p = words(line);
    if p.len() == 0 {
        None
    } else if trim_end_char(p[0], ':') == name && p.len() >= 11 {
        Some((u64_or_zero(p[1]), u64_or_zero(p[9])))
    } else {
        None
    }
}

/// The counters of the first line that gives them, or zeros.
pub open spec fn first_stats(ls: Seq<Seq<char>>, name: Seq<char>) -> (u64, u64)
    decreases ls.len(),
{
    if ls.len() == 0 {
        (0, 0)
    } else {
        match stats_row(ls[0], name) {
            Some(r) => r,
            None => first_stats(ls.drop_first(), name),
        }
    }
}

/// The received and sent bytes of the interface `name` in a `/proc/net/dev` text,
/// whose first two lines are headers.
pub open spec fn interface_stats(net_dev: Seq<char>, name: Seq<char>) -> (u64, u64) {
    first_stats(after(lines(net_dev), 2), name)
}

/// Whether a line of `/proc/net/dev` gives the counters of `name`: it has at least
/// eleven words, and its first word, less any trailing `:`, is `name`.
pub open spec fn names_interface(line: Seq<char>, name: Seq<char>) -> bool {
    words(line).len() >= 11 && trim_end_char(words(line)[0], ':') == name
}

/// With no line naming the interface, its counters are zero.
proof fn lemma_first_stats_none(ls: Seq<Seq<char>>, name: Seq<char>)
    requires
        forall|i: int| 0 <= i < ls.len() ==> !names_interface(#[trigger] ls[i], name),
    ensures
        first_stats(ls, name) == (0u64, 0u64),
    decreases ls.len(),
{
    if ls.len() > 0 {
        assert(!names_interface(ls[0], name));
        let rest = ls.drop_first();
        assert forall|i: int| 0 <= i < rest.len() implies !names_interface(#[trigger] rest[i], name) by {
            assert(rest[i] == ls[i + 1]);
        }
        lemma_first_stats_none(rest, name);
    }
}

/// The counters come from the first line that names the interface.
proof fn lemma_first_stats_at(ls: Seq<Seq<char>>, name: Seq<char>, k: int)
    requires
        0 <= k < ls.len(),
        names_interface(ls[k], name),
        forall|i: int| 0 <= i < k ==> !names_interface(#[trigger] ls[i], name),
    ensures
        first_stats(ls, name) == (u64_or_zero(words(ls[k])[1]), u64_or_zero(words(ls[k])[9])),
    decreases k,
{
    if k > 0 {
        assert(!names_interface(ls[0], name));
        let rest = ls.drop_first();
        assert forall|i: int| 0 <= i < k - 1 implies !names_interface(#[trigger] rest[i], name) by {
            assert(rest[i] == ls[i + 1]);
        }
        assert(rest[k - 1] == ls[k]);
        lemma_first_stats_at(rest, name, k - 1);
    }
}

/// The counters that the interface report reads for an interface are those that the
/// traffic table of the same `/proc/net/dev` text holds for it, and zero when the
/// table lacks it, for any interface but the loopback that at most one line names.
pub proof fn law_interface_stats_match_table(net_dev: Seq<char>, name: Seq<char>)
    requires
        name != "lo"@,
        forall|i: int, j: int|
            0 <= i < j < after(lines(net_dev), 2).len() && #[trigger] names_interface(
                after(lines(net_dev), 2)[i],
                name,
            ) ==> !#[trigger] names_interface(after(lines(net_dev), 2)[j], name),
    ensures
        net_dev_table(net_dev).contains_key(name) ==> interface_stats(net_dev, name) == (
            net_dev_table(net_dev)[name].rx_bytes,
            net_dev_table(net_dev)[name].tx_bytes,
        ),
        !net_dev_table(net_dev).contains_key(name) ==> interface_stats(net_dev, name) == (0u64, 0u64),
{
    let body = after(lines(net_dev), 2);
    let rows = body.map_values(|l: Seq<char>| net_dev_row(l));
    assert forall|i: int| 0 <= i < body.len() implies (#[trigger] names_interface(body[i], name) <==> (
        rows[i] is Some && rows[i].unwrap().0 == name)) by {
        assert(rows[i] == net_dev_row(body[i]));
    }
    if table(rows).contains_key(name) {
        lemma_table_names(rows, name);
        let j = choose|j: int| 0 <= j < rows.len() && #[trigger] rows[j] == Some((name, table(rows)[name]));
        assert(names_interface(body[j], name));
        assert forall|i: int| 0 <= i < j implies !names_interface(#[trigger] body[i], name) by {
            if names_interface(body[i], name) {
                assert(!names_interface(body[j], name));
            }
        }
        lemma_first_stats_at(body, name, j);
        assert(rows[j] == net_dev_row(body[j]));
    } else {
        assert forall|i: int| 0 <= i < body.len() implies !names_interface(#[trigger] body[i], name) by {
            if names_interface(body[i], name) {
                lemma_table_has_row(rows, i);
            }
        }
        lemma_first_stats_none(body, name);
    }
}

/// The counters that one line gives for `name`.
fn stats_row_of(line: &Vec<char>, name: &Vec<char>) -> (r: Option<(u64, u64)>)
    ensures
        r == stats_row(line@, name@),
{
    let p = words_of(line);
    if p.len() == 0 {
        return None;
    }
    assert(seqs(p@)[0] == p@[0]@);
    let iface = trimmed_end_char(&p[0], ':');
    if same_chars(&iface, name) && p.len() >= 11 {
        assert(seqs(p@)[1] == p@[1]@);
        assert(seqs(p@)[9] == p@[9]@);
        Some((parse_or_zero(&p[1]), parse_or_zero(&p[9])))
    } else {
        None
    }
}

/// The report of one interface from what the system shows of it: its `operstate`
/// and `address` files (empty when unreadable), the output of `ip addr show` (none
/// when it could not be run) and the `/proc/net/dev` text.
pub open spec fn interface_view(
    name: Seq<char>,
    operstate: Seq<char>,
    address: Seq<char>,
    ip_output: Option<Seq<char>>,
    net_dev: Seq<char>,
) -> InterfaceInfoView {
    let ips = match ip_output {
        Some(o) => addresses(o),
        None => (Seq::empty(), Seq::empty()),
    };
    let stats = interface_stats(net_dev, name);
    InterfaceInfoView {
        state: uppercase(trim(operstate)),
        mac: trim(address),
        ipv4: ips.0,
        ipv6: ips.1,
        rx_bytes: stats.0,
        tx_bytes: stats.1,
    }
}

/// What the system shows of one interface: its name, the text of its `operstate`
/// and `address` files (empty when unreadable), the output of `ip addr show` for it
/// (none when that could not be run) and the `/proc/net/dev` text.
pub struct InterfaceReading {
    pub name: String,
    pub operstate: String,
    pub address: String,
    pub ip_output: Option<String>,
    pub net_dev: String,
}

/// The listed interface that a reading gives: none for the loopback interface.
pub open spec fn reading_row(r: InterfaceReading) -> Option<(Seq<char>, InterfaceInfoView)> {
    if is_loopback(r.name@) {
        None
    } else {
        Some((r.name@, interface_view(r.name@, r.operstate@, r.address@, opt_chars(r.ip_output), r.net_dev@)))
    }
}

/// The interfaces that a listing shows, by name.
pub open spec fn interface_table(rs: Seq<InterfaceReading>) -> Map<Seq<char>, InterfaceInfoView> {
    table(rs.map_values(|r: InterfaceReading| reading_row(r)))
}

/// The loopback interface is never listed.
pub proof fn law_interface_list_skips_loopback(rs: Seq<InterfaceReading>)
    ensures
        !interface_table(rs).contains_key("lo"@),
{
    let rows = rs.map_values(|r: InterfaceReading| reading_row(r));
    if table(rows).contains_key("lo"@) {
        lemma_table_names(rows, "lo"@);
        let i = choose|i: int| 0 <= i < rows.len() && #[trigger] rows[i] == Some(("lo"@, table(rows)["lo"@]));
        assert(rows[i] == reading_row(rs[i]));
    }
}

/// Manages the network interfaces and their addresses.
pub struct Network;

impl Network {
    /// Tells whether an interface is the loopback interface.
    pub fn is_loopback_name(name: &str) -> (b: bool)
        ensures
            b == is_loopback(name@),
    {
        let v = chars_of(name);
        let l = chars_of("lo");
        same_chars(&v, &l)
    }

    /// Reads the IPv4 and IPv6 addresses of an `ip addr show` output.
    pub fn parse_addresses(output: &str) -> (r: (String, String))
        ensures
            (r.0@, r.1@) == addresses(output@),
    {
        let ls = lines_of_str(output);
        let inet = chars_of("inet ");
        let inet6 = chars_of("inet6 ");
        let fe80 = chars_of("fe80");
        let mut v4: Vec<char> = Vec::new();
        let mut v6: Vec<char> = Vec::new();
        let mut i: usize = 0;
        while i < ls.len()
            invariant
                i <= ls.len(),
                inet@ == "inet "@,
                inet6@ == "inet6 "@,
                fe80@ == "fe80"@,
                (v4@, v6@) == ip_scan(seqs(ls@).take(i as int)),
            decreases ls.len() - i,
        {
            assert(seqs(ls@).take(i + 1).drop_last() =~= seqs(ls@).take(i as int));
            assert(seqs(ls@).take(i + 1).last() == ls@[i as int]@);
            let t = trimmed(&ls[i]);
            if has_prefix(&t, &inet) && v4.len() == 0 {
                v4 = second_word_of(&t);
            } else if has_prefix(&t, &inet6) && v6.len() == 0 {
                let a = second_word_of(&t);
                if !has_prefix(&a, &fe80) {
                    v6 = a;
                }
            }
            i = i + 1;
        }
        assert(seqs(ls@).take(ls.len() as int) =~= seqs(ls@));
        (string_from(&v4), string_from(&v6))
    }

    /// Reads the received and sent bytes of an interface from a `/proc/net/dev` text.
    pub fn read_interface_stats(net_dev: &str, name: &str) -> (r: (u64, u64))
        ensures
            r == interface_stats(net_dev@, name@),
    {
        let ls = lines_of_str(net_dev);
        let n = chars_of(name);
        if ls.len() <= 2 {
            return (0, 0);
        }
        let ghost body = seqs(ls@).skip(2);
        let mut i: usize = 2;
        assert(body.skip(0) =~= body);
        while i < ls.len()
            invariant
                2 <= i <= ls.len(),
                n@ == name@,
                seqs(ls@) == lines(net_dev@),
                body == seqs(ls@).skip(2),
                first_stats(body, n@) == first_stats(body.skip(i - 2), n@),
            decreases ls.len() - i,
        {
            assert(body.skip(i - 2)[0] == ls@[i as int]@);
            assert(body.skip(i - 2).drop_first() =~= body.skip(i - 1));
            match stats_row_of(&ls[i], &n) {
                Some(r) => {
                    assert(body.skip(i - 2).len() > 0);
                    assert(first_stats(body.skip(i - 2), n@) == r);
                    return r;
                },
                None => {},
            }
            i = i + 1;
        }
        assert(body.skip(ls.len() - 2) =~= Seq::<Seq<char>>::empty());
        (0, 0)
    }

    /// Builds the report of one interface.
    pub fn interface_info(
        name: &str,
        operstate: &str,
        address: &str,
        ip_output: Option<&str>,
        net_dev: &str,
    ) -> (r: InterfaceInfo)
        ensures
            r@ == interface_view(
                name@,
                operstate@,
                address@,
                match ip_output {
                    Some(o) => Some(o@),
                    None => None,
                },
                net_dev@,
            ),
    {
        let st = trim_str(operstate);
        let state = to_upper(st.as_str());
        let mac = trim_str(address);
        let (ipv4, ipv6) = match ip_output {
            Some(o) => Self::parse_addresses(o),
            None => (String::new(), String::new()),
        };
        let (rx_bytes, tx_bytes) = Self::read_interface_stats(net_dev, name);
        InterfaceInfo { state, mac, ipv4, ipv6, rx_bytes, tx_bytes }
    }

    /// The interfaces that the readings describe, by name, the loopback interface left
    /// out.
    pub fn list_interfaces(readings: &Vec<InterfaceReading>) -> (m: NamedMap<InterfaceInfo>)
        ensures
            m.view() == interface_table(readings@),
    {
        let ghost rows = readings@.map_values(|r: InterfaceReading| reading_row(r));
        let mut m = NamedMap::new();
        let mut i: usize = 0;
        while i < readings.len()
            invariant
                i <= readings.len(),
                rows == readings@.map_values(|r: InterfaceReading| reading_row(r)),
                m.view() == table(rows.take(i as int)),
            decreases readings.len() - i,
        {
            let r = &readings[i];
            proof {
                lemma_table_step(rows, i as int);
                assert(rows[i as int] == reading_row(readings@[i as int]));
            }
            if !Self::is_loopback_name(r.name.as_str()) {
                let ip = match &r.ip_output {
                    Some(o) => Some(o.as_str()),
                    None => None,
                };
                let info = Self::interface_info(
                    r.name.as_str(),
                    r.operstate.as_str(),
                    r.address.as_str(),
                    ip,
                    r.net_dev.as_str(),
                );
                m.insert(r.name.clone(), info);
            }
            i = i + 1;
        }
        assert(rows.take(readings.len() as int) =~= rows);
        m
    }

    /// The report of the interface `name` among all interfaces.
    pub fn find_interface(all: NamedMap<InterfaceInfo>, name: &str) -> (r: Result<
        InterfaceInfo,
        NetworkError,
    >)
        ensures
            all.view().contains_key(name@) ==> (r matches Ok(i) && i@ == all.view()[name@]),
            !all.view().contains_key(name@) ==> r == Err::<InterfaceInfo, NetworkError>(
                NetworkError::NotFound,
            ),
    {
        match all.take(name) {
            Some(i) => Ok(i),
            None => Err(NetworkError::NotFound),
        }
    }

    /// The arguments of the `ip` run that removes an interface's addresses.
    pub fn flush_args(iface: &str) -> (a: Vec<String>)
        ensures
            strs(a@) == seq!["addr"@, "flush"@, "dev"@, iface@],
    {
        let a = vec!["addr".to_owned(), "flush".to_owned(), "dev".to_owned(), iface.to_owned()];
        assert(strs(a@) =~= seq!["addr"@, "flush"@, "dev"@, iface@]);
        a
    }

    /// The arguments of the `ip` run that gives an interface an address.
    pub fn add_address_args(iface: &str, cidr: &str) -> (a: Vec<String>)
        ensures
            strs(a@) == seq!["addr"@, "add"@, cidr@, "dev"@, iface@],
    {
        let a = vec![
            "addr".to_owned(),
            "add".to_owned(),
            cidr.to_owned(),
            "dev".to_owned(),
            iface.to_owned(),
        ];
        assert(strs(a@) =~= seq!["addr"@, "add"@, cidr@, "dev"@, iface@]);
        a
    }

    /// The answer to an address that was set.
    pub fn setip_message(iface: &str, cidr: &str) -> (s: String)
        ensures
            s@ == "Set "@ + cidr@ + " on interface '"@ + iface@ + "'"@,
    {
        let a = concat3("Set ", cidr, " on interface '");
        concat3(a.as_str(), iface, "'")
    }
}


/// One more reading of an interface other than the loopback lists it under its name,
/// whatever its state, replacing an earlier reading of that name: its state is the
/// trimmed `operstate` in upper case, its MAC the trimmed `address`, its addresses those
/// of its `ip addr show` output (empty without one), and its byte counters those of its
/// `/proc/net/dev` line; a reading of the loopback interface changes nothing.
pub proof fn law_interface_reading(rs: Seq<InterfaceReading>, r: InterfaceReading)
    ensures
        r.name@ != "lo"@ ==> interface_table(rs.push(r)) == interface_table(rs).insert(
            r.name@,
            InterfaceInfoView {
                state: uppercase(trim(r.operstate@)),
                mac: trim(r.address@),
                ipv4: match r.ip_output {
                    Some(o) => addresses(o@).0,
                    None => Seq::empty(),
                },
                ipv6: match r.ip_output {
                    Some(o) => addresses(o@).1,
                    None => Seq::empty(),
                },
                rx_bytes: interface_stats(r.net_dev@, r.name@).0,
                tx_bytes: interface_stats(r.net_dev@, r.name@).1,
            },
        ),
        r.name@ == "lo"@ ==> interface_table(rs.push(r)) == interface_table(rs),
{
    let f = |x: InterfaceReading| reading_row(x);
    assert(rs.push(r).map_values(f) =~= rs.map_values(f).push(reading_row(r)));
    lemma_table_push(rs.map_values(f), reading_row(r));
}

/// Every interface read, but the loopback, is listed under its name.
pub proof fn law_every_interface_listed(rs: Seq<InterfaceReading>, i: int)
    requires
        0 <= i < rs.len(),
        rs[i].name@ != "lo"@,
    ensures
        interface_table(rs).contains_key(rs[i].name@),
{
    let rows = rs.map_values(|x: InterfaceReading| reading_row(x));
    assert(rows[i] == reading_row(rs[i]));
    lemma_table_has_row(rows, i);
}


/// One more line of `ip addr show` output, trimmed: the first `inet ` line gives the
/// IPv4 address (its second word) while none was found; the first `inet6 ` line whose
/// address does not begin with `fe80` (a link-local address) gives the IPv6 address
/// while none was found; every other line leaves both as they were.
pub proof fn law_ip_line(ls: Seq<Seq<char>>, l: Seq<char>)
    ensures
        ({
            let st = ip_scan(ls);
            let t = trim(l);
            let w = words(t);
            let a = if w.len() > 1 {
                w[1]
            } else {
                Seq::empty()
            };
            let v4 = starts_with(t, "inet "@) && st.0.len() == 0;
            let v6 = starts_with(t, "inet6 "@) && st.1.len() == 0 && !starts_with(a, "fe80"@);
            &&& v4 ==> ip_scan(ls.push(l)) == (a, st.1)
            &&& v6 ==> ip_scan(ls.push(l)) == (st.0, a)
            &&& !v4 && !v6 ==> ip_scan(ls.push(l)) == st
        }),
{
    reveal_strlit("inet ");
    reveal_strlit("inet6 ");
    assert(ls.push(l).drop_last() =~= ls);
    let t = trim(l);
    if starts_with(t, "inet "@) && starts_with(t, "inet6 "@) {
        assert(t[4] == "inet "@[4]);
        assert(t[4] == "inet6 "@[4]);
    }
}

} // verus!
