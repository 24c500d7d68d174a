use vstd::prelude::*;
use crate::text::chars_of;

verus! {

/// Lexicographic order on character sequences, by code point; on strings it is the
/// order of `Ord for str`, which compares the UTF-8 bytes.
pub open spec fn lex_lt(a: Seq<char>, b: Seq<char>) -> bool
    decreases a.len(),
{
    if a.len() == 0 {
        b.len() > 0
    } else if b.len() == 0 {
        false
    } else if a[0] != b[0] {
        a[0] < b[0]
    } else {
        lex_lt(a.drop_first(), b.drop_first())
    }
}

/// No sequence precedes itself.
pub proof fn lemma_lex_irreflexive(a: Seq<char>)
    ensures
        !lex_lt(a, a),
    decreases a.len(),
{
    if a.len() > 0 {
        lemma_lex_irreflexive(a.drop_first());
    }
}

/// The order is transitive.
pub proof fn lemma_lex_transitive(a: Seq<char>, b: Seq<char>, c: Seq<char>)
    requires
        lex_lt(a, b),
        lex_lt(b, c),
    ensures
        lex_lt(a, c),
    decreases a.len(),
{
    if a.len() > 0 && b.len() > 0 && c.len() > 0 && a[0] == b[0] && b[0] == c[0] {
        lemma_lex_transitive(a.drop_first(), b.drop_first(), c.drop_first());
    }
}

/// Two different sequences are ordered one way or the other.
pub proof fn lemma_lex_total(a: Seq<char>, b: Seq<char>)
    requires
        a != b,
    ensures
        lex_lt(a, b) || lex_lt(b, a),
    decreases a.len(),
{
    if a.len() == 0 && b.len() == 0 {
        assert(a =~= b);
    } else if a.len() > 0 && b.len() > 0 && a[0] == b[0] {
        if a.drop_first() == b.drop_first() {
            assert(a =~= seq![a[0]] + a.drop_first());
            assert(b =~= seq![b[0]] + b.drop_first());
        }
        lemma_lex_total(a.drop_first(), b.drop_first());
    }
}

/// The outcome of comparing two keys.
#[derive(PartialEq, Eq, Structural, Clone, Copy, Debug)]
pub enum KeyOrder {
    Less,
    Equal,
    Greater,
}

/// Compares two character sequences in lexicographic order.
pub fn compare_chars(a: &Vec<char>, b: &Vec<char>) -> (r: KeyOrder)
    ensures
        r == KeyOrder::Less <==> lex_lt(a@, b@),
        r == KeyOrder::Greater <==> lex_lt(b@, a@),
        r == KeyOrder::Equal <==> a@ == b@,
{
    let mut i: usize = 0;
    assert(a@.skip(0) =~= a@);
    assert(b@.skip(0) =~= b@);
    while i < a.len() && i < b.len() && a[i] == b[i]
        invariant
            i <= a.len(),
            i <= b.len(),
            a@.take(i as int) == b@.take(i as int),
            lex_lt(a@, b@) == lex_lt(a@.skip(i as int), b@.skip(i as int)),
            lex_lt(b@, a@) == lex_lt(b@.skip(i as int), a@.skip(i as int)),
        decreases a.len() - i,
    {
        assert(a@.skip(i as int).drop_first() =~= a@.skip(i + 1));
        assert(b@.skip(i as int).drop_first() =~= b@.skip(i + 1));
        assert(a@.take(i + 1) =~= a@.take(i as int).push(a@[i as int]));
        assert(b@.take(i + 1) =~= b@.take(i as int).push(b@[i as int]));
        i = i + 1;
    }
    proof {
        lemma_lex_irreflexive(a@);
    }
    if i == a.len() && i == b.len() {
        assert(a@ =~= a@.take(i as int));
        assert(b@ =~= b@.take(i as int));
        KeyOrder::Equal
    } else if i == a.len() {
        assert(a@.len() != b@.len());
        KeyOrder::Less
    } else if i == b.len() {
        assert(a@.len() != b@.len());
        KeyOrder::Greater
    } else if a[i] < b[i] {
        assert(a@[i as int] != b@[i as int]);
        KeyOrder::Less
    } else {
        assert(a@[i as int] != b@[i as int]);
        KeyOrder::Greater
    }
}

/// A map from names to records, kept in ascending order of the names.
/// Inserting a name that is already present replaces its record.
pub struct NamedMap<T: View> {
    entries: Vec<(String, T)>,
}

/// Whether the names of `e` strictly ascend.
pub open spec fn names_ascend<T>(e: Seq<(String, T)>) -> bool {
    forall|i: int, j: int| 0 <= i < j < e.len() ==> lex_lt(#[trigger] e[i].0@, #[trigger] e[j].0@)
}

/// Whether `name` is one of the names of `e`.
pub open spec fn has_name<T>(e: Seq<(String, T)>, name: Seq<char>) -> bool {
    exists|i: int| 0 <= i < e.len() && #[trigger] e[i].0@ == name
}

/// The map from names to records that the entries `e` describe.
pub open spec fn entries_map<T: View>(e: Seq<(String, T)>) -> Map<Seq<char>, T::V> {
    Map::new(
        |k: Seq<char>| has_name(e, k),
        |k: Seq<char>| record_of(e, k),
    )
}

/// The record of the entry named `name`, when there is one.
pub open spec fn record_of<T: View>(e: Seq<(String, T)>, name: Seq<char>) -> T::V {
    e[index_of(e, name)].1@
}

/// The position of an entry named `name`, when there is one.
pub open spec fn index_of<T>(e: Seq<(String, T)>, name: Seq<char>) -> int {
    choose|i: int| 0 <= i < e.len() && #[trigger] e[i].0@ == name
}

impl<T: View> NamedMap<T> {
    #[verifier::type_invariant]
    spec fn inv(self) -> bool {
        names_ascend(self.entries@)
    }

    /// The entries, in ascending order of their names.
    pub closed spec fn entries_view(self) -> Seq<(String, T)> {
        self.entries@
    }

    /// The names and their records.
    pub open spec fn view(self) -> Map<Seq<char>, T::V> {
        entries_map(self.entries_view())
    }

    /// An empty map.
    pub fn new() -> (m: Self)
        ensures
            m.entries_view().len() == 0,
            m.view() == Map::<Seq<char>, T::V>::empty(),
    {
        let m = NamedMap { entries: Vec::new() };
        assert(m.view() =~= Map::<Seq<char>, T::V>::empty());
        m
    }

    /// The number of names.
    pub fn len(&self) -> (n: usize)
        ensures
            n == self.entries_view().len(),
    {
        self.entries.len()
    }

    /// The entries, in ascending order of their names.
    pub fn entries(&self) -> (e: &Vec<(String, T)>)
        ensures
            e@ == self.entries_view(),
            names_ascend(e@),
    {
        proof {
            use_type_invariant(self);
        }
        &self.entries
    }

    /// Takes the entries out, in ascending order of their names.
    pub fn into_entries(self) -> (e: Vec<(String, T)>)
        ensures
            e@ == self.entries_view(),
            names_ascend(e@),
    {
        proof {
            use_type_invariant(&self);
        }
        self.entries
    }

    /// Where `name` stands, or would be inserted: the first position whose name does
    /// not precede `name`.
    fn position(&self, name: &Vec<char>) -> (p: usize)
        ensures
            p <= self.entries_view().len(),
            forall|i: int| 0 <= i < p ==> lex_lt(#[trigger] self.entries_view()[i].0@, name@),
            p < self.entries_view().len() ==> !lex_lt(self.entries_view()[p as int].0@, name@),
    {
        let mut p: usize = 0;
        while p < self.entries.len()
            invariant
                p <= self.entries@.len(),
                forall|i: int| 0 <= i < p ==> lex_lt(#[trigger] self.entries@[i].0@, name@),
            decreases self.entries@.len() - p,
        {
            let k = chars_of(self.entries[p].0.as_str());
            match compare_chars(&k, name) {
                KeyOrder::Less => {},
                _ => {
                    return p;
                },
            }
            p = p + 1;
        }
        p
    }

    /// Under distinct names, the record that the view holds for the name at `i`.
    proof fn lemma_lookup(e: Seq<(String, T)>, i: int)
        requires
            names_ascend(e),
            0 <= i < e.len(),
        ensures
            entries_map(e).contains_key(e[i].0@),
            entries_map(e)[e[i].0@] == e[i].1@,
    {
        let k = e[i].0@;
        assert(has_name(e, k));
        let j = index_of(e, k);
        if j != i {
            lemma_lex_irreflexive(k);
            if j < i {
                assert(lex_lt(e[j].0@, e[i].0@));
            } else {
                assert(lex_lt(e[i].0@, e[j].0@));
            }
        }
        assert(j == i);
        assert(entries_map(e).contains_key(k));
        assert(entries_map(e)[k] == record_of(e, k));
        assert(record_of(e, k) == e[j].1@);
    }

    /// Looks up the record of `name`.
    pub fn get(&self, name: &str) -> (r: Option<&T>)
        ensures
            match r {
                Some(v) => self.view().contains_key(name@) && v@ == self.view()[name@],
                None => !self.view().contains_key(name@),
            },
    {
        proof {
            use_type_invariant(self);
        }
        let n = chars_of(name);
        let p = self.position(&n);
        if p < self.entries.len() {
            let k = chars_of(self.entries[p].0.as_str());
            if compare_chars(&k, &n) == KeyOrder::Equal {
                proof {
                    Self::lemma_lookup(self.entries@, p as int);
                }
                return Some(&self.entries[p].1);
            }
        }
        proof {
            if has_name(self.entries@, name@) {
                let j = choose|j: int|
                    0 <= j < self.entries@.len() && #[trigger] self.entries@[j].0@ == name@;
                lemma_lex_irreflexive(name@);
                if j > p {
                    assert(lex_lt(self.entries@[p as int].0@, self.entries@[j].0@));
                    lemma_lex_total(self.entries@[p as int].0@, name@);
                }
            }
        }
        None
    }

    /// Takes the record of `name` out of the map.
    pub fn take(self, name: &str) -> (r: Option<T>)
        ensures
            match r {
                Some(v) => self.view().contains_key(name@) && v@ == self.view()[name@],
                None => !self.view().contains_key(name@),
            },
    {
        proof {
            use_type_invariant(&self);
        }
        let n = chars_of(name);
        let p = self.position(&n);
        let ghost e0 = self.entries@;
        if p < self.entries.len() {
            let k = chars_of(self.entries[p].0.as_str());
            if compare_chars(&k, &n) == KeyOrder::Equal {
                proof {
                    Self::lemma_lookup(e0, p as int);
                }
                let mut e = self.entries;
                let (_, v) = e.remove(p);
                return Some(v);
            }
        }
        proof {
            if has_name(e0, name@) {
                let j = choose|j: int| 0 <= j < e0.len() && #[trigger] e0[j].0@ == name@;
                lemma_lex_irreflexive(name@);
                if j > p {
                    assert(lex_lt(e0[p as int].0@, e0[j].0@));
                    lemma_lex_total(e0[p as int].0@, name@);
                }
            }
        }
        None
    }

    /// Sets the record of `name`, replacing the one it had.
    pub fn insert(&mut self, name: String, value: T)
        ensures
            final(self).view() == old(self).view().insert(name@, value@),
    {
        proof {
            use_type_invariant(&*self);
        }
        let n = chars_of(name.as_str());
        let p = self.position(&n);
        let mut e: Vec<(String, T)> = Vec::new();
        std::mem::swap(&mut e, &mut self.entries);
        let ghost old_e = e@;
        let same = if p < e.len() {
            let k = chars_of(e[p].0.as_str());
            compare_chars(&k, &n) == KeyOrder::Equal
        } else {
            false
        };
        if same {
            e.set(p, (name, value));
        } else {
            e.insert(p, (name, value));
        }
        proof {
            Self::lemma_insert_ascends(old_e, e@, p as int, same, n@);
            Self::lemma_insert_map(old_e, e@, p as int, same, n@);
        }
        self.entries = e;
    }

    proof fn lemma_insert_ascends(
        old_e: Seq<(String, T)>,
        e: Seq<(String, T)>,
        p: int,
        same: bool,
        name: Seq<char>,
    )
        requires
            names_ascend(old_e),
            0 <= p <= old_e.len(),
            forall|i: int| 0 <= i < p ==> lex_lt(#[trigger] old_e[i].0@, name),
            p < old_e.len() ==> !lex_lt(old_e[p].0@, name),
            same == (p < old_e.len() && old_e[p].0@ == name),
            same ==> e.len() == old_e.len() && e[p].0@ == name && forall|i: int|
                0 <= i < old_e.len() && i != p ==> #[trigger] e[i] == old_e[i],
            !same ==> e.len() == old_e.len() + 1 && e[p].0@ == name && (forall|i: int|
                0 <= i < p ==> #[trigger] e[i] == old_e[i]) && (forall|i: int|
                p < i < e.len() ==> #[trigger] e[i] == old_e[i - 1]),
        ensures
            names_ascend(e),
    {
        if !same && p < old_e.len() {
            lemma_lex_total(old_e[p].0@, name);
        }
        assert forall|i: int, j: int| 0 <= i < j < e.len() implies lex_lt(
            #[trigger] e[i].0@,
            #[trigger] e[j].0@,
        ) by {
            if same {
                if i == p {
                    assert(lex_lt(old_e[i].0@, old_e[j].0@));
                } else if j == p {
                    assert(lex_lt(old_e[i].0@, name));
                } else {
                    assert(lex_lt(old_e[i].0@, old_e[j].0@));
                }
            } else {
                if i == p {
                    assert(lex_lt(name, old_e[p].0@));
                    if j - 1 > p {
                        assert(lex_lt(old_e[p].0@, old_e[j - 1].0@));
                        lemma_lex_transitive(name, old_e[p].0@, old_e[j - 1].0@);
                    }
                } else if j == p {
                    assert(lex_lt(old_e[i].0@, name));
                } else if i < p && j < p {
                    assert(lex_lt(old_e[i].0@, old_e[j].0@));
                } else if i < p && j > p {
                    assert(lex_lt(old_e[i].0@, name));
                    assert(lex_lt(name, old_e[p].0@));
                    lemma_lex_transitive(old_e[i].0@, name, old_e[p].0@);
                    if j - 1 > p {
                        assert(lex_lt(old_e[p].0@, old_e[j - 1].0@));
                        lemma_lex_transitive(old_e[i].0@, old_e[p].0@, old_e[j - 1].0@);
                    }
                } else {
                    assert(lex_lt(old_e[i - 1].0@, old_e[j - 1].0@));
                }
            }
        }
    }

    proof fn lemma_insert_map(
        old_e: Seq<(String, T)>,
        e: Seq<(String, T)>,
        p: int,
        same: bool,
        name: Seq<char>,
    )
        requires
            names_ascend(old_e),
            names_ascend(e),
            0 <= p <= old_e.len(),
            same == (p < old_e.len() && old_e[p].0@ == name),
            same ==> e.len() == old_e.len() && e[p].0@ == name && forall|i: int|
                0 <= i < old_e.len() && i != p ==> #[trigger] e[i] == old_e[i],
            !same ==> e.len() == old_e.len() + 1 && e[p].0@ == name && (forall|i: int|
                0 <= i < p ==> #[trigger] e[i] == old_e[i]) && (forall|i: int|
                p < i < e.len() ==> #[trigger] e[i] == old_e[i - 1]),
        ensures
            entries_map(e) == entries_map(old_e).insert(name, e[p].1@),
    {
        let v = e[p].1@;
        let m = entries_map(e);
        let m0 = entries_map(old_e).insert(name, v);
        Self::lemma_lookup(e, p);
        assert forall|k: Seq<char>| m.contains_key(k) <==> m0.contains_key(k) by {
            if m.contains_key(k) && k != name {
                let j = choose|i: int| 0 <= i < e.len() && #[trigger] e[i].0@ == k;
                if same {
                    assert(old_e[j].0@ == k);
                } else if j < p {
                    assert(old_e[j].0@ == k);
                } else {
                    assert(old_e[j - 1].0@ == k);
                }
            }
            if m0.contains_key(k) && k != name {
                let j = choose|j: int| 0 <= j < old_e.len() && #[trigger] old_e[j].0@ == k;
                if same || j < p {
                    assert(e[j].0@ == k);
                } else {
                    assert(e[j + 1].0@ == k);
                }
            }
        }
        assert forall|k: Seq<char>| #[trigger] m.contains_key(k) implies m[k] == m0[k] by {
            if k != name {
                let j = choose|i: int| 0 <= i < e.len() && #[trigger] e[i].0@ == k;
                Self::lemma_lookup(e, j);
                if same || j < p {
                    Self::lemma_lookup(old_e, j);
                } else {
                    Self::lemma_lookup(old_e, j - 1);
                }
            }
        }
        assert(m =~= m0);
    }
}


/// The map that a list of optional rows builds when each present row is inserted in
/// turn, a later row replacing an earlier one of the same name.
pub open spec fn table<V>(rows: Seq<Option<(Seq<char>, V)>>) -> Map<Seq<char>, V>
    decreases rows.len(),
{
    if rows.len() == 0 {
        Map::empty()
    } else {
        let m = table(rows.drop_last());
        match rows.last() {
            Some(r) => m.insert(r.0, r.1),
            None => m,
        }
    }
}

/// Building the table one more row.
pub proof fn lemma_table_step<V>(rows: Seq<Option<(Seq<char>, V)>>, i: int)
    requires
        0 <= i < rows.len(),
    ensures
        table(rows.take(i + 1)) == match rows[i] {
            Some(r) => table(rows.take(i)).insert(r.0, r.1),
            None => table(rows.take(i)),
        },
{
    assert(rows.take(i + 1).drop_last() =~= rows.take(i));
    assert(rows.take(i + 1).last() == rows[i]);
}

/// Every name of a table comes from a present row that holds its record.
pub proof fn lemma_table_names<V>(rows: Seq<Option<(Seq<char>, V)>>, k: Seq<char>)
    requires
        table(rows).contains_key(k),
    ensures
        exists|i: int| 0 <= i < rows.len() && #[trigger] rows[i] == Some((k, table(rows)[k])),
    decreases rows.len(),
{
    let prev = rows.drop_last();
    let last = rows.len() - 1;
    if rows.last() == Some((k, table(rows)[k])) {
        assert(rows[last] == Some((k, table(rows)[k])));
    } else {
        match rows.last() {
            Some(r) => {
                if r.0 == k {
                    assert(table(rows)[k] == r.1);
                }
            },
            None => {},
        }
        lemma_table_names(prev, k);
        let i = choose|i: int| 0 <= i < prev.len() && #[trigger] prev[i] == Some((k, table(prev)[k]));
        assert(rows[i] == prev[i]);
    }
}

/// The name of every present row is a name of the table.
pub proof fn lemma_table_has_row<V>(rows: Seq<Option<(Seq<char>, V)>>, i: int)
    requires
        0 <= i < rows.len(),
        rows[i] is Some,
    ensures
        table(rows).contains_key(rows[i].unwrap().0),
    decreases rows.len(),
{
    if i < rows.len() - 1 {
        lemma_table_has_row(rows.drop_last(), i);
        assert(rows.drop_last()[i] == rows[i]);
    }
}

/// The view of an optional named record.
pub open spec fn row_view<T: View>(r: Option<(String, T)>) -> Option<(Seq<char>, T::V)> {
    match r {
        Some(p) => Some((p.0@, p.1@)),
        None => None,
    }
}

impl<T: View> NamedMap<T> {
    /// Inserts a named record when there is one.
    pub fn insert_row(&mut self, row: Option<(String, T)>)
        ensures
            final(self).view() == match row_view(row) {
                Some(r) => old(self).view().insert(r.0, r.1),
                None => old(self).view(),
            },
    {
        match row {
            Some(p) => {
                let (k, v) = p;
                self.insert(k, v);
            },
            None => {},
        }
    }
}


/// A name inserted into a map is found with its record, and every other name keeps
/// the record it had.
pub proof fn law_lookup_after_insert<V>(m: Map<Seq<char>, V>, name: Seq<char>, v: V, other: Seq<char>)
    requires
        other != name,
    ensures
        m.insert(name, v).contains_key(name),
        m.insert(name, v)[name] == v,
        m.insert(name, v).contains_key(other) == m.contains_key(other),
        m.contains_key(other) ==> m.insert(name, v)[other] == m[other],
{
}


/// One more row inserts its record into the table, replacing the one of the same name,
/// or leaves the table as it was when it is absent.
pub proof fn lemma_table_push<V>(rows: Seq<Option<(Seq<char>, V)>>, r: Option<(Seq<char>, V)>)
    ensures
        table(rows.push(r)) == match r {
            Some(p) => table(rows).insert(p.0, p.1),
            None => table(rows),
        },
{
    assert(rows.push(r).drop_last() =~= rows);
}

} // verus!
