use vstd::prelude::*;

verus! {

/// Whitespace as `char::is_whitespace` defines it: the Unicode `White_Space` property.
pub open spec fn is_ws(c: char) -> bool {
    ||| ('\u{9}' <= c && c <= '\u{d}')
    ||| c == ' '
    ||| c == '\u{85}'
    ||| c == '\u{a0}'
    ||| c == '\u{1680}'
    ||| ('\u{2000}' <= c && c <= '\u{200a}')
    ||| c == '\u{2028}'
    ||| c == '\u{2029}'
    ||| c == '\u{202f}'
    ||| c == '\u{205f}'
    ||| c == '\u{3000}'
}

/// Tests one character for whitespace.
pub fn char_is_ws(c: char) -> (b: bool)
    ensures
        b == is_ws(c),
{
    ('\u{9}' <= c && c <= '\u{d}') || c == ' ' || c == '\u{85}' || c == '\u{a0}' || c == '\u{1680}'
        || ('\u{2000}' <= c && c <= '\u{200a}') || c == '\u{2028}' || c == '\u{2029}' || c
        == '\u{202f}' || c == '\u{205f}' || c == '\u{3000}'
}

/// Appends one character to a string.
/// Trusted: `String::push`, which std documents as appending the character to the end.
#[verifier::external_body]
fn push_char(s: &mut String, c: char)
    ensures
        final(s)@ == old(s)@.push(c),
{
    s.push(c);
}

/// The characters of a string slice, in order.
pub fn chars_of(s: &str) -> (v: Vec<char>)
    ensures
        v@ == s@,
{
    let mut v: Vec<char> = Vec::new();
    for c in it: s.chars()
        invariant
            it.seq() == s@,
            v@ == it.seq().take(it.index()),
    {
        v.push(c);
    }
    v
}

/// A string holding the characters `v[lo..hi]`.
pub fn string_of(v: &Vec<char>, lo: usize, hi: usize) -> (s: String)
    requires
        lo <= hi <= v.len(),
    ensures
        s@ == v@.subrange(lo as int, hi as int),
{
    let mut s = String::new();
    let mut i = lo;
    while i < hi
        invariant
            lo <= i <= hi <= v.len(),
            s@ == v@.subrange(lo as int, i as int),
        decreases hi - i,
    {
        push_char(&mut s, v[i]);
        i = i + 1;
    }
    s
}


/// The character sequences held by a list of character vectors.
pub open spec fn seqs(v: Seq<Vec<char>>) -> Seq<Seq<char>> {
    v.map_values(|w: Vec<char>| w@)
}

/// The pieces of `s` between occurrences of `c`, as `str::split` with a `char` pattern
/// gives them: one piece more than there are occurrences.
pub open spec fn split_char(s: Seq<char>, c: char) -> Seq<Seq<char>>
    decreases s.len(),
{
    if s.len() == 0 {
        seq![Seq::empty()]
    } else {
        let r = split_char(s.drop_last(), c);
        if s.last() == c {
            r.push(Seq::empty())
        } else {
            r.update(r.len() - 1, r.last().push(s.last()))
        }
    }
}

/// `split_char` never yields an empty list of pieces.
pub proof fn lemma_split_char_len(s: Seq<char>, c: char)
    ensures
        split_char(s, c).len() >= 1,
    decreases s.len(),
{
    if s.len() > 0 {
        lemma_split_char_len(s.drop_last(), c);
    }
}

/// Appending text without `c` extends the last piece of a split at `c`.
pub proof fn lemma_split_char_append(x: Seq<char>, y: Seq<char>, c: char)
    requires
        forall|i: int| 0 <= i < y.len() ==> y[i] != c,
    ensures
        split_char(x + y, c) == split_char(x, c).update(
            split_char(x, c).len() - 1,
            split_char(x, c).last() + y,
        ),
    decreases y.len(),
{
    lemma_split_char_len(x, c);
    let sx = split_char(x, c);
    if y.len() == 0 {
        assert(x + y =~= x);
        assert(sx.last() + y =~= sx.last());
        assert(sx.update(sx.len() - 1, sx.last() + y) =~= sx);
    } else {
        let y0 = y.drop_last();
        lemma_split_char_append(x, y0, c);
        assert((x + y).drop_last() =~= x + y0);
        assert((x + y).last() == y.last());
        assert((sx.last() + y0).push(y.last()) =~= sx.last() + y);
        assert(split_char(x + y, c) =~= sx.update(sx.len() - 1, sx.last() + y));
    }
}

/// No piece of a split at `c` holds `c`.
pub proof fn lemma_split_char_pieces(s: Seq<char>, c: char)
    ensures
        forall|i: int, j: int|
            0 <= i < split_char(s, c).len() && 0 <= j < split_char(s, c)[i].len() ==> #[trigger] split_char(s, c)[i][j] != c,
    decreases s.len(),
{
    if s.len() > 0 {
        lemma_split_char_pieces(s.drop_last(), c);
        lemma_split_char_len(s.drop_last(), c);
        let r = split_char(s.drop_last(), c);
        assert forall|i: int, j: int|
            0 <= i < split_char(s, c).len() && 0 <= j < split_char(s, c)[i].len() implies #[trigger] split_char(s, c)[i][j] != c by {
            if s.last() != c && i == r.len() - 1 {
                if j < r.last().len() {
                    assert(split_char(s, c)[i][j] == r[i][j]);
                }
            } else if i < r.len() {
                assert(split_char(s, c)[i] == r[i]);
            }
        }
    }
}

/// Removes one trailing carriage return.
pub open spec fn strip_cr(s: Seq<char>) -> Seq<char> {
    if s.len() > 0 && s.last() == '\r' {
        s.drop_last()
    } else {
        s
    }
}

/// Each line with a trailing carriage return removed.
pub open spec fn stripped(ls: Seq<Seq<char>>) -> Seq<Seq<char>> {
    ls.map_values(|l: Seq<char>| strip_cr(l))
}

/// The lines of `s` as `str::lines` gives them: split at `\n`, a `\r` right before a
/// `\n` removed, and no empty last line after a final `\n`.
pub open spec fn lines(s: Seq<char>) -> Seq<Seq<char>> {
    let raw = split_char(s, '\n');
    let ended = stripped(raw.take(raw.len() - 1));
    if raw.last().len() == 0 {
        ended
    } else {
        ended.push(raw.last())
    }
}

/// Whether a line ends with a carriage return.
pub open spec fn ends_with_cr(l: Seq<char>) -> bool {
    l.len() > 0 && l.last() == '\r'
}

/// Whether no line holds a newline or ends with a carriage return.
pub open spec fn plain_lines(ls: Seq<Seq<char>>) -> bool {
    forall|i: int| 0 <= i < ls.len() ==> !(#[trigger] ls[i]).contains('\n') && !ends_with_cr(ls[i])
}

/// No line of a text holds a newline.
pub proof fn lemma_lines_have_no_newline(s: Seq<char>)
    ensures
        forall|i: int| 0 <= i < lines(s).len() ==> !(#[trigger] lines(s)[i]).contains('\n'),
{
    let raw = split_char(s, '\n');
    lemma_split_char_len(s, '\n');
    lemma_split_char_pieces(s, '\n');
    assert forall|i: int| 0 <= i < lines(s).len() implies !(#[trigger] lines(s)[i]).contains('\n') by {
        let l = lines(s)[i];
        let p = raw[i];
        if l.contains('\n') {
            let j = choose|j: int| 0 <= j < l.len() && l[j] == '\n';
            if i < raw.len() - 1 {
                assert(l == strip_cr(p));
                assert(l[j] == p[j]);
            } else {
                assert(l == p);
            }
            assert(raw[i][j] == '\n');
        }
    }
}

/// Lines, each followed by a newline.
pub open spec fn joined_lines(ls: Seq<Seq<char>>) -> Seq<char>
    decreases ls.len(),
{
    if ls.len() == 0 {
        Seq::empty()
    } else {
        joined_lines(ls.drop_last()) + ls.last() + seq!['\n']
    }
}

/// Splitting lines joined with newlines at the newlines gives them back, and an
/// empty last piece.
pub proof fn lemma_split_joined(ls: Seq<Seq<char>>)
    requires
        plain_lines(ls),
    ensures
        split_char(joined_lines(ls), '\n') == ls.push(Seq::empty()),
    decreases ls.len(),
{
    if ls.len() == 0 {
        assert(split_char(joined_lines(ls), '\n') =~= ls.push(Seq::empty()));
    } else {
        let prev = ls.drop_last();
        let l = ls.last();
        assert(plain_lines(prev)) by {
            assert forall|i: int| 0 <= i < prev.len() implies !(#[trigger] prev[i]).contains('\n')
                && !ends_with_cr(prev[i]) by {
                assert(prev[i] == ls[i]);
            }
        }
        lemma_split_joined(prev);
        let j = joined_lines(prev);
        assert(!ls[ls.len() - 1].contains('\n'));
        assert forall|i: int| 0 <= i < l.len() implies l[i] != '\n' by {
            if l[i] == '\n' {
                assert(l.contains('\n'));
            }
        }
        lemma_split_char_append(j, l, '\n');
        let s = joined_lines(ls);
        assert(s.drop_last() =~= j + l);
        assert(s.last() == '\n');
        assert(Seq::<char>::empty() + l =~= l);
        assert(split_char(j + l, '\n') =~= prev.push(l));
        assert(prev.push(l) =~= ls);
    }
}

/// The lines of lines joined with newlines are those lines.
pub proof fn lemma_lines_of_joined(ls: Seq<Seq<char>>)
    requires
        plain_lines(ls),
    ensures
        lines(joined_lines(ls)) == ls,
{
    lemma_split_joined(ls);
    let raw = ls.push(Seq::<char>::empty());
    assert(raw.take(raw.len() - 1) =~= ls);
    assert forall|i: int| 0 <= i < ls.len() implies strip_cr(ls[i]) == ls[i] by {
        assert(!ends_with_cr(ls[i]));
    }
    assert(stripped(ls) =~= ls);
}

/// The maximal runs of non-whitespace characters of `s`, as `str::split_whitespace`
/// gives them.
pub open spec fn words(s: Seq<char>) -> Seq<Seq<char>>
    decreases s.len(),
{
    if s.len() == 0 {
        Seq::empty()
    } else {
        let r = words(s.drop_last());
        let ch = s.last();
        if is_ws(ch) {
            r
        } else if s.len() >= 2 && !is_ws(s[s.len() - 2]) {
            r.update(r.len() - 1, r.last().push(ch))
        } else {
            r.push(seq![ch])
        }
    }
}

/// Splits `v` at every occurrence of `c`.
pub fn split_on(v: &Vec<char>, c: char) -> (parts: Vec<Vec<char>>)
    ensures
        seqs(parts@) == split_char(v@, c),
{
    let mut parts: Vec<Vec<char>> = Vec::new();
    let mut cur: Vec<char> = Vec::new();
    let mut i: usize = 0;
    assert(v@.take(0) =~= Seq::<char>::empty());
    while i < v.len()
        invariant
            i <= v.len(),
            split_char(v@.take(i as int), c) == seqs(parts@).push(cur@),
        decreases v.len() - i,
    {
        let ch = v[i];
        let ghost before = seqs(parts@).push(cur@);
        assert(v@.take(i + 1).drop_last() =~= v@.take(i as int));
        assert(v@.take(i + 1).last() == ch);
        if ch == c {
            let done = cur;
            parts.push(done);
            cur = Vec::new();
            assert(seqs(parts@).push(cur@) =~= before.push(Seq::empty()));
        } else {
            cur.push(ch);
            assert(seqs(parts@).push(cur@) =~= before.update(
                before.len() - 1,
                before.last().push(ch),
            ));
        }
        i = i + 1;
    }
    assert(v@.take(v.len() as int) =~= v@);
    parts.push(cur);
    parts
}

/// The lines of `v`.
pub fn lines_of(v: &Vec<char>) -> (ls: Vec<Vec<char>>)
    ensures
        seqs(ls@) == lines(v@),
{
    let raw = split_on(v, '\n');
    proof {
        lemma_split_char_len(v@, '\n');
    }
    let n = raw.len();
    let mut ls: Vec<Vec<char>> = Vec::new();
    let mut i: usize = 0;
    while i + 1 < n
        invariant
            seqs(raw@) == split_char(v@, '\n'),
            n == raw.len(),
            n >= 1,
            i + 1 <= n,
            seqs(ls@) =~= stripped(seqs(raw@).take(i as int)),
        decreases n - i,
    {
        let line = &raw[i];
        let len = line.len();
        let mut copy: Vec<char> = Vec::new();
        let keep = if len > 0 && line[len - 1] == '\r' {
            len - 1
        } else {
            len
        };
        let mut j: usize = 0;
        while j < keep
            invariant
                keep <= len == line.len(),
                j <= keep,
                copy@ == line@.take(j as int),
            decreases keep - j,
        {
            copy.push(line[j]);
            j = j + 1;
        }
        assert(copy@ =~= strip_cr(line@));
        assert(seqs(raw@)[i as int] == line@);
        let ghost prev = seqs(ls@);
        ls.push(copy);
        assert(seqs(ls@) =~= prev.push(strip_cr(line@)));
        assert(stripped(seqs(raw@).take(i + 1)) =~= stripped(seqs(raw@).take(i as int)).push(
            strip_cr(line@),
        ));
        i = i + 1;
    }
    let last = &raw[n - 1];
    assert(seqs(raw@).last() == last@);
    if last.len() > 0 {
        ls.push(last.clone());
    }
    ls
}

/// The whitespace-separated words of `v`.
pub fn words_of(v: &Vec<char>) -> (ws: Vec<Vec<char>>)
    ensures
        seqs(ws@) == words(v@),
{
    let mut parts: Vec<Vec<char>> = Vec::new();
    let mut cur: Vec<char> = Vec::new();
    let mut i: usize = 0;
    assert(v@.take(0) =~= Seq::<char>::empty());
    while i < v.len()
        invariant
            i <= v.len(),
            cur.len() > 0 ==> words(v@.take(i as int)) == seqs(parts@).push(cur@),
            cur.len() == 0 ==> words(v@.take(i as int)) == seqs(parts@),
            cur.len() > 0 <==> (i > 0 && !is_ws(v@[i - 1])),
        decreases v.len() - i,
    {
        let ch = v[i];
        let ghost t = v@.take(i + 1);
        assert(t.drop_last() =~= v@.take(i as int));
        assert(t.last() == ch);
        if char_is_ws(ch) {
            if cur.len() > 0 {
                let done = cur;
                parts.push(done);
                cur = Vec::new();
            }
        } else {
            if cur.len() > 0 {
                let ghost before = seqs(parts@).push(cur@);
                assert(t[t.len() - 2] == v@[i - 1]);
                cur.push(ch);
                assert(seqs(parts@).push(cur@) =~= before.update(
                    before.len() - 1,
                    before.last().push(ch),
                ));
            } else {
                let ghost before = seqs(parts@);
                if i > 0 {
                    assert(t[t.len() - 2] == v@[i - 1]);
                }
                cur.push(ch);
                assert(cur@ =~= seq![ch]);
                assert(seqs(parts@).push(cur@) =~= before.push(seq![ch]));
            }
        }
        i = i + 1;
    }
    assert(v@.take(v.len() as int) =~= v@);
    if cur.len() > 0 {
        parts.push(cur);
    }
    parts
}


/// `s` without its leading whitespace.
pub open spec fn trim_start(s: Seq<char>) -> Seq<char>
    decreases s.len(),
{
    if s.len() > 0 && is_ws(s[0]) {
        trim_start(s.drop_first())
    } else {
        s
    }
}

/// `s` without its trailing whitespace.
pub open spec fn trim_end(s: Seq<char>) -> Seq<char>
    decreases s.len(),
{
    if s.len() > 0 && is_ws(s.last()) {
        trim_end(s.drop_last())
    } else {
        s
    }
}

/// `s` without leading and trailing whitespace, as `str::trim` gives it.
pub open spec fn trim(s: Seq<char>) -> Seq<char> {
    trim_end(trim_start(s))
}

/// `s` without any trailing `c`, as `str::trim_end_matches` with a `char` gives it.
pub open spec fn trim_end_char(s: Seq<char>, c: char) -> Seq<char>
    decreases s.len(),
{
    if s.len() > 0 && s.last() == c {
        trim_end_char(s.drop_last(), c)
    } else {
        s
    }
}

/// Whether `s` begins with `p`.
pub open spec fn starts_with(s: Seq<char>, p: Seq<char>) -> bool {
    p.len() <= s.len() && s.take(p.len() as int) == p
}

/// Whether `p` occurs in `s` as a contiguous part.
pub open spec fn contains(s: Seq<char>, p: Seq<char>) -> bool {
    exists|i: int| 0 <= i && i + p.len() <= s.len() && #[trigger] s.subrange(i, i + p.len()) == p
}

/// A copy of `v[lo..hi]`.
pub fn slice_of(v: &Vec<char>, lo: usize, hi: usize) -> (r: Vec<char>)
    requires
        lo <= hi <= v.len(),
    ensures
        r@ == v@.subrange(lo as int, hi as int),
{
    let mut r: Vec<char> = Vec::new();
    let mut i = lo;
    while i < hi
        invariant
            lo <= i <= hi <= v.len(),
            r@ == v@.subrange(lo as int, i as int),
        decreases hi - i,
    {
        r.push(v[i]);
        i = i + 1;
    }
    r
}

/// `v` without leading and trailing whitespace.
pub fn trimmed(v: &Vec<char>) -> (r: Vec<char>)
    ensures
        r@ == trim(v@),
{
    let n = v.len();
    let mut a: usize = 0;
    assert(v@.skip(0) =~= v@);
    while a < n && char_is_ws(v[a])
        invariant
            a <= n == v.len(),
            trim_start(v@) == trim_start(v@.skip(a as int)),
        decreases n - a,
    {
        assert(v@.skip(a as int).drop_first() =~= v@.skip(a + 1));
        a = a + 1;
    }
    assert(trim_start(v@.skip(a as int)) == v@.skip(a as int));
    let mut b: usize = n;
    assert(v@.skip(a as int) =~= v@.subrange(a as int, n as int));
    while b > a && char_is_ws(v[b - 1])
        invariant
            a <= b <= n == v.len(),
            trim(v@) == trim_end(v@.subrange(a as int, b as int)),
        decreases b - a,
    {
        assert(v@.subrange(a as int, b as int).drop_last() =~= v@.subrange(a as int, b - 1));
        b = b - 1;
    }
    slice_of(v, a, b)
}

/// `v` without any trailing `c`.
pub fn trimmed_end_char(v: &Vec<char>, c: char) -> (r: Vec<char>)
    ensures
        r@ == trim_end_char(v@, c),
{
    let mut b: usize = v.len();
    assert(v@.take(b as int) =~= v@);
    while b > 0 && v[b - 1] == c
        invariant
            b <= v.len(),
            trim_end_char(v@, c) == trim_end_char(v@.take(b as int), c),
        decreases b,
    {
        assert(v@.take(b as int).drop_last() =~= v@.take(b - 1));
        b = b - 1;
    }
    slice_of(v, 0, b)
}

/// Whether `v` begins with `p`.
pub fn has_prefix(v: &Vec<char>, p: &Vec<char>) -> (b: bool)
    ensures
        b == starts_with(v@, p@),
{
    if p.len() > v.len() {
        return false;
    }
    let mut i: usize = 0;
    while i < p.len()
        invariant
            p.len() <= v.len(),
            i <= p.len(),
            v@.take(i as int) == p@.take(i as int),
        decreases p.len() - i,
    {
        if v[i] != p[i] {
            assert(v@.take(p.len() as int)[i as int] != p@[i as int]);
            return false;
        }
        assert(v@.take(i + 1) =~= v@.take(i as int).push(v@[i as int]));
        assert(p@.take(i + 1) =~= p@.take(i as int).push(p@[i as int]));
        i = i + 1;
    }
    assert(p@.take(p.len() as int) =~= p@);
    true
}

/// Whether `p` occurs in `v` at position `at`.
fn occurs_at(v: &Vec<char>, p: &Vec<char>, at: usize) -> (b: bool)
    requires
        at + p.len() <= v.len(),
    ensures
        b == (v@.subrange(at as int, at + p.len()) == p@),
{
    let mut i: usize = 0;
    while i < p.len()
        invariant
            at + p.len() <= v.len(),
            i <= p.len(),
            v@.subrange(at as int, at + i) == p@.take(i as int),
        decreases p.len() - i,
    {
        if v[at + i] != p[i] {
            assert(v@.subrange(at as int, at + p.len())[i as int] != p@[i as int]);
            return false;
        }
        assert(v@.subrange(at as int, at + i + 1) =~= v@.subrange(at as int, at + i).push(
            v@[at + i],
        ));
        assert(p@.take(i + 1) =~= p@.take(i as int).push(p@[i as int]));
        i = i + 1;
    }
    assert(p@.take(p.len() as int) =~= p@);
    true
}

/// Whether `p` occurs in `v`.
pub fn has_infix(v: &Vec<char>, p: &Vec<char>) -> (b: bool)
    ensures
        b == contains(v@, p@),
{
    if p.len() > v.len() {
        return false;
    }
    if p.len() == 0 {
        assert(v@.subrange(0, 0 + p@.len() as int) =~= p@);
        return true;
    }
    let last = v.len() - p.len();
    let mut i: usize = 0;
    while i <= last
        invariant
            last + p.len() == v.len(),
            p.len() > 0,
            forall|j: int| 0 <= j < i ==> #[trigger] v@.subrange(j, j + p.len()) != p@,
        decreases last + 1 - i,
    {
        if occurs_at(v, p, i) {
            return true;
        }
        i = i + 1;
    }
    false
}


/// Whether two character vectors hold the same characters.
pub fn same_chars(a: &Vec<char>, b: &Vec<char>) -> (r: bool)
    ensures
        r == (a@ == b@),
{
    if a.len() != b.len() {
        return false;
    }
    let mut i: usize = 0;
    while i < a.len()
        invariant
            a.len() == b.len(),
            i <= a.len(),
            a@.take(i as int) == b@.take(i as int),
        decreases a.len() - i,
    {
        if a[i] != b[i] {
            return false;
        }
        assert(a@.take(i + 1) =~= a@.take(i as int).push(a@[i as int]));
        assert(b@.take(i + 1) =~= b@.take(i as int).push(b@[i as int]));
        i = i + 1;
    }
    assert(a@.take(a.len() as int) =~= a@);
    assert(b@.take(b.len() as int) =~= b@);
    true
}

/// Whether two strings hold the same characters.
pub fn str_eq(a: &str, b: &str) -> (r: bool)
    ensures
        r == (a@ == b@),
{
    let x = chars_of(a);
    let y = chars_of(b);
    same_chars(&x, &y)
}

/// A string made of the characters of `v`.
pub fn string_from(v: &Vec<char>) -> (s: String)
    ensures
        s@ == v@,
{
    let s = string_of(v, 0, v.len());
    assert(v@.subrange(0, v.len() as int) =~= v@);
    s
}

/// The concatenation of two strings.
pub fn concat2(a: &str, b: &str) -> (s: String)
    ensures
        s@ == a@ + b@,
{
    let mut s = a.to_owned();
    for c in it: b.chars()
        invariant
            it.seq() == b@,
            s@ == a@ + it.seq().take(it.index()),
    {
        push_char(&mut s, c);
        assert(it.seq().take(it.index() + 1) =~= it.seq().take(it.index()).push(c));
    }
    assert(b@.take(b@.len() as int) =~= b@);
    s
}

/// The concatenation of three strings.
pub fn concat3(a: &str, b: &str, c: &str) -> (s: String)
    ensures
        s@ == a@ + b@ + c@,
{
    let ab = concat2(a, b);
    concat2(ab.as_str(), c)
}


/// The characters of an optional string.
pub open spec fn opt_chars(o: Option<String>) -> Option<Seq<char>> {
    match o {
        Some(s) => Some(s@),
        None => None,
    }
}

/// The character sequences of a list of strings.
pub open spec fn strs(v: Seq<String>) -> Seq<Seq<char>> {
    v.map_values(|s: String| s@)
}

/// The lines of a string slice.
pub fn lines_of_str(text: &str) -> (ls: Vec<Vec<char>>)
    ensures
        seqs(ls@) == lines(text@),
{
    let v = chars_of(text);
    lines_of(&v)
}

/// `s` without leading and trailing whitespace.
pub fn trim_str(s: &str) -> (r: String)
    ensures
        r@ == trim(s@),
{
    let v = chars_of(s);
    let t = trimmed(&v);
    string_from(&t)
}

/// The whitespace-separated words of `s`.
pub fn words_of_str(s: &str) -> (ws: Vec<String>)
    ensures
        strs(ws@) == words(s@),
{
    let v = chars_of(s);
    let w = words_of(&v);
    let mut out: Vec<String> = Vec::new();
    let mut i: usize = 0;
    while i < w.len()
        invariant
            i <= w.len(),
            strs(out@) == seqs(w@).take(i as int),
        decreases w.len() - i,
    {
        let ghost prev = strs(out@);
        out.push(string_from(&w[i]));
        assert(strs(out@) =~= prev.push(w@[i as int]@));
        assert(seqs(w@).take(i + 1) =~= seqs(w@).take(i as int).push(w@[i as int]@));
        i = i + 1;
    }
    assert(seqs(w@).take(w.len() as int) =~= seqs(w@));
    out
}


/// Appends the characters of `v`.
pub fn extend_chars(out: &mut Vec<char>, v: &Vec<char>)
    ensures
        final(out)@ == old(out)@ + v@,
{
    let mut i: usize = 0;
    while i < v.len()
        invariant
            i <= v.len(),
            out@ == old(out)@ + v@.take(i as int),
        decreases v.len() - i,
    {
        out.push(v[i]);
        assert(v@.take(i + 1) =~= v@.take(i as int).push(v@[i as int]));
        i = i + 1;
    }
    assert(v@.take(v.len() as int) =~= v@);
}

/// The lines after the first `n`, none when there are no more.
pub open spec fn after(ls: Seq<Seq<char>>, n: int) -> Seq<Seq<char>> {
    if ls.len() <= n {
        Seq::empty()
    } else {
        ls.skip(n)
    }
}


/// Splitting at newlines two texts joined by a newline gives the pieces of the first
/// and then those of the second.
pub proof fn lemma_split_newline_join(x: Seq<char>, z: Seq<char>)
    ensures
        split_char(x + seq!['\n'] + z, '\n') == split_char(x, '\n') + split_char(z, '\n'),
    decreases z.len(),
{
    let xn = x + seq!['\n'];
    if z.len() == 0 {
        assert(xn + z =~= xn);
        assert(xn.drop_last() =~= x);
    } else {
        let z0 = z.drop_last();
        lemma_split_newline_join(x, z0);
        lemma_split_char_len(z0, '\n');
        assert((xn + z).drop_last() =~= xn + z0);
        assert((xn + z).last() == z.last());
        let r = split_char(x, '\n') + split_char(z0, '\n');
        if z.last() == '\n' {
            assert(split_char(xn + z, '\n') =~= r.push(Seq::empty()));
            assert(split_char(x, '\n') + split_char(z, '\n') =~= r.push(Seq::empty()));
        } else {
            let sz0 = split_char(z0, '\n');
            assert(split_char(z, '\n') == sz0.update(sz0.len() - 1, sz0.last().push(z.last())));
            assert(split_char(xn + z, '\n') == r.update(r.len() - 1, r.last().push(z.last())));
            assert(split_char(xn + z, '\n') =~= split_char(x, '\n') + split_char(z, '\n'));
        }
    }
}

/// Text without `c` put before another text joins the first piece of its split.
pub proof fn lemma_split_prepend(x: Seq<char>, y: Seq<char>, c: char)
    requires
        forall|i: int| 0 <= i < x.len() ==> x[i] != c,
    ensures
        split_char(x + y, c) == split_char(y, c).update(0, x + split_char(y, c)[0]),
    decreases y.len(),
{
    if y.len() == 0 {
        lemma_split_char_append(Seq::empty(), x, c);
        assert(Seq::<char>::empty() + x =~= x);
        assert(x + y =~= x);
        assert(split_char(Seq::<char>::empty(), c) =~= seq![Seq::<char>::empty()]);
        assert(x + Seq::<char>::empty() =~= x);
        assert(split_char(x + y, c) =~= split_char(y, c).update(0, x + split_char(y, c)[0]));
    } else {
        let y0 = y.drop_last();
        lemma_split_prepend(x, y0, c);
        lemma_split_char_len(y0, c);
        assert((x + y).drop_last() =~= x + y0);
        assert((x + y).last() == y.last());
        let sy0 = split_char(y0, c);
        if y.last() == c {
            assert(split_char(x + y, c) =~= split_char(y, c).update(0, x + split_char(y, c)[0]));
        } else {
            assert(split_char(y, c) == sy0.update(sy0.len() - 1, sy0.last().push(y.last())));
            if sy0.len() == 1 {
                assert((x + sy0[0]).push(y.last()) =~= x + sy0[0].push(y.last()));
            }
            assert(split_char(x + y, c) =~= split_char(y, c).update(0, x + split_char(y, c)[0]));
        }
    }
}

/// Trimming leaves a text alone that begins and ends with other than whitespace.
pub proof fn lemma_trim_keeps(l: Seq<char>)
    requires
        l.len() > 0,
        !is_ws(l[0]),
        !is_ws(l.last()),
    ensures
        trim(l) == l,
{
    assert(trim_start(l) == l);
    assert(trim_end(l) == l);
}

/// Trimming keeps the first character that is not whitespace.
pub proof fn lemma_trim_first(l: Seq<char>, j: int)
    requires
        0 <= j < l.len(),
        forall|i: int| 0 <= i < j ==> is_ws(#[trigger] l[i]),
        !is_ws(l[j]),
    ensures
        trim(l).len() > 0,
        trim(l)[0] == l[j],
{
    lemma_trim_start_skips(l, j);
    lemma_trim_end_keeps_first(l.skip(j));
}

proof fn lemma_trim_start_skips(l: Seq<char>, j: int)
    requires
        0 <= j < l.len(),
        forall|i: int| 0 <= i < j ==> is_ws(#[trigger] l[i]),
        !is_ws(l[j]),
    ensures
        trim_start(l) == l.skip(j),
    decreases j,
{
    if j > 0 {
        let r = l.drop_first();
        assert forall|i: int| 0 <= i < j - 1 implies is_ws(#[trigger] r[i]) by {
            assert(r[i] == l[i + 1]);
        }
        assert(is_ws(l[0]));
        lemma_trim_start_skips(r, j - 1);
        assert(r.skip(j - 1) =~= l.skip(j));
    } else {
        assert(l.skip(0) =~= l);
    }
}

proof fn lemma_trim_end_keeps_first(m: Seq<char>)
    requires
        m.len() > 0,
        !is_ws(m[0]),
    ensures
        trim_end(m).len() > 0,
        trim_end(m)[0] == m[0],
    decreases m.len(),
{
    if is_ws(m.last()) {
        assert(m.len() > 1);
        lemma_trim_end_keeps_first(m.drop_last());
    }
}

/// The lines that are not empty, in order.
pub open spec fn non_empty(ls: Seq<Seq<char>>) -> Seq<Seq<char>>
    decreases ls.len(),
{
    if ls.len() == 0 {
        ls
    } else if ls.last().len() == 0 {
        non_empty(ls.drop_last())
    } else {
        non_empty(ls.drop_last()).push(ls.last())
    }
}


/// Where the text that `trim_start` leaves begins.
pub proof fn lemma_trim_start_offset(x: Seq<char>) -> (k: int)
    ensures
        0 <= k <= x.len(),
        trim_start(x) == x.skip(k),
        forall|i: int| 0 <= i < k ==> is_ws(#[trigger] x[i]),
        k < x.len() ==> !is_ws(x[k]),
    decreases x.len(),
{
    if x.len() > 0 && is_ws(x[0]) {
        let k1 = lemma_trim_start_offset(x.drop_first());
        assert(x.drop_first().skip(k1) =~= x.skip(k1 + 1));
        assert forall|i: int| 0 <= i < k1 + 1 implies is_ws(#[trigger] x[i]) by {
            if i > 0 {
                assert(x[i] == x.drop_first()[i - 1]);
            }
        }
        if k1 + 1 < x.len() {
            assert(x[k1 + 1] == x.drop_first()[k1]);
        }
        k1 + 1
    } else {
        assert(x.skip(0) =~= x);
        0
    }
}

/// How long the text is that `trim_end` leaves.
pub proof fn lemma_trim_end_length(y: Seq<char>) -> (m: int)
    ensures
        0 <= m <= y.len(),
        trim_end(y) == y.take(m),
        forall|i: int| m <= i < y.len() ==> is_ws(#[trigger] y[i]),
        m > 0 ==> !is_ws(y[m - 1]),
    decreases y.len(),
{
    if y.len() > 0 && is_ws(y.last()) {
        let m1 = lemma_trim_end_length(y.drop_last());
        assert(y.drop_last().take(m1) =~= y.take(m1));
        assert forall|i: int| m1 <= i < y.len() implies is_ws(#[trigger] y[i]) by {
            if i < y.len() - 1 {
                assert(y[i] == y.drop_last()[i]);
            }
        }
        if m1 > 0 {
            assert(y[m1 - 1] == y.drop_last()[m1 - 1]);
        }
        m1
    } else {
        assert(y.take(y.len() as int) =~= y);
        y.len() as int
    }
}

/// Where a piece of a split lies in the split text; the last piece reaches its end.
pub proof fn lemma_piece_range(s: Seq<char>, c: char, i: int) -> (r: (int, int))
    requires
        0 <= i < split_char(s, c).len(),
    ensures
        0 <= r.0 <= r.1 <= s.len(),
        split_char(s, c)[i] == s.subrange(r.0, r.1),
        i == split_char(s, c).len() - 1 ==> r.1 == s.len(),
    decreases s.len(),
{
    if s.len() == 0 {
        assert(s.subrange(0, 0) =~= Seq::<char>::empty());
        (0, 0)
    } else {
        let prev = s.drop_last();
        let r = split_char(prev, c);
        lemma_split_char_len(prev, c);
        if s.last() == c && i == r.len() {
            assert(s.subrange(s.len() as int, s.len() as int) =~= Seq::<char>::empty());
            (s.len() as int, s.len() as int)
        } else {
            let q = lemma_piece_range(prev, c, i);
            if s.last() != c && i == r.len() - 1 {
                assert(r[i].push(s.last()) =~= s.subrange(q.0, s.len() as int));
                (q.0, s.len() as int)
            } else {
                assert(prev.subrange(q.0, q.1) =~= s.subrange(q.0, q.1));
                q
            }
        }
    }
}


/// A text that begins with a character other than whitespace has a word.
pub proof fn lemma_words_nonempty(s: Seq<char>)
    requires
        s.len() > 0,
        !is_ws(s[0]),
    ensures
        words(s).len() > 0,
    decreases s.len(),
{
    if s.len() > 1 {
        let p = s.drop_last();
        assert(p[0] == s[0]);
        lemma_words_nonempty(p);
    }
}


/// What trimming leaves: a part of the text, with only whitespace before and after
/// it, that neither begins nor ends with whitespace.
pub proof fn law_trim(x: Seq<char>)
    ensures
        trim(x).len() > 0 ==> !is_ws(trim(x)[0]) && !is_ws(trim(x).last()),
        exists|k: int|
            0 <= k && k + trim(x).len() <= x.len() && #[trigger] x.subrange(k, k + trim(x).len()) == trim(x)
                && (forall|i: int| 0 <= i < k ==> is_ws(#[trigger] x[i])) && (forall|i: int|
                k + trim(x).len() <= i < x.len() ==> is_ws(#[trigger] x[i])),
{
    let k = lemma_trim_start_offset(x);
    let y = x.skip(k);
    let m = lemma_trim_end_length(y);
    assert(trim(x) =~= x.subrange(k, k + m));
    if m > 0 {
        assert(trim(x)[0] == x[k]);
        assert(trim(x).last() == y[m - 1]);
    }
    assert forall|i: int| k + m <= i < x.len() implies is_ws(#[trigger] x[i]) by {
        assert(x[i] == y[i - k]);
    }
}

/// A text whose last character is not whitespace has a word.
proof fn lemma_words_last(s: Seq<char>)
    requires
        s.len() > 0,
        !is_ws(s.last()),
    ensures
        words(s).len() > 0,
    decreases s.len(),
{
    if s.len() >= 2 && !is_ws(s[s.len() - 2]) {
        lemma_words_last(s.drop_last());
    }
}

/// The words of two texts joined by a space are the words of the first, then those
/// of the second.
pub proof fn law_words_join(x: Seq<char>, y: Seq<char>)
    ensures
        words(x + seq![' '] + y) == words(x) + words(y),
    decreases y.len(),
{
    let xs = x + seq![' '];
    if y.len() == 0 {
        assert(xs + y =~= xs);
        assert(xs.drop_last() =~= x);
        assert(words(x) + words(y) =~= words(x));
    } else {
        let y0 = y.drop_last();
        law_words_join(x, y0);
        let s = xs + y;
        assert(s.drop_last() =~= xs + y0);
        assert(s.last() == y.last());
        let ch = y.last();
        if !is_ws(ch) {
            if y0.len() > 0 && !is_ws(y0.last()) {
                assert(s[s.len() - 2] == y0.last());
                assert(y[y.len() - 2] == y0.last());
                lemma_words_last(y0);
                assert(words(s) =~= words(x) + words(y));
            } else {
                if y0.len() > 0 {
                    assert(s[s.len() - 2] == y0.last());
                    assert(y[y.len() - 2] == y0.last());
                } else {
                    assert(s[s.len() - 2] == ' ');
                }
                assert(words(s) =~= words(x) + words(y));
            }
        } else {
            assert(words(s) =~= words(x) + words(y));
        }
    }
}


/// A run of characters none of which is whitespace is one word.
pub proof fn law_words_single(s: Seq<char>)
    requires
        s.len() > 0,
        forall|i: int| 0 <= i < s.len() ==> !is_ws(#[trigger] s[i]),
    ensures
        words(s) == seq![s],
    decreases s.len(),
{
    if s.len() > 1 {
        let p = s.drop_last();
        assert forall|i: int| 0 <= i < p.len() implies !is_ws(#[trigger] p[i]) by {
            assert(p[i] == s[i]);
        }
        law_words_single(p);
        assert(!is_ws(s[s.len() - 2]));
        assert(!is_ws(s[s.len() - 1]));
        assert(p.push(s.last()) =~= s);
        assert(words(s) == words(p).update(0, words(p).last().push(s.last())));
        assert(words(s) =~= seq![s]);
    } else {
        assert(!is_ws(s[0]));
        assert(s.drop_last() =~= Seq::<char>::empty());
        assert(seq![s.last()] =~= s);
        assert(words(s.drop_last()) == Seq::<Seq<char>>::empty());
        assert(words(s) == Seq::<Seq<char>>::empty().push(seq![s.last()]));
        assert(words(s) =~= seq![s]);
    }
}

/// A line ended by a carriage return and a newline reads as the line alone.
pub proof fn law_line_crlf(l: Seq<char>)
    requires
        forall|i: int| 0 <= i < l.len() ==> l[i] != '\n',
    ensures
        lines(l + seq!['\r', '\n']) == seq![l],
{
    let lr = l + seq!['\r'];
    assert forall|i: int| 0 <= i < seq!['\r'].len() implies seq!['\r'][i] != '\n' by {}
    lemma_split_char_append(Seq::empty(), lr, '\n');
    assert(Seq::<char>::empty() + lr =~= lr);
    assert forall|i: int| 0 <= i < lr.len() implies lr[i] != '\n' by {
        if i < l.len() {
            assert(lr[i] == l[i]);
        }
    }
    assert(split_char(Seq::<char>::empty(), '\n') =~= seq![Seq::<char>::empty()]);
    assert(split_char(lr, '\n') =~= seq![lr]);
    let s = l + seq!['\r', '\n'];
    assert(s.drop_last() =~= lr);
    assert(split_char(s, '\n') =~= seq![lr, Seq::<char>::empty()]);
    assert(lr.drop_last() =~= l);
    assert(lines(s) =~= seq![l]);
}

} // verus!
