//! Text as sequences of characters: the small vocabulary in which the rest of
//! the library states what it reads and writes.
use vstd::prelude::*;

verus! {

/// `String::push` appends the given character to the end of the string.
pub assume_specification[ String::push ](s: &mut String, c: char)
    ensures
        final(s)@ == old(s)@.push(c),
;

/// The texts of a sequence of strings.
pub open spec fn views(v: Seq<String>) -> Seq<Seq<char>> {
    v.map_values(|s: String| s@)
}

/// The text of an optional string.
pub open spec fn opt_view(o: Option<String>) -> Option<Seq<char>> {
    match o {
        Some(s) => Some(s@),
        None => None,
    }
}

/// The characters of `s`, in order.
pub fn chars(s: &str) -> (out: Vec<char>)
    ensures
        out@ == s@,
{
    let mut out: Vec<char> = Vec::new();
    for c in it: s.chars()
        invariant
            out@ == it.seq().take(it.index()),
            it.seq() == s@,
    {
        out.push(c);
    }
    out
}

/// The characters `from..to` of `v` as a string.
pub fn string_of(v: &Vec<char>, from: usize, to: usize) -> (out: String)
    requires
        from <= to <= v.len(),
    ensures
        out@ == v@.subrange(from as int, to as int),
{
    let mut out = String::new();
    let mut i: usize = from;
    assert(out@ == v@.subrange(from as int, i as int));
    while i < to
        invariant
            from <= i <= to <= v.len(),
            out@ == v@.subrange(from as int, i as int),
        decreases to - i,
    {
        out.push(v[i]);
        i += 1;
        assert(out@ == v@.subrange(from as int, i as int));
    }
    out
}

/// Whether two character vectors hold the same text.
pub fn same_chars(a: &Vec<char>, b: &Vec<char>) -> (r: bool)
    ensures
        r == (a@ == b@),
{
    if a.len() != b.len() {
        return false;
    }
    let mut i: usize = 0;
    while i < a.len()
        invariant
            i <= a.len() == b.len(),
            forall|k: int| 0 <= k < i ==> a@[k] == b@[k],
        decreases a.len() - i,
    {
        if a[i] != b[i] {
            assert(a@[i as int] != b@[i as int]);
            return false;
        }
        i += 1;
    }
    assert(a@ =~= b@);
    true
}

/// Whether two strings hold the same text.
pub fn same(a: &str, b: &str) -> (r: bool)
    ensures
        r == (a@ == b@),
{
    let x = chars(a);
    let y = chars(b);
    same_chars(&x, &y)
}

/// The code point of `c`.
pub fn code(c: char) -> (n: u32)
    ensures
        n == c as int,
        n <= 0x10ffff,
{
    c as u32
}

/// The characters with the Unicode property `White_Space`.
pub open spec fn is_space(c: char) -> bool {
    let n = c as int;
    ||| 0x09 <= n <= 0x0d
    ||| n == 0x20
    ||| n == 0x85
    ||| n == 0xa0
    ||| n == 0x1680
    ||| 0x2000 <= n <= 0x200a
    ||| n == 0x2028
    ||| n == 0x2029
    ||| n == 0x202f
    ||| n == 0x205f
    ||| n == 0x3000
}

/// Whether `c` is white space.
pub fn space(c: char) -> (r: bool)
    ensures
        r == is_space(c),
{
    let n: u32 = code(c);
    (0x09 <= n && n <= 0x0d) || n == 0x20 || n == 0x85 || n == 0xa0 || n == 0x1680 || (0x2000 <= n
        && n <= 0x200a) || n == 0x2028 || n == 0x2029 || n == 0x202f || n == 0x205f || n == 0x3000
}

/// `s` without the white space it starts with.
pub open spec fn trimmed_start(s: Seq<char>) -> Seq<char>
    decreases s.len(),
{
    if s.len() > 0 && is_space(s[0]) {
        trimmed_start(s.drop_first())
    } else {
        s
    }
}

/// `s` without the white space it ends with.
pub open spec fn trimmed_end(s: Seq<char>) -> Seq<char>
    decreases s.len(),
{
    if s.len() > 0 && is_space(s.last()) {
        trimmed_end(s.drop_last())
    } else {
        s
    }
}

/// `s` without the white space at either end.
pub open spec fn trimmed(s: Seq<char>) -> Seq<char> {
    trimmed_end(trimmed_start(s))
}

/// Whether `s` holds white space only.
pub open spec fn is_blank(s: Seq<char>) -> bool {
    forall|i: int| 0 <= i < s.len() ==> is_space(#[trigger] s[i])
}

/// A text is blank exactly when nothing is left of it after trimming.
pub proof fn lemma_blank_trimmed(s: Seq<char>)
    ensures
        is_blank(s) == (trimmed(s).len() == 0),
        is_blank(s) == (trimmed_start(s).len() == 0),
        is_blank(s) == (trimmed_end(s).len() == 0),
{
    lemma_trimmed_start_blank(s);
    lemma_trimmed_end_blank(s);
    lemma_trimmed_end_blank(trimmed_start(s));
    if trimmed_start(s).len() > 0 {
        lemma_trimmed_start_first(s);
        assert(!is_space(trimmed_start(s)[0]));
    }
}

proof fn lemma_trimmed_start_first(s: Seq<char>)
    ensures
        trimmed_start(s).len() > 0 ==> !is_space(trimmed_start(s)[0]),
    decreases s.len(),
{
    if s.len() > 0 && is_space(s[0]) {
        lemma_trimmed_start_first(s.drop_first());
    }
}

proof fn lemma_trimmed_start_blank(s: Seq<char>)
    ensures
        is_blank(s) == (trimmed_start(s).len() == 0),
    decreases s.len(),
{
    if s.len() > 0 && is_space(s[0]) {
        let t = s.drop_first();
        lemma_trimmed_start_blank(t);
        assert forall|i: int| is_blank(t) && 0 <= i < s.len() implies is_space(#[trigger] s[i]) by {
            if i > 0 {
                assert(s[i] == t[i - 1]);
            }
        }
        assert forall|i: int| is_blank(s) && 0 <= i < t.len() implies is_space(#[trigger] t[i]) by {
            assert(t[i] == s[i + 1]);
        }
    }
}

proof fn lemma_trimmed_end_blank(s: Seq<char>)
    ensures
        is_blank(s) == (trimmed_end(s).len() == 0),
    decreases s.len(),
{
    if s.len() > 0 && is_space(s.last()) {
        let t = s.drop_last();
        lemma_trimmed_end_blank(t);
        assert forall|i: int| is_blank(t) && 0 <= i < s.len() implies is_space(#[trigger] s[i]) by {
            if i < t.len() {
                assert(s[i] == t[i]);
            }
        }
        assert forall|i: int| is_blank(s) && 0 <= i < t.len() implies is_space(#[trigger] t[i]) by {
            assert(t[i] == s[i]);
        }
    }
}

/// The index of the first character of `v` that is no white space.
fn start_index(v: &Vec<char>) -> (from: usize)
    ensures
        from <= v.len(),
        v@.skip(from as int) == trimmed_start(v@),
{
    let mut i: usize = 0;
    assert(v@.skip(0) == v@);
    while i < v.len() && space(v[i])
        invariant
            i <= v.len(),
            trimmed_start(v@.skip(i as int)) == trimmed_start(v@),
        decreases v.len() - i,
    {
        assert(v@.skip(i as int).drop_first() == v@.skip(i + 1));
        i += 1;
    }
    i
}

/// The end of what is left of `v[from..]` after trimming its end.
fn end_index(v: &Vec<char>, from: usize) -> (to: usize)
    requires
        from <= v.len(),
    ensures
        from <= to <= v.len(),
        v@.subrange(from as int, to as int) == trimmed_end(v@.skip(from as int)),
{
    let mut j: usize = v.len();
    assert(v@.subrange(from as int, j as int) == v@.skip(from as int));
    while j > from && space(v[j - 1])
        invariant
            from <= j <= v.len(),
            trimmed_end(v@.subrange(from as int, j as int)) == trimmed_end(v@.skip(from as int)),
        decreases j,
    {
        assert(v@.subrange(from as int, j as int).drop_last() == v@.subrange(
            from as int,
            j - 1,
        ));
        assert(v@.subrange(from as int, j as int).last() == v@[j - 1]);
        j -= 1;
    }
    assert(j > from ==> v@.subrange(from as int, j as int).last() == v@[j - 1]);
    j
}

/// `s` without the white space at either end.
pub fn trim(s: &str) -> (out: String)
    ensures
        out@ == trimmed(s@),
{
    let v = chars(s);
    let from: usize = start_index(&v);
    let to: usize = end_index(&v, from);
    string_of(&v, from, to)
}

/// `s` without the white space it starts with.
pub fn trim_start(s: &str) -> (out: String)
    ensures
        out@ == trimmed_start(s@),
{
    let v = chars(s);
    let from: usize = start_index(&v);
    string_of(&v, from, v.len())
}

/// `s` without the white space it ends with.
pub fn trim_end(s: &str) -> (out: String)
    ensures
        out@ == trimmed_end(s@),
{
    let v = chars(s);
    let to: usize = end_index(&v, 0);
    assert(v@.skip(0) == v@);
    string_of(&v, 0, to)
}

/// Whether `s` holds white space only.
pub fn blank(s: &str) -> (r: bool)
    ensures
        r == is_blank(s@),
        r == (trimmed(s@).len() == 0),
{
    let v = chars(s);
    let from: usize = start_index(&v);
    proof {
        lemma_blank_trimmed(s@);
    }
    from == v.len()
}

/// The index of the first `c` in `s`, or the length of `s` where there is none.
pub open spec fn first_index(s: Seq<char>, c: char) -> int
    decreases s.len(),
{
    if s.len() == 0 || s[0] == c {
        0
    } else {
        1 + first_index(s.drop_first(), c)
    }
}

/// What pins the first index of a character down.
pub proof fn lemma_first_index(s: Seq<char>, c: char)
    ensures
        0 <= first_index(s, c) <= s.len(),
        first_index(s, c) < s.len() ==> s[first_index(s, c)] == c,
        forall|k: int| 0 <= k < first_index(s, c) ==> s[k] != c,
    decreases s.len(),
{
    if s.len() > 0 && s[0] != c {
        let t = s.drop_first();
        lemma_first_index(t, c);
        assert forall|k: int| 0 <= k < first_index(s, c) implies s[k] != c by {
            if k > 0 {
                assert(s[k] == t[k - 1]);
            }
        }
    }
}

/// An index before which `c` does not occur, and at which it does or `s` ends, is the first.
pub proof fn lemma_is_first_index(s: Seq<char>, c: char, n: int)
    requires
        0 <= n <= s.len(),
        n < s.len() ==> s[n] == c,
        forall|k: int| 0 <= k < n ==> s[k] != c,
    ensures
        first_index(s, c) == n,
{
    lemma_first_index(s, c);
    let m = first_index(s, c);
    if m < n {
        assert(s[m] != c);
    }
    if n < m {
        assert(s[n] != c);
    }
}

/// The first index at or after `from` at which `v` holds `c`, or the length of `v`.
pub fn index_from(v: &Vec<char>, c: char, from: usize) -> (n: usize)
    requires
        from <= v.len(),
    ensures
        from <= n <= v.len(),
        n - from == first_index(v@.skip(from as int), c),
        n < v.len() ==> v@[n as int] == c,
        forall|k: int| from <= k < n ==> v@[k] != c,
{
    let mut i: usize = from;
    while i < v.len() && v[i] != c
        invariant
            from <= i <= v.len(),
            forall|k: int| from <= k < i ==> v@[k] != c,
        decreases v.len() - i,
    {
        i += 1;
    }
    proof {
        let s = v@.skip(from as int);
        assert forall|k: int| 0 <= k < i - from implies s[k] != c by {
            assert(s[k] == v@[k + from]);
        }
        lemma_is_first_index(s, c, i - from);
    }
    i
}

/// `s` without the carriage return it ends with, if it does.
pub open spec fn without_cr(s: Seq<char>) -> Seq<char> {
    if s.len() > 0 && s.last() == '\r' {
        s.drop_last()
    } else {
        s
    }
}

/// The lines of `s`: the pieces that a line feed ends, each without that line
/// feed and without a carriage return just before it, and the rest where it is
/// not empty.
pub open spec fn lines_of(s: Seq<char>) -> Seq<Seq<char>>
    decreases s.len(),
    via lines_of_decreases
{
    let n = first_index(s, '\n');
    if s.len() == 0 {
        seq![]
    } else if n >= s.len() {
        seq![s]
    } else {
        seq![without_cr(s.take(n))] + lines_of(s.skip(n + 1))
    }
}

#[via_fn]
proof fn lines_of_decreases(s: Seq<char>) {
    lemma_first_index(s, '\n');
}

/// The lines of `s`.
pub fn lines(s: &str) -> (out: Vec<String>)
    ensures
        views(out@) == lines_of(s@),
{
    let v = chars(s);
    let mut out: Vec<String> = Vec::new();
    let mut start: usize = 0;
    assert(v@.skip(0) == v@);
    assert(views(out@) + lines_of(v@.skip(0)) == lines_of(v@));
    while start < v.len()
        invariant
            start <= v.len(),
            views(out@) + lines_of(v@.skip(start as int)) == lines_of(v@),
        decreases v.len() - start,
    {
        let ghost rest = v@.skip(start as int);
        let ghost before = views(out@);
        let n: usize = index_from(&v, '\n', start);
        if n == v.len() {
            let line = string_of(&v, start, n);
            assert(line@ == rest);
            out.push(line);
            assert(views(out@) == before.push(rest));
            start = n;
            assert(v@.skip(start as int) == Seq::<char>::empty());
            assert(before.push(rest) == before + seq![rest]);
            assert(lines_of(rest) == seq![rest]);
            assert(lines_of(v@.skip(start as int)) == Seq::<Seq<char>>::empty());
            assert(views(out@) + lines_of(v@.skip(start as int)) == before + seq![rest]);
        } else {
            let mut end: usize = n;
            if end > start && v[end - 1] == '\r' {
                end -= 1;
            }
            let line = string_of(&v, start, end);
            proof {
                let piece = rest.take(n - start);
                assert(piece == v@.subrange(start as int, n as int));
                if n > start {
                    assert(piece.last() == v@[n - 1]);
                }
                assert(line@ == without_cr(piece));
                assert(rest.skip(n - start + 1) == v@.skip(n + 1));
            }
            out.push(line);
            assert(views(out@) == before + seq![line@]);
            start = n + 1;
            assert(before + (seq![line@] + lines_of(v@.skip(start as int))) == (before + seq![
                line@,
            ]) + lines_of(v@.skip(start as int)));
        }
    }
    assert(v@.skip(start as int) == Seq::<char>::empty());
    assert(views(out@) + Seq::<Seq<char>>::empty() == views(out@));
    out
}

/// The pieces of `s` between the occurrences of `c`; one where there is none.
pub open spec fn split_of(s: Seq<char>, c: char) -> Seq<Seq<char>>
    decreases s.len(),
    via split_of_decreases
{
    let n = first_index(s, c);
    if n >= s.len() {
        seq![s]
    } else {
        seq![s.take(n)] + split_of(s.skip(n + 1), c)
    }
}

#[via_fn]
proof fn split_of_decreases(s: Seq<char>, c: char) {
    lemma_first_index(s, c);
}

/// The pieces of `s` between the occurrences of `c`.
pub fn split(s: &str, c: char) -> (out: Vec<String>)
    ensures
        views(out@) == split_of(s@, c),
        out.len() > 0,
{
    let v = chars(s);
    let mut out: Vec<String> = Vec::new();
    let mut start: usize = 0;
    let mut n: usize = index_from(&v, c, start);
    assert(v@.skip(0) == v@);
    assert(views(out@) + split_of(v@.skip(0), c) == split_of(v@, c));
    while n < v.len()
        invariant
            start <= n <= v.len(),
            n - start == first_index(v@.skip(start as int), c),
            n < v.len() ==> v@[n as int] == c,
            views(out@) + split_of(v@.skip(start as int), c) == split_of(v@, c),
        decreases v.len() - start,
    {
        let ghost rest = v@.skip(start as int);
        let ghost before = views(out@);
        let piece = string_of(&v, start, n);
        assert(piece@ == rest.take(n - start));
        assert(rest.skip(n - start + 1) == v@.skip(n + 1));
        out.push(piece);
        start = n + 1;
        n = index_from(&v, c, start);
        assert(views(out@) == before + seq![piece@]);
        assert(before + (seq![piece@] + split_of(v@.skip(start as int), c)) == (before + seq![
            piece@,
        ]) + split_of(v@.skip(start as int), c));
    }
    let ghost before = views(out@);
    let piece = string_of(&v, start, n);
    assert(piece@ == v@.skip(start as int));
    out.push(piece);
    assert(views(out@) == before + seq![piece@]);
    out
}

/// The texts `parts` one after the other, with `sep` between any two.
pub open spec fn joined(parts: Seq<Seq<char>>, sep: Seq<char>) -> Seq<char>
    decreases parts.len(),
{
    if parts.len() == 0 {
        seq![]
    } else if parts.len() == 1 {
        parts[0]
    } else {
        joined(parts.drop_last(), sep) + sep + parts.last()
    }
}

/// The strings of `parts` one after the other, with `sep` between any two.
pub fn join(parts: &Vec<String>, sep: &str) -> (out: String)
    ensures
        out@ == joined(views(parts@), sep@),
{
    let mut out = String::new();
    let mut i: usize = 0;
    assert(views(parts@).take(0) == Seq::<Seq<char>>::empty());
    while i < parts.len()
        invariant
            i <= parts.len(),
            out@ == joined(views(parts@).take(i as int), sep@),
        decreases parts.len() - i,
    {
        if i > 0 {
            out.append(sep);
        }
        out.append(parts[i].as_str());
        assert(views(parts@).take(i + 1).drop_last() == views(parts@).take(i as int));
        assert(views(parts@).take(i + 1).last() == parts@[i as int]@);
        i += 1;
    }
    assert(views(parts@).take(i as int) == views(parts@));
    out
}

/// Joining what splitting at `c` gave gives the text back.
pub proof fn lemma_split_joined(s: Seq<char>, c: char)
    ensures
        joined(split_of(s, c), seq![c]) == s,
        split_of(s, c).len() > 0,
    decreases s.len(),
{
    let n = first_index(s, c);
    lemma_first_index(s, c);
    if n >= s.len() {
    } else {
        let rest = s.skip(n + 1);
        lemma_split_joined(rest, c);
        lemma_joined_front(s.take(n), split_of(rest, c), seq![c]);
        assert(s == s.take(n) + seq![c] + rest);
    }
}

/// Joining with one more text in front.
pub proof fn lemma_joined_front(first: Seq<char>, parts: Seq<Seq<char>>, sep: Seq<char>)
    requires
        parts.len() > 0,
    ensures
        joined(seq![first] + parts, sep) == first + sep + joined(parts, sep),
    decreases parts.len(),
{
    let all = seq![first] + parts;
    assert(all.last() == parts.last());
    if parts.len() == 1 {
        assert(all.drop_last() == seq![first]);
        assert(joined(seq![first], sep) == first);
    } else {
        assert(all.drop_last() == seq![first] + parts.drop_last());
        lemma_joined_front(first, parts.drop_last(), sep);
        assert(first + sep + joined(parts.drop_last(), sep) + sep + parts.last() == first + sep + (
        joined(parts.drop_last(), sep) + sep + parts.last()));
    }
}

/// Whether `t` stands in `s` at index `i`.
pub open spec fn occurs_at(s: Seq<char>, t: Seq<char>, i: int) -> bool {
    &&& 0 <= i <= s.len() - t.len()
    &&& s.subrange(i, i + t.len()) == t
}

/// Whether `t` stands anywhere in `s`.
pub open spec fn occurs(s: Seq<char>, t: Seq<char>) -> bool {
    exists|i: int| occurs_at(s, t, i)
}

/// What stands in a text is no longer than the text.
pub proof fn lemma_occurs_len(s: Seq<char>, t: Seq<char>)
    ensures
        occurs(s, t) ==> t.len() <= s.len(),
{
    if occurs(s, t) {
        let i = choose|i: int| occurs_at(s, t, i);
        assert(0 <= i <= s.len() - t.len());
    }
}

/// Whether `t` stands in `v` at index `i`.
pub fn stands_at(v: &Vec<char>, t: &Vec<char>, i: usize) -> (r: bool)
    requires
        i <= v.len(),
    ensures
        r == occurs_at(v@, t@, i as int),
{
    if t.len() > v.len() - i {
        return false;
    }
    let mut k: usize = 0;
    while k < t.len()
        invariant
            i <= v.len(),
            k <= t.len() <= v.len() - i,
            forall|j: int| 0 <= j < k ==> v@[i + j] == t@[j],
        decreases t.len() - k,
    {
        if v[i + k] != t[k] {
            assert(v@.subrange(i as int, i + t.len())[k as int] == v@[i + k]);
            return false;
        }
        k += 1;
    }
    assert(v@.subrange(i as int, i + t.len()) =~= t@);
    true
}

/// Whether `t` stands anywhere in `s`.
pub fn contains(s: &str, t: &str) -> (r: bool)
    ensures
        r == occurs(s@, t@),
{
    let v = chars(s);
    let w = chars(t);
    let mut i: usize = 0;
    while i < v.len()
        invariant
            i <= v.len(),
            v@ == s@,
            w@ == t@,
            forall|k: int| 0 <= k < i ==> !occurs_at(v@, w@, k),
        decreases v.len() - i,
    {
        if stands_at(&v, &w, i) {
            return true;
        }
        i += 1;
    }
    stands_at(&v, &w, i)
}

/// Whether `s` starts with `t`.
pub fn starts_with(s: &str, t: &str) -> (r: bool)
    ensures
        r == t@.is_prefix_of(s@),
{
    let v = chars(s);
    let w = chars(t);
    let r = stands_at(&v, &w, 0);
    proof {
        if w.len() <= v.len() {
            assert(v@.subrange(0, w@.len() as int) == v@.take(w@.len() as int));
        }
    }
    r
}

/// Whether `s` ends with `t`.
pub fn ends_with(s: &str, t: &str) -> (r: bool)
    ensures
        r == t@.is_suffix_of(s@),
{
    let v = chars(s);
    let w = chars(t);
    if w.len() > v.len() {
        return false;
    }
    stands_at(&v, &w, v.len() - w.len())
}

/// What follows the prefix `t` in `s`, where `s` starts with it.
pub fn strip_prefix(s: &str, t: &str) -> (out: Option<String>)
    ensures
        opt_view(out) == (if t@.is_prefix_of(s@) {
            Some(s@.skip(t@.len() as int))
        } else {
            None
        }),
{
    if !starts_with(s, t) {
        return None;
    }
    let v = chars(s);
    let w = chars(t);
    Some(string_of(&v, w.len(), v.len()))
}

/// The decimal digit of value `d`.
pub open spec fn digit(d: nat) -> char
    recommends
        d < 10,
{
    (48 + d) as char
}

/// `n` in decimal, without leading zeros.
pub open spec fn decimal(n: nat) -> Seq<char>
    decreases n,
{
    if n < 10 {
        seq![digit(n)]
    } else {
        decimal(n / 10).push(digit(n % 10))
    }
}

/// Writes `n` in decimal at the end of `out`.
pub fn push_decimal(out: &mut String, n: u64)
    ensures
        final(out)@ == old(out)@ + decimal(n as nat),
    decreases n,
{
    if n >= 10 {
        push_decimal(out, n / 10);
    }
    let d: u8 = 48 + (n % 10) as u8;
    out.push(d as char);
}

/// `n` in decimal, without leading zeros.
pub fn decimal_string(n: u64) -> (out: String)
    ensures
        out@ == decimal(n as nat),
{
    let mut out = String::new();
    push_decimal(&mut out, n);
    out
}

/// Whether `c` is an ASCII decimal digit.
pub open spec fn is_digit(c: char) -> bool {
    48 <= c as int <= 57
}

/// Whether `s` holds ASCII decimal digits only.
pub open spec fn all_digits(s: Seq<char>) -> bool {
    forall|i: int| 0 <= i < s.len() ==> is_digit(#[trigger] s[i])
}

/// The number that the decimal digits `s` write.
pub open spec fn number_of(s: Seq<char>) -> nat
    decreases s.len(),
{
    if s.len() == 0 {
        0
    } else {
        number_of(s.drop_last()) * 10 + (s.last() as int - 48) as nat
    }
}

/// The number that `s` writes, where it is an optional plus sign and at least
/// one decimal digit, and the number fits in 32 bits.
pub open spec fn parsed_u32(s: Seq<char>) -> Option<nat> {
    let d = if s.len() > 0 && s[0] == '+' {
        s.drop_first()
    } else {
        s
    };
    if d.len() > 0 && all_digits(d) && number_of(d) <= u32::MAX {
        Some(number_of(d))
    } else {
        None
    }
}

proof fn lemma_number_grows(s: Seq<char>, i: int)
    requires
        0 <= i <= s.len(),
    ensures
        number_of(s.take(i)) <= number_of(s),
    decreases s.len(),
{
    if i < s.len() {
        lemma_number_grows(s.drop_last(), i);
        assert(s.drop_last().take(i) == s.take(i));
    } else {
        assert(s.take(i) == s);
    }
}

/// The number that `s` writes, where it writes one that fits in 32 bits.
pub fn parse_u32(s: &str) -> (out: Option<u32>)
    ensures
        match out {
            Some(n) => parsed_u32(s@) == Some(n as nat),
            None => parsed_u32(s@) is None,
        },
{
    let v = chars(s);
    let from: usize = if v.len() > 0 && v[0] == '+' {
        1
    } else {
        0
    };
    let ghost d = if s@.len() > 0 && s@[0] == '+' {
        s@.drop_first()
    } else {
        s@
    };
    assert(d == v@.skip(from as int));
    if from == v.len() {
        return None;
    }
    let mut n: u32 = 0;
    let mut i: usize = from;
    assert(d.take(0) == Seq::<char>::empty());
    while i < v.len()
        invariant
            from <= i <= v.len(),
            d == v@.skip(from as int),
            d == (if s@.len() > 0 && s@[0] == '+' {
                s@.drop_first()
            } else {
                s@
            }),
            forall|k: int| 0 <= k < i - from ==> is_digit(#[trigger] d[k]),
            n == number_of(d.take(i - from)),
        decreases v.len() - i,
    {
        let c = v[i];
        let point: u32 = code(c);
        assert(d[i - from] == c);
        if point < 48 || point > 57 {
            return None;
        }
        assert(d.take(i - from + 1).drop_last() == d.take(i - from));
        assert(d.take(i - from + 1).last() == c);
        proof {
            lemma_number_grows(d, i - from + 1);
        }
        let wide: u64 = n as u64 * 10 + (point - 48) as u64;
        if wide > 0xffff_ffff {
            return None;
        }
        n = wide as u32;
        i += 1;
    }
    assert(d.take(v.len() - from) == d);
    Some(n)
}

/// Reading a decimal back gives the number that was written.
pub proof fn lemma_decimal_parses(n: nat)
    ensures
        n <= u32::MAX ==> parsed_u32(decimal(n)) == Some(n),
        all_digits(decimal(n)),
        decimal(n).len() > 0,
        number_of(decimal(n)) == n,
    decreases n,
{
    reveal_with_fuel(number_of, 2);
    if n < 10 {
        assert(decimal(n).drop_last() == Seq::<char>::empty());
        assert(decimal(n).last() == digit(n));
    } else {
        lemma_decimal_parses(n / 10);
        let d = decimal(n);
        assert(d.drop_last() == decimal(n / 10));
        assert(d.last() == digit(n % 10));
        assert forall|i: int| 0 <= i < d.len() implies is_digit(#[trigger] d[i]) by {
            if i < d.len() - 1 {
                assert(d[i] == decimal(n / 10)[i]);
            }
        }
    }
    assert(is_digit(decimal(n)[0]));
}

/// Whether the text `a` comes before the text `b`, character by character.
pub open spec fn lex_before(a: Seq<char>, b: Seq<char>) -> bool
    decreases a.len(),
{
    if b.len() == 0 {
        false
    } else if a.len() == 0 {
        true
    } else if a[0] == b[0] {
        lex_before(a.drop_first(), b.drop_first())
    } else {
        (a[0] as int) < (b[0] as int)
    }
}

/// No text comes before itself.
pub proof fn lemma_lex_irreflexive(a: Seq<char>)
    ensures
        !lex_before(a, a),
    decreases a.len(),
{
    if a.len() > 0 {
        lemma_lex_irreflexive(a.drop_first());
    }
}

/// The order of texts is transitive.
pub proof fn lemma_lex_transitive(a: Seq<char>, b: Seq<char>, c: Seq<char>)
    requires
        lex_before(a, b),
        lex_before(b, c),
    ensures
        lex_before(a, c),
    decreases a.len(),
{
    if a.len() > 0 && a[0] == b[0] && b[0] == c[0] {
        lemma_lex_transitive(a.drop_first(), b.drop_first(), c.drop_first());
    }
}

/// Of two different texts one comes before the other.
pub proof fn lemma_lex_total(a: Seq<char>, b: Seq<char>)
    ensures
        a == b || lex_before(a, b) || lex_before(b, a),
    decreases a.len(),
{
    if a.len() == 0 && b.len() == 0 {
        assert(a =~= b);
    } else if a.len() > 0 && b.len() > 0 && a[0] == b[0] {
        lemma_lex_total(a.drop_first(), b.drop_first());
        if a.drop_first() == b.drop_first() {
            assert(a =~= seq![a[0]] + a.drop_first());
            assert(b =~= seq![b[0]] + b.drop_first());
        }
    }
}

/// Whether `a` comes before `b`, character by character.
pub fn before(a: &str, b: &str) -> (r: bool)
    ensures
        r == lex_before(a@, b@),
{
    let v = chars(a);
    let w = chars(b);
    let mut i: usize = 0;
    assert(v@.skip(0) == v@);
    assert(w@.skip(0) == w@);
    while i < v.len() && i < w.len() && v[i] == w[i]
        invariant
            i <= v.len(),
            i <= w.len(),
            lex_before(v@.skip(i as int), w@.skip(i as int)) == lex_before(v@, w@),
        decreases v.len() - i,
    {
        assert(v@.skip(i as int).drop_first() == v@.skip(i + 1));
        assert(w@.skip(i as int).drop_first() == w@.skip(i + 1));
        i += 1;
    }
    if i == w.len() {
        false
    } else if i == v.len() {
        true
    } else {
        let x: u32 = code(v[i]);
        let y: u32 = code(w[i]);
        x < y
    }
}

/// `c`, in lower case where it is an ASCII letter.
pub open spec fn lower_char(c: char) -> char {
    if 65 <= c as int <= 90 {
        (c as int + 32) as char
    } else {
        c
    }
}

/// `s` with its ASCII letters in lower case.
pub open spec fn lowered(s: Seq<char>) -> Seq<char> {
    s.map_values(|c: char| lower_char(c))
}

/// `s` with its ASCII letters in lower case.
pub fn lower(s: &str) -> (out: String)
    ensures
        out@ == lowered(s@),
{
    let v = chars(s);
    let mut out = String::new();
    let mut i: usize = 0;
    while i < v.len()
        invariant
            i <= v.len(),
            out@ == lowered(v@.take(i as int)),
        decreases v.len() - i,
    {
        let c = v[i];
        let n: u32 = code(c);
        if 65 <= n && n <= 90 {
            out.push((n as u8 + 32) as char);
        } else {
            out.push(c);
        }
        assert(out@ == lowered(v@.take(i + 1)));
        i += 1;
    }
    assert(v@.take(i as int) == v@);
    out
}

/// `n` times the character `c`.
pub open spec fn repeated(c: char, n: nat) -> Seq<char> {
    Seq::new(n, |i: int| c)
}

/// The lines of a text that another one, `s`, and a line feed start: those of
/// `s`, each piece of which is a line, and those of the rest.
pub proof fn lemma_lines_append(s: Seq<char>, tail: Seq<char>)
    ensures
        lines_of(s + seq!['\n'] + tail) == split_of(s, '\n').map_values(
            |p: Seq<char>| without_cr(p),
        ) + lines_of(tail),
    decreases s.len(),
{
    let whole = s + seq!['\n'] + tail;
    let strip = |p: Seq<char>| without_cr(p);
    let n = first_index(s, '\n');
    lemma_first_index(s, '\n');
    assert(forall|k: int| 0 <= k < s.len() ==> whole[k] == s[k]);
    assert(whole[s.len() as int] == '\n');
    if n >= s.len() {
        lemma_is_first_index(whole, '\n', s.len() as int);
        assert(whole.take(s.len() as int) == s);
        assert(whole.skip(s.len() as int + 1) == tail);
        assert(seq![s].map_values(strip) == seq![without_cr(s)]);
    } else {
        lemma_is_first_index(whole, '\n', n);
        let rest = s.skip(n + 1);
        lemma_lines_append(rest, tail);
        assert(whole.take(n) == s.take(n));
        assert(whole.skip(n + 1) == rest + seq!['\n'] + tail);
        let front = seq![s.take(n)];
        assert((front + split_of(rest, '\n')).map_values(strip) == seq![without_cr(s.take(n))]
            + split_of(rest, '\n').map_values(strip));
        assert(seq![without_cr(s.take(n))] + (split_of(rest, '\n').map_values(strip) + lines_of(
            tail,
        )) == seq![without_cr(s.take(n))] + split_of(rest, '\n').map_values(strip) + lines_of(tail));
    }
}

} // verus!
