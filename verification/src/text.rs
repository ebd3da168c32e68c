//! Text as a sequence of characters: splitting, trimming, searching, and the
//! case of letters.

use vstd::prelude::*;
use vstd::slice::slice_subrange;

verus! {

/// Appends one character to a `String` (`String::push`): the contents grow by
/// exactly that character, at the end.
pub assume_specification[ String::push ](s: &mut String, c: char)
    ensures
        final(s)@ == old(s)@.push(c),
;

/// The characters of `s`, in order.
pub fn to_chars(s: &str) -> (r: Vec<char>)
    ensures
        r@ == s@,
{
    let mut r: Vec<char> = Vec::new();
    for c in it: s.chars()
        invariant
            it.seq() == s@,
            r@ == s@.take(it.index() as int),
    {
        r.push(c);
        assert(s@.take(it.index() as int + 1) =~= s@.take(it.index() as int).push(c));
    }
    assert(s@.take(s@.len() as int) =~= s@);
    r
}

/// The text made of the characters in `s`.
pub fn to_text(s: &[char]) -> (r: String)
    ensures
        r@ == s@,
{
    let mut r = String::new();
    let mut i: usize = 0;
    while i < s.len()
        invariant
            i <= s@.len(),
            r@ == s@.take(i as int),
        decreases s@.len() - i,
    {
        r.push(s[i]);
        assert(s@.take(i + 1) =~= s@.take(i as int).push(s@[i as int]));
        i += 1;
    }
    assert(s@.take(i as int) =~= s@);
    r
}

/// Appends the characters of `tail` to `out`.
pub fn push_all(out: &mut Vec<char>, tail: &[char])
    ensures
        final(out)@ == old(out)@ + tail@,
{
    let mut i: usize = 0;
    assert(old(out)@ + tail@.take(0) =~= old(out)@);
    while i < tail.len()
        invariant
            i <= tail@.len(),
            out@ == old(out)@ + tail@.take(i as int),
        decreases tail@.len() - i,
    {
        out.push(tail[i]);
        assert(old(out)@ + tail@.take(i + 1) =~= (old(out)@ + tail@.take(i as int)).push(
            tail@[i as int],
        ));
        i += 1;
    }
    assert(tail@.take(i as int) =~= tail@);
}

/// The views of a list of slices.
pub open spec fn views(pieces: Seq<&[char]>) -> Seq<Seq<char>> {
    pieces.map_values(|p: &[char]| p@)
}

/// The views of a list of strings.
pub open spec fn texts(list: Seq<String>) -> Seq<Seq<char>> {
    list.map_values(|s: String| s@)
}

/// The view of an optional text.
pub open spec fn opt_str(s: Option<&str>) -> Option<Seq<char>> {
    match s {
        Some(s) => Some(s@),
        None => None,
    }
}

/// The view of an optional string.
pub open spec fn opt_string(s: Option<String>) -> Option<Seq<char>> {
    match s {
        Some(s) => Some(s@),
        None => None,
    }
}

/// Whether the two slices hold the same characters.
pub fn same(a: &[char], b: &[char]) -> (r: bool)
    ensures
        r == (a@ == b@),
{
    if a.len() != b.len() {
        return false;
    }
    let mut i: usize = 0;
    while i < a.len()
        invariant
            i <= a@.len() == b@.len(),
            a@.take(i as int) == b@.take(i as int),
        decreases a@.len() - i,
    {
        if a[i] != b[i] {
            assert(a@[i as int] != b@[i as int]);
            return false;
        }
        assert(a@.take(i + 1) =~= a@.take(i as int).push(a@[i as int]));
        assert(b@.take(i + 1) =~= b@.take(i as int).push(b@[i as int]));
        i += 1;
    }
    assert(a@.take(i as int) =~= a@);
    assert(b@.take(i as int) =~= b@);
    true
}

/// Whether `s` holds exactly the text `t`.
pub fn is_text(s: &[char], t: &str) -> (r: bool)
    ensures
        r == (s@ == t@),
{
    let t = to_chars(t);
    same(s, t.as_slice())
}

// ---------------------------------------------------------------------------
// Splitting
// ---------------------------------------------------------------------------

/// The pieces of `s` between the separators `sep`: one more than there are
/// separators, so the empty text has one (empty) piece.
pub open spec fn split(s: Seq<char>, sep: char) -> Seq<Seq<char>>
    decreases s.len(),
{
    if s.len() == 0 {
        seq![Seq::empty()]
    } else {
        let front = split(s.drop_last(), sep);
        if s.last() == sep {
            front.push(Seq::empty())
        } else {
            front.drop_last().push(front.last().push(s.last()))
        }
    }
}

/// `pieces` written one after the other, with `sep` between neighbours.
pub open spec fn join(pieces: Seq<Seq<char>>, sep: char) -> Seq<char>
    decreases pieces.len(),
{
    if pieces.len() == 0 {
        Seq::empty()
    } else if pieces.len() == 1 {
        pieces[0]
    } else {
        join(pieces.drop_last(), sep).push(sep) + pieces.last()
    }
}

/// Splitting yields at least one piece; no piece holds the separator; and the
/// pieces joined by the separator are the text again.
pub proof fn split_characterized(s: Seq<char>, sep: char)
    ensures
        split(s, sep).len() >= 1,
        forall|i: int| 0 <= i < split(s, sep).len() ==> !(#[trigger] split(s, sep)[i]).contains(sep),
        join(split(s, sep), sep) == s,
    decreases s.len(),
{
    let pieces = split(s, sep);
    if s.len() == 0 {
        assert(pieces[0] =~= s);
    } else {
        let front = split(s.drop_last(), sep);
        split_characterized(s.drop_last(), sep);
        if s.last() == sep {
            assert(pieces.drop_last() =~= front);
            assert(pieces.last() =~= Seq::empty());
            assert(join(pieces, sep) =~= s);
        } else {
            let last = front.last().push(s.last());
            assert(pieces.drop_last() =~= front.drop_last());
            assert(!last.contains(sep)) by {
                if last.contains(sep) {
                    let k = choose|k: int| 0 <= k < last.len() && last[k] == sep;
                    assert(front.last()[k] == sep);
                    assert(front[front.len() - 1].contains(sep));
                }
            }
            assert forall|i: int| 0 <= i < pieces.len() implies !(
            #[trigger] pieces[i]).contains(sep) by {
                if i < pieces.len() - 1 {
                    assert(pieces[i] == front[i]);
                }
            }
            if front.len() > 1 {
                assert(join(front, sep) == join(front.drop_last(), sep).push(sep) + front.last());
            }
            assert(join(pieces, sep) =~= join(front, sep).push(s.last()));
            assert(join(pieces, sep) =~= s);
        }
    }
}

/// A separator between two texts parts their pieces.
pub proof fn split_concat(a: Seq<char>, b: Seq<char>, sep: char)
    ensures
        split(a.push(sep) + b, sep) == split(a, sep) + split(b, sep),
    decreases b.len(),
{
    let s = a.push(sep) + b;
    split_characterized(a, sep);
    if b.len() == 0 {
        assert(s =~= a.push(sep));
        assert(s.drop_last() =~= a);
        assert(split(s, sep) =~= split(a, sep) + split(b, sep));
    } else {
        split_concat(a, b.drop_last(), sep);
        split_characterized(b.drop_last(), sep);
        assert(s.drop_last() =~= a.push(sep) + b.drop_last());
        assert(split(s, sep) =~= split(a, sep) + split(b, sep));
    }
}

/// A text without the separator is one piece.
pub proof fn split_whole(s: Seq<char>, sep: char)
    requires
        !s.contains(sep),
    ensures
        split(s, sep) == seq![s],
    decreases s.len(),
{
    if s.len() == 0 {
        assert(s =~= Seq::empty());
    } else {
        let front = s.drop_last();
        assert(s[s.len() - 1] != sep);
        assert(!front.contains(sep)) by {
            if front.contains(sep) {
                let k = choose|k: int| 0 <= k < front.len() && front[k] == sep;
                assert(s[k] == sep);
            }
        }
        split_whole(front, sep);
        assert(s =~= front.push(s.last()));
        assert(split(s, sep) =~= seq![s]);
    }
}

/// A text without the separator belongs to the first piece of what follows it.
pub proof fn split_prefix(a: Seq<char>, b: Seq<char>, sep: char)
    requires
        !a.contains(sep),
    ensures
        split(a + b, sep) == seq![a + split(b, sep)[0]] + split(b, sep).skip(1),
    decreases b.len(),
{
    let all = split(a + b, sep);
    split_characterized(b, sep);
    if b.len() == 0 {
        assert(a + b =~= a);
        split_whole(a, sep);
        assert(all =~= seq![a + split(b, sep)[0]] + split(b, sep).skip(1));
    } else {
        let front = b.drop_last();
        split_prefix(a, front, sep);
        split_characterized(front, sep);
        assert((a + b).drop_last() =~= a + front);
        let pieces = split(front, sep);
        if b.last() != sep && pieces.len() == 1 {
            assert(split(b, sep)[0] =~= pieces[0].push(b.last()));
            assert(a + pieces[0].push(b.last()) =~= (a + pieces[0]).push(b.last()));
        }
        assert(all =~= seq![a + split(b, sep)[0]] + split(b, sep).skip(1));
    }
}

/// A text without the separator belongs to the last piece of what precedes it.
pub proof fn split_suffix(a: Seq<char>, b: Seq<char>, sep: char)
    requires
        forall|i: int| 0 <= i < b.len() ==> b[i] != sep,
    ensures
        split(a + b, sep) == split(a, sep).drop_last().push(split(a, sep).last() + b),
    decreases b.len(),
{
    let front = split(a, sep);
    split_characterized(a, sep);
    if b.len() == 0 {
        assert(a + b =~= a);
        assert(front.last() + b =~= front.last());
        assert(front.drop_last().push(front.last()) =~= front);
    } else {
        split_suffix(a, b.drop_last(), sep);
        assert((a + b).drop_last() =~= a + b.drop_last());
        assert(b[b.len() - 1] != sep);
        assert((front.last() + b.drop_last()).push(b.last()) =~= front.last() + b);
        assert(split(a + b, sep) =~= front.drop_last().push(front.last() + b));
    }
}

/// Splits `s` at every `sep`.
pub fn split_at_each<'a>(s: &'a [char], sep: char) -> (r: Vec<&'a [char]>)
    ensures
        views(r@) == split(s@, sep),
{
    let mut r: Vec<&'a [char]> = Vec::new();
    let mut start: usize = 0;
    let mut i: usize = 0;
    assert(s@.take(0) =~= Seq::empty());
    assert(split(s@.take(0), sep) =~= views(r@).push(s@.subrange(0, 0)));
    while i < s.len()
        invariant
            start <= i <= s@.len(),
            split(s@.take(i as int), sep) == views(r@).push(s@.subrange(start as int, i as int)),
        decreases s@.len() - i,
    {
        let ghost front = split(s@.take(i as int), sep);
        assert(s@.take(i + 1).drop_last() =~= s@.take(i as int));
        if s[i] == sep {
            let ghost before = views(r@);
            let piece = slice_subrange(s, start, i);
            r.push(piece);
            assert(views(r@) =~= before.push(piece@));
            start = i + 1;
            assert(s@.subrange(start as int, i + 1) =~= Seq::empty());
        } else {
            assert(front.drop_last() =~= views(r@));
            assert(s@.subrange(start as int, i + 1) =~= front.last().push(s@[i as int]));
        }
        i += 1;
    }
    assert(s@.take(i as int) =~= s@);
    let ghost before = views(r@);
    let piece = slice_subrange(s, start, s.len());
    r.push(piece);
    assert(views(r@) =~= before.push(piece@));
    r
}

/// The index of the first `c` in `s`, or the length of `s` if there is none.
pub open spec fn first(s: Seq<char>, c: char) -> int
    decreases s.len(),
{
    if s.len() == 0 || s[0] == c {
        0
    } else {
        1 + first(s.drop_first(), c)
    }
}

/// `first` is the only index that no `c` precedes and at which `s` ends or
/// holds `c`.
pub proof fn first_is(s: Seq<char>, c: char, i: int)
    requires
        0 <= i <= s.len(),
        forall|j: int| 0 <= j < i ==> s[j] != c,
        i == s.len() || s[i] == c,
    ensures
        first(s, c) == i,
    decreases s.len(),
{
    if s.len() > 0 && s[0] != c {
        let rest = s.drop_first();
        assert forall|j: int| 0 <= j < i - 1 implies rest[j] != c by {
            assert(rest[j] == s[j + 1]);
        }
        first_is(rest, c, i - 1);
    }
}

/// No `c` precedes `first`, which is the end of `s` or the index of a `c`.
pub proof fn first_bounds(s: Seq<char>, c: char)
    ensures
        0 <= first(s, c) <= s.len(),
        forall|j: int| 0 <= j < first(s, c) ==> s[j] != c,
        first(s, c) < s.len() ==> s[first(s, c)] == c,
    decreases s.len(),
{
    if s.len() > 0 && s[0] != c {
        let rest = s.drop_first();
        first_bounds(rest, c);
        assert forall|j: int| 0 <= j < first(s, c) implies s[j] != c by {
            if j > 0 {
                assert(rest[j - 1] == s[j]);
            }
        }
    }
}

/// What stands before and after the first `c` of `s`; `None` without a `c`.
pub open spec fn split_once(s: Seq<char>, c: char) -> Option<(Seq<char>, Seq<char>)> {
    let i = first(s, c);
    if i < s.len() {
        Some((s.take(i), s.skip(i + 1)))
    } else {
        None
    }
}

/// What stands before a `c` and holds none is what `split_once` splits off.
pub proof fn split_once_is(a: Seq<char>, c: char, b: Seq<char>)
    requires
        !a.contains(c),
    ensures
        split_once(a.push(c) + b, c) == Some((a, b)),
{
    let s = a.push(c) + b;
    assert forall|j: int| 0 <= j < a.len() implies s[j] != c by {
        assert(a.contains(a[j]));
    }
    first_is(s, c, a.len() as int);
    assert(s.take(a.len() as int) =~= a);
    assert(s.skip(a.len() as int + 1) =~= b);
}

/// `split_once` parts a text at its first `c`, exactly where it has one.
pub proof fn split_once_parts(s: Seq<char>, c: char)
    ensures
        split_once(s, c) is Some <==> s.contains(c),
        split_once(s, c) matches Some((a, b)) ==> s == a.push(c) + b && !a.contains(c),
{
    first_bounds(s, c);
    let i = first(s, c);
    if i < s.len() {
        let a = s.take(i);
        assert(s =~= a.push(c) + s.skip(i + 1));
        if a.contains(c) {
            let k = choose|k: int| 0 <= k < a.len() && a[k] == c;
            assert(s[k] != c);
        }
    } else if s.contains(c) {
        let k = choose|k: int| 0 <= k < s.len() && s[k] == c;
        assert(s[k] != c);
    }
}

/// Splits `s` at its first `c`.
pub fn split_at_first<'a>(s: &'a [char], c: char) -> (r: Option<(&'a [char], &'a [char])>)
    ensures
        match r {
            Some((a, b)) => split_once(s@, c) == Some((a@, b@)),
            None => split_once(s@, c) is None,
        },
{
    let mut i: usize = 0;
    while i < s.len() && s[i] != c
        invariant
            i <= s@.len(),
            forall|j: int| 0 <= j < i ==> s@[j] != c,
        decreases s@.len() - i,
    {
        i += 1;
    }
    proof {
        first_is(s@, c, i as int);
    }
    if i < s.len() {
        let a = slice_subrange(s, 0, i);
        let b = slice_subrange(s, i + 1, s.len());
        assert(a@ =~= s@.take(i as int));
        assert(b@ =~= s@.skip(i + 1));
        Some((a, b))
    } else {
        None
    }
}

// ---------------------------------------------------------------------------
// Trimming
// ---------------------------------------------------------------------------

/// The characters with the Unicode property `White_Space`.
pub open spec fn white_space(c: char) -> bool {
    ||| '\u{9}' <= c <= '\u{d}'
    ||| c == ' '
    ||| c == '\u{85}'
    ||| c == '\u{a0}'
    ||| c == '\u{1680}'
    ||| '\u{2000}' <= c <= '\u{200a}'
    ||| c == '\u{2028}'
    ||| c == '\u{2029}'
    ||| c == '\u{202f}'
    ||| c == '\u{205f}'
    ||| c == '\u{3000}'
}

/// `char::is_whitespace`: whether `c` has the Unicode property `White_Space`.
pub assume_specification[ char::is_whitespace ](c: char) -> (r: bool)
    ensures
        r == white_space(c),
;

/// `s` without the white space that it starts with.
pub open spec fn trim_start(s: Seq<char>) -> Seq<char>
    decreases s.len(),
{
    if s.len() > 0 && white_space(s[0]) {
        trim_start(s.drop_first())
    } else {
        s
    }
}

/// `s` without the white space that it ends with.
pub open spec fn trim_end(s: Seq<char>) -> Seq<char>
    decreases s.len(),
{
    if s.len() > 0 && white_space(s.last()) {
        trim_end(s.drop_last())
    } else {
        s
    }
}

/// `s` without white space at either end.
pub open spec fn trim(s: Seq<char>) -> Seq<char> {
    trim_end(trim_start(s))
}

/// Removes the white space at both ends of `s`.
pub fn trimmed<'a>(s: &'a [char]) -> (r: &'a [char])
    ensures
        r@ == trim(s@),
{
    let mut i: usize = 0;
    assert(s@.skip(0) =~= s@);
    while i < s.len() && s[i].is_whitespace()
        invariant
            i <= s@.len(),
            trim_start(s@.skip(i as int)) == trim_start(s@),
        decreases s@.len() - i,
    {
        assert(s@.skip(i as int).drop_first() =~= s@.skip(i + 1));
        i += 1;
    }
    let mut j: usize = s.len();
    let ghost front = trim_start(s@);
    assert(s@.subrange(i as int, j as int) =~= s@.skip(i as int));
    while i < j && s[j - 1].is_whitespace()
        invariant
            i <= j <= s@.len(),
            trim_end(s@.subrange(i as int, j as int)) == trim_end(front),
        decreases j - i,
    {
        assert(s@.subrange(i as int, j as int).drop_last() =~= s@.subrange(i as int, j - 1));
        j -= 1;
    }
    slice_subrange(s, i, j)
}

/// Trimming leaves no white space at either end, and what it keeps is a
/// stretch of the text with nothing but white space around it.
pub proof fn trim_characterized(s: Seq<char>)
    ensures
        trim(s).len() > 0 ==> !white_space(trim(s)[0]) && !white_space(trim(s).last()),
        exists|i: int, j: int|
            0 <= i <= j <= s.len() && trim(s) == s.subrange(i, j) && (forall|k: int|
                0 <= k < i || j <= k < s.len() ==> white_space(#[trigger] s[k])),
{
    trim_start_characterized(s);
    let i = choose|i: int|
        0 <= i <= s.len() && trim_start(s) == s.skip(i) && (forall|k: int|
            0 <= k < i ==> white_space(#[trigger] s[k]));
    let t = s.skip(i);
    trim_end_characterized(t);
    let j = choose|j: int|
        0 <= j <= t.len() && trim_end(t) == t.take(j) && (forall|k: int|
            j <= k < t.len() ==> white_space(#[trigger] t[k]));
    assert(trim(s) =~= s.subrange(i, i + j));
    assert forall|k: int| 0 <= k < i || i + j <= k < s.len() implies white_space(
        #[trigger] s[k],
    ) by {
        if k >= i + j {
            assert(t[k - i] == s[k]);
        }
    }
    if trim(s).len() > 0 {
        assert(trim(s)[0] == t[0]);
    }
}

proof fn trim_start_characterized(s: Seq<char>)
    ensures
        trim_start(s).len() > 0 ==> !white_space(trim_start(s)[0]),
        exists|i: int|
            0 <= i <= s.len() && trim_start(s) == s.skip(i) && (forall|k: int|
                0 <= k < i ==> white_space(#[trigger] s[k])),
    decreases s.len(),
{
    if s.len() > 0 && white_space(s[0]) {
        let rest = s.drop_first();
        trim_start_characterized(rest);
        let i = choose|i: int|
            0 <= i <= rest.len() && trim_start(rest) == rest.skip(i) && (forall|k: int|
                0 <= k < i ==> white_space(#[trigger] rest[k]));
        assert(rest.skip(i) =~= s.skip(i + 1));
        assert forall|k: int| 0 <= k < i + 1 implies white_space(#[trigger] s[k]) by {
            if k > 0 {
                assert(rest[k - 1] == s[k]);
            }
        }
    } else {
        assert(s.skip(0) =~= s);
    }
}

proof fn trim_end_characterized(s: Seq<char>)
    ensures
        trim_end(s).len() > 0 ==> !white_space(trim_end(s).last()),
        exists|j: int|
            0 <= j <= s.len() && trim_end(s) == s.take(j) && (forall|k: int|
                j <= k < s.len() ==> white_space(#[trigger] s[k])),
    decreases s.len(),
{
    if s.len() > 0 && white_space(s.last()) {
        let rest = s.drop_last();
        trim_end_characterized(rest);
        let j = choose|j: int|
            0 <= j <= rest.len() && trim_end(rest) == rest.take(j) && (forall|k: int|
                j <= k < rest.len() ==> white_space(#[trigger] rest[k]));
        assert(rest.take(j) =~= s.take(j));
        assert forall|k: int| j <= k < s.len() implies white_space(#[trigger] s[k]) by {
            if k < s.len() - 1 {
                assert(rest[k] == s[k]);
            }
        }
    } else {
        assert(s.take(s.len() as int) =~= s);
    }
}

// ---------------------------------------------------------------------------
// Searching
// ---------------------------------------------------------------------------

/// Whether `s` begins with `p`.
pub open spec fn starts_with(s: Seq<char>, p: Seq<char>) -> bool {
    p.len() <= s.len() && s.take(p.len() as int) == p
}

/// Whether `s` ends with `p`.
pub open spec fn ends_with(s: Seq<char>, p: Seq<char>) -> bool {
    p.len() <= s.len() && s.skip(s.len() - p.len()) == p
}

/// Whether `p` stands in `s` from index `i` on.
pub open spec fn occurs_at(s: Seq<char>, p: Seq<char>, i: int) -> bool {
    0 <= i && i + p.len() <= s.len() && s.subrange(i, i + p.len()) == p
}

/// Whether `p` stands somewhere in `s`.
pub open spec fn contains(s: Seq<char>, p: Seq<char>) -> bool {
    exists|i: int| occurs_at(s, p, i)
}

/// The first index from `i` on at which `p` stands in `s`.
pub open spec fn find_from(s: Seq<char>, p: Seq<char>, i: int) -> Option<int>
    decreases s.len() + 1 - i,
{
    if i < 0 || i + p.len() > s.len() {
        None
    } else if occurs_at(s, p, i) {
        Some(i)
    } else {
        find_from(s, p, i + 1)
    }
}

/// The first index at which `p` stands in `s`.
pub open spec fn find(s: Seq<char>, p: Seq<char>) -> Option<int> {
    find_from(s, p, 0)
}

/// `find` is the least index at which `p` stands in `s`, and `None` exactly
/// where `s` does not hold `p`.
pub proof fn find_characterized(s: Seq<char>, p: Seq<char>)
    ensures
        find(s, p) is Some <==> contains(s, p),
        find(s, p) matches Some(i) ==> occurs_at(s, p, i) && (forall|j: int|
            j < i ==> !#[trigger] occurs_at(s, p, j)),
{
    find_from_characterized(s, p, 0);
}

proof fn find_from_characterized(s: Seq<char>, p: Seq<char>, i: int)
    requires
        0 <= i,
        forall|j: int| j < i ==> !#[trigger] occurs_at(s, p, j),
    ensures
        find_from(s, p, i) is Some <==> contains(s, p),
        find_from(s, p, i) matches Some(k) ==> occurs_at(s, p, k) && (forall|j: int|
            j < k ==> !#[trigger] occurs_at(s, p, j)),
    decreases s.len() + 1 - i,
{
    if i + p.len() > s.len() {
        assert forall|j: int| !#[trigger] occurs_at(s, p, j) by {}
    } else if !occurs_at(s, p, i) {
        find_from_characterized(s, p, i + 1);
    }
}

/// Tests whether `p` stands in `s` from index `i` on.
pub fn stands_at(s: &[char], p: &[char], i: usize) -> (r: bool)
    ensures
        r == occurs_at(s@, p@, i as int),
{
    if i > s.len() || p.len() > s.len() - i {
        return false;
    }
    same(slice_subrange(s, i, i + p.len()), p)
}

/// Tests whether `s` begins with `p`.
pub fn has_prefix(s: &[char], p: &str) -> (r: bool)
    ensures
        r == starts_with(s@, p@),
{
    let p = to_chars(p);
    let r = stands_at(s, p.as_slice(), 0);
    if p.len() <= s.len() {
        assert(s@.take(p@.len() as int) =~= s@.subrange(0, 0 + p@.len() as int));
    }
    r
}

/// Tests whether `s` ends with `p`.
pub fn has_suffix(s: &[char], p: &str) -> (r: bool)
    ensures
        r == ends_with(s@, p@),
{
    let p = to_chars(p);
    if p.len() > s.len() {
        return false;
    }
    let k: usize = s.len() - p.len();
    let r = stands_at(s, p.as_slice(), k);
    assert(s@.skip(k as int) =~= s@.subrange(k as int, k as int + p@.len()));
    r
}

/// Finds the first place at which `p` stands in `s`.
pub fn find_text(s: &[char], p: &str) -> (r: Option<usize>)
    ensures
        match r {
            Some(i) => find(s@, p@) == Some(i as int),
            None => find(s@, p@) is None,
        },
{
    let pattern = to_chars(p);
    if pattern.len() > s.len() {
        return None;
    }
    let last: usize = s.len() - pattern.len();
    let mut i: usize = 0;
    while i < last && !stands_at(s, pattern.as_slice(), i)
        invariant
            pattern@ == p@,
            last + p@.len() == s@.len(),
            i <= last,
            find(s@, p@) == find_from(s@, p@, i as int),
        decreases last - i,
    {
        i += 1;
    }
    if stands_at(s, pattern.as_slice(), i) {
        Some(i)
    } else {
        assert(find_from(s@, p@, i + 1) is None);
        None
    }
}

/// Tests whether `p` stands somewhere in `s`.
pub fn has_text(s: &[char], p: &str) -> (r: bool)
    ensures
        r == contains(s@, p@),
{
    proof {
        find_characterized(s@, p@);
    }
    find_text(s, p).is_some()
}

/// Tests whether `c` is one of the characters of `s`.
pub fn has_char(s: &[char], c: char) -> (r: bool)
    ensures
        r == s@.contains(c),
{
    let mut i: usize = 0;
    while i < s.len()
        invariant
            i <= s@.len(),
            forall|j: int| 0 <= j < i ==> s@[j] != c,
        decreases s@.len() - i,
    {
        if s[i] == c {
            assert(s@[i as int] == c);
            return true;
        }
        i += 1;
    }
    false
}

/// The index of the last `c` in `s`, or -1 if there is none.
pub open spec fn last(s: Seq<char>, c: char) -> int
    decreases s.len(),
{
    if s.len() == 0 {
        -1
    } else if s.last() == c {
        s.len() - 1
    } else {
        last(s.drop_last(), c)
    }
}

/// What stands before and after the last `c` of `s`; `None` without a `c`.
pub open spec fn rsplit_once(s: Seq<char>, c: char) -> Option<(Seq<char>, Seq<char>)> {
    let i = last(s, c);
    if i >= 0 {
        Some((s.take(i), s.skip(i + 1)))
    } else {
        None
    }
}

/// What follows a `c` and holds none is what `rsplit_once` splits off.
pub proof fn rsplit_once_is(a: Seq<char>, c: char, b: Seq<char>)
    requires
        !b.contains(c),
    ensures
        rsplit_once(a.push(c) + b, c) == Some((a, b)),
{
    last_is(a, c, b);
    let s = a.push(c) + b;
    assert(s.take(a.len() as int) =~= a);
    assert(s.skip(a.len() as int + 1) =~= b);
}

proof fn last_is(a: Seq<char>, c: char, b: Seq<char>)
    requires
        !b.contains(c),
    ensures
        last(a.push(c) + b, c) == a.len(),
    decreases b.len(),
{
    let s = a.push(c) + b;
    if b.len() == 0 {
        assert(s =~= a.push(c));
    } else {
        let front = b.drop_last();
        assert(b[b.len() - 1] != c);
        assert(!front.contains(c)) by {
            if front.contains(c) {
                let k = choose|k: int| 0 <= k < front.len() && front[k] == c;
                assert(b[k] == c);
            }
        }
        assert(s.drop_last() =~= a.push(c) + front);
        last_is(a, c, front);
    }
}

/// Splits `s` at its last `c`.
pub fn split_at_last<'a>(s: &'a [char], c: char) -> (r: Option<(&'a [char], &'a [char])>)
    ensures
        match r {
            Some((a, b)) => rsplit_once(s@, c) == Some((a@, b@)),
            None => rsplit_once(s@, c) is None,
        },
{
    let mut i: usize = s.len();
    assert(s@.take(i as int) =~= s@);
    while i > 0 && s[i - 1] != c
        invariant
            i <= s@.len(),
            last(s@, c) == last(s@.take(i as int), c),
        decreases i,
    {
        assert(s@.take(i as int).drop_last() =~= s@.take(i - 1));
        i -= 1;
    }
    if i == 0 {
        return None;
    }
    let a = slice_subrange(s, 0, i - 1);
    let b = slice_subrange(s, i, s.len());
    assert(s@.take(i as int).last() == c);
    assert(a@ =~= s@.take(i - 1));
    assert(b@ =~= s@.skip(i as int));
    Some((a, b))
}

// ---------------------------------------------------------------------------
// Letter case
// ---------------------------------------------------------------------------

/// `c` with an ASCII capital letter made small.
pub open spec fn ascii_lower(c: char) -> char {
    if 'A' <= c <= 'Z' {
        ((c as u8 + 32) as u8) as char
    } else {
        c
    }
}

/// `c` with a small ASCII letter made capital.
pub open spec fn ascii_upper(c: char) -> char {
    if 'a' <= c <= 'z' {
        ((c as u8 - 32) as u8) as char
    } else {
        c
    }
}

/// Whether the two texts differ in the case of ASCII letters at most.
pub open spec fn eq_ignore_case(a: Seq<char>, b: Seq<char>) -> bool {
    a.map_values(|c: char| ascii_lower(c)) == b.map_values(|c: char| ascii_lower(c))
}

/// Makes an ASCII capital letter small.
pub fn lower(c: char) -> (r: char)
    ensures
        r == ascii_lower(c),
{
    if 'A' <= c && c <= 'Z' {
        (c as u8 + 32) as char
    } else {
        c
    }
}

/// Makes a small ASCII letter capital.
pub fn upper(c: char) -> (r: char)
    ensures
        r == ascii_upper(c),
{
    if 'a' <= c && c <= 'z' {
        (c as u8 - 32) as char
    } else {
        c
    }
}

/// Tests whether `s` is the text `t`, up to the case of ASCII letters.
pub fn is_text_ignoring_case(s: &[char], t: &str) -> (r: bool)
    ensures
        r == eq_ignore_case(s@, t@),
{
    let other = to_chars(t);
    let ghost a = s@.map_values(|c: char| ascii_lower(c));
    let ghost b = other@.map_values(|c: char| ascii_lower(c));
    if s.len() != other.len() {
        assert(a.len() != b.len());
        return false;
    }
    let mut i: usize = 0;
    while i < s.len()
        invariant
            other@ == t@,
            i <= s@.len() == t@.len(),
            a == s@.map_values(|c: char| ascii_lower(c)),
            b == t@.map_values(|c: char| ascii_lower(c)),
            forall|j: int| 0 <= j < i ==> a[j] == b[j],
        decreases s@.len() - i,
    {
        if lower(s[i]) != lower(other[i]) {
            assert(a[i as int] != b[i as int]);
            return false;
        }
        i += 1;
    }
    assert(a =~= b);
    true
}

/// Whether every character of `s` is ASCII.
pub open spec fn ascii(s: Seq<char>) -> bool {
    forall|i: int| 0 <= i < s.len() ==> (#[trigger] s[i]) <= '\u{7f}'
}

/// A text with `A` to `Z` as `a` to `z` and every other character as it is.
pub open spec fn ascii_lowercase(s: Seq<char>) -> Seq<char> {
    s.map_values(|c: char| ascii_lower(c))
}

/// The lower case of a text that is not ASCII, by the rules of Unicode.
pub uninterp spec fn unicode_lowercase(s: Seq<char>) -> Seq<char>;

/// The lower case of a text.
pub open spec fn lowercase(s: Seq<char>) -> Seq<char> {
    if ascii(s) {
        ascii_lowercase(s)
    } else {
        unicode_lowercase(s)
    }
}

/// `str::to_lowercase`. Its result is a function of the text. On ASCII text
/// it maps `A` to `Z` to `a` to `z` and keeps every other character; what it
/// makes of other text is named and not spelled out.
#[verifier::external_body]
pub(crate) fn to_lowercase(s: &str) -> (r: String)
    ensures
        r@ == if ascii(s@) {
            ascii_lowercase(s@)
        } else {
            unicode_lowercase(s@)
        },
{
    s.to_lowercase()
}

/// `rsplit_once` parts a text at its last `c`, exactly where it has one.
pub proof fn rsplit_once_parts(s: Seq<char>, c: char)
    ensures
        rsplit_once(s, c) is Some <==> s.contains(c),
        rsplit_once(s, c) matches Some((a, b)) ==> s == a.push(c) + b && !b.contains(c),
    decreases s.len(),
{
    if s.len() > 0 {
        let front = s.drop_last();
        assert(s =~= front.push(s.last()));
        if s.last() == c {
            assert(s[s.len() - 1] == c);
            assert(s.take(s.len() - 1) =~= front);
            assert(s.skip(s.len() as int) =~= Seq::empty());
            assert(s =~= front.push(c) + Seq::<char>::empty());
        } else {
            rsplit_once_parts(front, c);
            if s.contains(c) {
                let k = choose|k: int| 0 <= k < s.len() && s[k] == c;
                assert(front[k] == c);
            }
            if let Some((a, b)) = rsplit_once(front, c) {
                let i = last(front, c);
                assert(i < front.len()) by {
                    last_is_inside(front, c);
                }
                assert(s.take(i) =~= a);
                assert(s.skip(i + 1) =~= b.push(s.last()));
                assert(s =~= a.push(c) + b.push(s.last()));
                let more = b.push(s.last());
                if more.contains(c) {
                    let k = choose|k: int| 0 <= k < more.len() && more[k] == c;
                    assert(b[k] == c);
                }
                assert(front[a.len() as int] == c);
                assert(s[a.len() as int] == c);
            }
        }
    }
}

proof fn last_is_inside(s: Seq<char>, c: char)
    ensures
        -1 <= last(s, c) < s.len(),
    decreases s.len(),
{
    if s.len() > 0 {
        last_is_inside(s.drop_last(), c);
    }
}

/// A text starts with another where something follows it, ends with another
/// where something stands before it, and has another where both may.
pub proof fn affixes(s: Seq<char>, a: Seq<char>, p: Seq<char>, b: Seq<char>)
    ensures
        starts_with(p + b, p),
        ends_with(a + p, p),
        contains(a + p + b, p),
        starts_with(s, p) ==> s == p + s.skip(p.len() as int),
        ends_with(s, p) ==> s == s.take(s.len() - p.len()) + p,
        contains(s, p) ==> exists|i: int|
            0 <= i && i + p.len() <= s.len() && #[trigger] s.subrange(i, i + p.len()) == p,
{
    assert((p + b).take(p.len() as int) =~= p);
    let e = a + p;
    assert(e.skip(e.len() - p.len()) =~= p);
    let m = a + p + b;
    assert(m.subrange(a.len() as int, (a.len() + p.len()) as int) =~= p);
    assert(occurs_at(m, p, a.len() as int));
    if starts_with(s, p) {
        assert(s =~= s.take(p.len() as int) + s.skip(p.len() as int));
    }
    if ends_with(s, p) {
        assert(s =~= s.take(s.len() - p.len()) + s.skip(s.len() - p.len()));
    }
    if contains(s, p) {
        let i = choose|i: int| occurs_at(s, p, i);
        assert(s.subrange(i, i + p.len()) == p);
    }
}

/// Only the letters from `A` to `Z` have a lower case, 32 places above them,
/// and only those from `a` to `z` an upper case.
pub proof fn cases_of_letters(c: char)
    ensures
        'A' <= c <= 'Z' ==> ascii_lower(c) as int == c as int + 32,
        !('A' <= c <= 'Z') ==> ascii_lower(c) == c,
        'a' <= c <= 'z' ==> ascii_upper(c) as int == c as int - 32,
        !('a' <= c <= 'z') ==> ascii_upper(c) == c,
{
}

/// Texts are the same but for their case where they have the same length and,
/// place by place, letters with the same lower case.
pub proof fn same_but_for_case(a: Seq<char>, b: Seq<char>)
    ensures
        eq_ignore_case(a, b) <==> a.len() == b.len() && forall|i: int|
            0 <= i < a.len() ==> ascii_lower(#[trigger] a[i]) == ascii_lower(b[i]),
{
    let f = |c: char| ascii_lower(c);
    if eq_ignore_case(a, b) {
        assert(a.map_values(f).len() == b.map_values(f).len());
        assert forall|i: int| 0 <= i < a.len() implies ascii_lower(#[trigger] a[i]) == ascii_lower(
            b[i],
        ) by {
            assert(a.map_values(f)[i] == b.map_values(f)[i]);
        }
    }
    if a.len() == b.len() && forall|i: int|
        0 <= i < a.len() ==> ascii_lower(#[trigger] a[i]) == ascii_lower(b[i]) {
        assert(a.map_values(f) =~= b.map_values(f));
    }
}

/// The views of texts keep every text in its place.
pub proof fn texts_are_kept(list: Seq<String>, pieces: Seq<&[char]>, s: Option<&str>, t: Option<String>)
    ensures
        texts(list).len() == list.len(),
        forall|i: int| 0 <= i < list.len() ==> #[trigger] texts(list)[i] == list[i]@,
        views(pieces).len() == pieces.len(),
        forall|i: int| 0 <= i < pieces.len() ==> #[trigger] views(pieces)[i] == pieces[i]@,
        s matches Some(v) ==> opt_str(s) == Some(v@),
        s is None ==> opt_str(s) is None,
        t matches Some(v) ==> opt_string(t) == Some(v@),
        t is None ==> opt_string(t) is None,
{
}

} // verus!
