//! The documents that are drawn: SVG of a few kinds of elements and
//! attributes, with numbers of ordinary size.
//!
//! A parser of SVG has to cope with far more: filters, patterns, entities,
//! style sheets. A document that holds none of these is simple enough to be
//! drawn whatever its numbers, colors and texts are.

use crate::number;
use crate::text;
use crate::xml;
use vstd::prelude::*;
use vstd::slice::slice_subrange;
use vstd::string::*;

verus! {

// ---------------------------------------------------------------------------
// Values
// ---------------------------------------------------------------------------

/// Whether `s` has only decimal digits.
pub open spec fn all_digits(s: Seq<char>) -> bool {
    forall|i: int| 0 <= i < s.len() ==> number::is_digit(#[trigger] s[i])
}

/// Whether `s` is a number without a sign: up to twelve digits, and any number
/// of digits behind a point.
pub open spec fn unsigned_number(s: Seq<char>) -> bool {
    match text::split_once(s, '.') {
        Some((whole, part)) => 1 <= whole.len() <= 12 && all_digits(whole) && all_digits(part),
        None => 1 <= s.len() <= 12 && all_digits(s),
    }
}

/// Whether `s` is a number as the document has it: a decimal of ordinary size,
/// or the text of a number that is not finite.
pub open spec fn number_text(s: Seq<char>) -> bool {
    ||| s == "NaN"@
    ||| s == "inf"@
    ||| s == "-inf"@
    ||| unsigned_number(s)
    ||| s.len() > 0 && s[0] == '-' && unsigned_number(s.skip(1))
}

/// Whether `s` is a number, a command of path data, or nothing.
pub open spec fn atom(s: Seq<char>) -> bool {
    s.len() == 0 || s == "M"@ || s == "L"@ || s == "Z"@ || number_text(s)
}

/// Whether `s` has numbers and commands with commas between them.
pub open spec fn atoms(s: Seq<char>) -> bool {
    forall|i: int| 0 <= i < text::split(s, ',').len() ==> atom(#[trigger] text::split(s, ',')[i])
}

/// Whether `s` has numbers and commands with commas and spaces between them.
pub open spec fn numeric(s: Seq<char>) -> bool {
    forall|i: int| 0 <= i < text::split(s, ' ').len() ==> atoms(#[trigger] text::split(s, ' ')[i])
}

/// Whether `s` is the text of a size: up to five digits, of which the first is
/// not zero.
pub open spec fn size_text(s: Seq<char>) -> bool {
    1 <= s.len() <= 5 && all_digits(s) && s[0] != '0'
}

/// Whether `s` is a view box at the origin.
pub open spec fn origin_box(s: Seq<char>) -> bool {
    let parts = text::split(s, ' ');
    parts.len() == 4 && parts[0] == "0"@ && parts[1] == "0"@ && size_text(parts[2]) && size_text(
        parts[3],
    )
}

fn has_digits(s: &[char]) -> (r: bool)
    ensures
        r == all_digits(s@),
{
    let mut i: usize = 0;
    while i < s.len()
        invariant
            i <= s@.len(),
            forall|j: int| 0 <= j < i ==> number::is_digit(#[trigger] s@[j]),
        decreases s@.len() - i,
    {
        if s[i] < '0' || s[i] > '9' {
            assert(!number::is_digit(s@[i as int]));
            return false;
        }
        i += 1;
    }
    true
}

fn is_unsigned_number(s: &[char]) -> (r: bool)
    ensures
        r == unsigned_number(s@),
{
    match text::split_at_first(s, '.') {
        Some((whole, part)) => {
            1 <= whole.len() && whole.len() <= 12 && has_digits(whole) && has_digits(part)
        },
        None => 1 <= s.len() && s.len() <= 12 && has_digits(s),
    }
}

/// Tests whether `s` is a number as the document has it.
pub fn is_number_text(s: &[char]) -> (r: bool)
    ensures
        r == number_text(s@),
{
    if text::is_text(s, "NaN") || text::is_text(s, "inf") || text::is_text(s, "-inf")
        || is_unsigned_number(s) {
        return true;
    }
    if s.len() > 0 && s[0] == '-' {
        let rest = slice_subrange(s, 1, s.len());
        assert(rest@ =~= s@.skip(1));
        is_unsigned_number(rest)
    } else {
        false
    }
}

fn is_atom(s: &[char]) -> (r: bool)
    ensures
        r == atom(s@),
{
    s.len() == 0 || text::is_text(s, "M") || text::is_text(s, "L") || text::is_text(s, "Z")
        || is_number_text(s)
}

fn has_atoms(s: &[char]) -> (r: bool)
    ensures
        r == atoms(s@),
{
    let parts = text::split_at_each(s, ',');
    let ghost all = text::split(s@, ',');
    let mut i: usize = 0;
    while i < parts.len()
        invariant
            i <= parts@.len(),
            text::views(parts@) == all,
            all == text::split(s@, ','),
            forall|j: int| 0 <= j < i ==> atom(#[trigger] all[j]),
        decreases parts@.len() - i,
    {
        assert(all[i as int] == parts@[i as int]@);
        if !is_atom(parts[i]) {
            return false;
        }
        i += 1;
    }
    true
}

fn is_numeric(s: &[char]) -> (r: bool)
    ensures
        r == numeric(s@),
{
    let parts = text::split_at_each(s, ' ');
    let ghost all = text::split(s@, ' ');
    let mut i: usize = 0;
    while i < parts.len()
        invariant
            i <= parts@.len(),
            text::views(parts@) == all,
            all == text::split(s@, ' '),
            forall|j: int| 0 <= j < i ==> atoms(#[trigger] all[j]),
        decreases parts@.len() - i,
    {
        assert(all[i as int] == parts@[i as int]@);
        if !has_atoms(parts[i]) {
            return false;
        }
        i += 1;
    }
    true
}

fn is_size_text(s: &[char]) -> (r: bool)
    ensures
        r == size_text(s@),
{
    1 <= s.len() && s.len() <= 5 && has_digits(s) && s[0] != '0'
}

fn is_origin_box(s: &[char]) -> (r: bool)
    ensures
        r == origin_box(s@),
{
    let parts = text::split_at_each(s, ' ');
    let ghost all = text::split(s@, ' ');
    if parts.len() != 4 {
        return false;
    }
    assert(all[0] == parts@[0]@ && all[1] == parts@[1]@);
    assert(all[2] == parts@[2]@ && all[3] == parts@[3]@);
    text::is_text(parts[0], "0") && text::is_text(parts[1], "0") && is_size_text(parts[2])
        && is_size_text(parts[3])
}

// ---------------------------------------------------------------------------
// Tags
// ---------------------------------------------------------------------------

/// An attribute behind its label, which is a space, its name and `=`.
pub open spec fn attribute(label: Seq<char>, value: Seq<char>) -> Seq<char> {
    label + "\""@ + value + "\""@
}

/// Whether a label is that of an attribute with numbers.
pub open spec fn numeric_label(label: Seq<char>) -> bool {
    ||| label == " d="@
    ||| label == " points="@
    ||| label == " x="@
    ||| label == " y="@
    ||| label == " cx="@
    ||| label == " cy="@
    ||| label == " r="@
    ||| label == " width="@
    ||| label == " height="@
    ||| label == " stroke-width="@
    ||| label == " font-size="@
}

/// Whether a label is that of a paint, which may have any value.
pub open spec fn paint_label(label: Seq<char>) -> bool {
    label == " fill="@ || label == " stroke="@
}

/// Whether a label and a value are those of an attribute with a few values.
pub open spec fn fixed_attribute(label: Seq<char>, value: Seq<char>) -> bool {
    ||| label == " stroke-dasharray="@ && (value == "5,3"@ || value == "4,2"@)
    ||| label == " font-family="@ && value == "sans-serif"@
    ||| label == " font-weight="@ && (value == "600"@ || value == "700"@)
    ||| label == " text-anchor="@ && value == "middle"@
    ||| label == " dominant-baseline="@ && value == "central"@
    ||| label == " paint-order="@ && value == "stroke"@
}

/// Whether an attribute may stand in an element.
pub open spec fn element_attribute(label: Seq<char>, value: Seq<char>) -> bool {
    ||| numeric_label(label) && numeric(value)
    ||| paint_label(label)
    ||| fixed_attribute(label, value)
}

/// Whether an attribute may stand in the root element.
pub open spec fn root_attribute(label: Seq<char>, value: Seq<char>) -> bool {
    ||| label == " xmlns="@ && value == "http://www.w3.org/2000/svg"@
    ||| label == " width="@ && size_text(value)
    ||| label == " height="@ && size_text(value)
    ||| label == " viewBox="@ && origin_box(value)
}

/// Whether an attribute may stand in the root element or in another one.
pub open spec fn allowed(root: bool, label: Seq<char>, value: Seq<char>) -> bool {
    if root {
        root_attribute(label, value)
    } else {
        element_attribute(label, value)
    }
}

/// Whether the parts of a tag, which its quotes part, are labels and values in
/// turn, and the first is behind the name of the element.
pub open spec fn attributes(root: bool, element: Seq<char>, parts: Seq<Seq<char>>) -> bool
    decreases parts.len(),
{
    if parts.len() < 2 {
        false
    } else {
        let label = parts[parts.len() - 2];
        let value = parts[parts.len() - 1];
        if parts.len() == 2 {
            text::starts_with(label, element) && allowed(
                root,
                label.skip(element.len() as int),
                value,
            )
        } else {
            allowed(root, label, value) && attributes(root, element, parts.take(parts.len() - 2))
        }
    }
}

/// Whether what stands between two `<` is a tag of the element, with an
/// attribute at least, and behind the attributes there is `end`.
pub open spec fn tag(root: bool, element: Seq<char>, s: Seq<char>, end: Seq<char>) -> bool {
    let parts = text::split(s, '"');
    &&& attributes(root, element, parts.drop_last())
    &&& text::starts_with(parts.last(), end)
}

/// Whether what stands between two `<` is a whole element with a shape.
pub open spec fn shape_tag(s: Seq<char>) -> bool {
    ||| tag(false, "path"@, s, " />"@)
    ||| tag(false, "polygon"@, s, " />"@)
    ||| tag(false, "circle"@, s, " />"@)
    ||| tag(false, "rect"@, s, " />"@)
}

/// Whether what stands between two `<` begins a text.
pub open spec fn text_tag(s: Seq<char>) -> bool {
    tag(false, "text"@, s, ">"@)
}

/// Whether what stands between `<` is shapes, and texts with their ends.
pub open spec fn elements(pieces: Seq<Seq<char>>) -> bool
    decreases pieces.len(),
{
    if pieces.len() == 0 {
        true
    } else if shape_tag(pieces.last()) {
        elements(pieces.drop_last())
    } else {
        &&& pieces.len() >= 2
        &&& text::starts_with(pieces.last(), "/text>"@)
        &&& text_tag(pieces[pieces.len() - 2])
        &&& elements(pieces.take(pieces.len() - 2))
    }
}

/// Whether a document is one that can be drawn: a root element with a size and
/// perhaps a view box, and in it shapes and texts, one after the other.
pub open spec fn drawable(svg: Seq<char>) -> bool {
    let pieces = text::split(svg, '<');
    &&& pieces.len() >= 2
    &&& pieces[0].len() == 0
    &&& if pieces.len() == 2 {
        tag(true, "svg"@, pieces[1], " />"@)
    } else {
        &&& tag(true, "svg"@, pieces[1], ">"@)
        &&& elements(pieces.subrange(2, pieces.len() - 1))
        &&& text::starts_with(pieces.last(), "/svg>"@)
    }
}

/// Writes an attribute.
pub fn push_attribute(out: &mut String, label: &str, value: &str)
    ensures
        final(out)@ == old(out)@ + attribute(label@, value@),
{
    out.append(label);
    out.append("\"");
    out.append(value);
    out.append("\"");
    assert(out@ =~= old(out)@ + attribute(label@, value@));
}

fn is_numeric_label(label: &[char]) -> (r: bool)
    ensures
        r == numeric_label(label@),
{
    text::is_text(label, " d=") || text::is_text(label, " points=") || text::is_text(label, " x=")
        || text::is_text(label, " y=") || text::is_text(label, " cx=") || text::is_text(
        label,
        " cy=",
    ) || text::is_text(label, " r=") || text::is_text(label, " width=") || text::is_text(
        label,
        " height=",
    ) || text::is_text(label, " stroke-width=") || text::is_text(label, " font-size=")
}

fn is_fixed_attribute(label: &[char], value: &[char]) -> (r: bool)
    ensures
        r == fixed_attribute(label@, value@),
{
    (text::is_text(label, " stroke-dasharray=") && (text::is_text(value, "5,3") || text::is_text(
        value,
        "4,2",
    ))) || (text::is_text(label, " font-family=") && text::is_text(value, "sans-serif")) || (
    text::is_text(label, " font-weight=") && (text::is_text(value, "600") || text::is_text(
        value,
        "700",
    ))) || (text::is_text(label, " text-anchor=") && text::is_text(value, "middle")) || (
    text::is_text(label, " dominant-baseline=") && text::is_text(value, "central")) || (
    text::is_text(label, " paint-order=") && text::is_text(value, "stroke"))
}

fn is_allowed(root: bool, label: &[char], value: &[char]) -> (r: bool)
    ensures
        r == allowed(root, label@, value@),
{
    if root {
        (text::is_text(label, " xmlns=") && text::is_text(value, "http://www.w3.org/2000/svg")) || (
        text::is_text(label, " width=") && is_size_text(value)) || (text::is_text(
            label,
            " height=",
        ) && is_size_text(value)) || (text::is_text(label, " viewBox=") && is_origin_box(value))
    } else {
        (is_numeric_label(label) && is_numeric(value)) || text::is_text(label, " fill=")
            || text::is_text(label, " stroke=") || is_fixed_attribute(label, value)
    }
}

/// Tests whether what stands between two `<` is a tag of the element.
fn is_tag(root: bool, element: &str, s: &[char], end: &str) -> (r: bool)
    ensures
        r == tag(root, element@, s@, end@),
{
    let parts = text::split_at_each(s, '"');
    let ghost all = text::split(s@, '"');
    proof {
        text::split_characterized(s@, '"');
    }
    let len: usize = parts.len();
    assert(all.last() == parts@[len - 1]@);
    if !text::has_prefix(parts[len - 1], end) {
        return false;
    }
    let name = text::to_chars(element);
    let mut n: usize = len - 1;
    assert(all.take(n as int) =~= all.drop_last());
    while n > 2
        invariant
            n < len == parts@.len(),
            text::views(parts@) == all,
            all == text::split(s@, '"'),
            attributes(root, element@, all.drop_last()) == attributes(
                root,
                element@,
                all.take(n as int),
            ),
        decreases n,
    {
        let ghost some = all.take(n as int);
        assert(some[n - 2] == parts@[n - 2]@ && some[n - 1] == parts@[n - 1]@);
        if !is_allowed(root, parts[n - 2], parts[n - 1]) {
            return false;
        }
        assert(some.take(n - 2) =~= all.take(n - 2));
        n -= 2;
    }
    if n < 2 {
        return false;
    }
    let ghost some = all.take(2);
    assert(some[0] == parts@[0]@ && some[1] == parts@[1]@);
    if !text::has_prefix(parts[0], element) {
        return false;
    }
    let label = slice_subrange(parts[0], name.len(), parts[0].len());
    assert(label@ =~= parts@[0]@.skip(element@.len() as int));
    is_allowed(root, label, parts[1])
}

fn is_shape_tag(s: &[char]) -> (r: bool)
    ensures
        r == shape_tag(s@),
{
    is_tag(false, "path", s, " />") || is_tag(false, "polygon", s, " />") || is_tag(
        false,
        "circle",
        s,
        " />",
    ) || is_tag(false, "rect", s, " />")
}

/// Tests whether a document is one that can be drawn.
pub fn is_drawable(svg: &str) -> (r: bool)
    ensures
        r == drawable(svg@),
{
    let chars = text::to_chars(svg);
    let pieces = text::split_at_each(chars.as_slice(), '<');
    let ghost all = text::split(svg@, '<');
    let len: usize = pieces.len();
    if len < 2 || pieces[0].len() != 0 {
        assert(len >= 1 ==> all[0] == pieces@[0]@);
        return false;
    }
    assert(all[0] == pieces@[0]@ && all[1] == pieces@[1]@ && all.last() == pieces@[len - 1]@);
    if len == 2 {
        return is_tag(true, "svg", pieces[1], " />");
    }
    if !is_tag(true, "svg", pieces[1], ">") || !text::has_prefix(pieces[len - 1], "/svg>") {
        return false;
    }
    let ghost inner = all.subrange(2, len - 1);
    let mut n: usize = len - 1;
    assert(inner.take(n - 2) =~= inner);
    while n > 2
        invariant
            2 <= n < len == pieces@.len(),
            text::views(pieces@) == all,
            all == text::split(svg@, '<'),
            inner == all.subrange(2, len - 1),
            elements(inner) == elements(inner.take(n - 2)),
        decreases n,
    {
        let ghost some = inner.take(n - 2);
        assert(some.last() == pieces@[n - 1]@);
        if is_shape_tag(pieces[n - 1]) {
            assert(some.drop_last() =~= inner.take(n - 3));
            n -= 1;
        } else {
            if n < 4 {
                return false;
            }
            assert(some[some.len() - 2] == pieces@[n - 2]@);
            if !text::has_prefix(pieces[n - 1], "/text>") || !is_tag(
                false,
                "text",
                pieces[n - 2],
                ">",
            ) {
                return false;
            }
            assert(some.take(some.len() - 2) =~= inner.take(n - 4));
            n -= 2;
        }
    }
    true
}

// ---------------------------------------------------------------------------
// Building documents
// ---------------------------------------------------------------------------

/// Whether `s` can stand between the quotes of an attribute and outside of
/// tags.
pub open spec fn plain(s: Seq<char>) -> bool {
    forall|i: int| 0 <= i < s.len() ==> (#[trigger] s[i]) != '<' && s[i] != '"'
}

/// An escaped text is plain.
pub proof fn escaped_is_plain(s: Seq<char>)
    ensures
        plain(xml::escaped(s)),
{
    xml::escaped_has_no_markup(s);
    let e = xml::escaped(s);
    assert forall|i: int| 0 <= i < e.len() implies (#[trigger] e[i]) != '<' && e[i] != '"' by {
        assert(!xml::markup_char(e[i]));
    }
}

/// Whether `s` is a tag of the element as far as its attributes go, of which it
/// has one at least.
pub open spec fn begun(root: bool, element: Seq<char>, s: Seq<char>) -> bool {
    let pieces = text::split(s, '<');
    &&& pieces.len() == 2
    &&& pieces[0].len() == 0
    &&& {
        let parts = text::split(pieces[1], '"');
        parts.last().len() == 0 && attributes(root, element, parts.drop_last())
    }
}

proof fn split_attribute(s: Seq<char>, label: Seq<char>, value: Seq<char>)
    requires
        plain(label),
        plain(value),
    ensures
        ({
            let parts = text::split(s, '"');
            text::split(s + attribute(label, value), '"') == parts.drop_last().push(
                parts.last() + label,
            ).push(value).push(Seq::empty())
        }),
        ({
            let pieces = text::split(s, '<');
            text::split(s + attribute(label, value), '<') == pieces.drop_last().push(
                pieces.last() + attribute(label, value),
            )
        }),
{
    reveal_strlit("\"");
    let parts = text::split(s, '"');
    let s1 = s + label;
    let s2 = s1.push('"');
    let s3 = s2 + value;
    let s4 = s3.push('"');
    text::split_suffix(s, label, '"');
    assert(s2.drop_last() =~= s1);
    text::split_suffix(s2, value, '"');
    let open = parts.drop_last().push(parts.last() + label);
    assert(text::split(s2, '"') == open.push(Seq::empty()));
    assert(Seq::<char>::empty() + value =~= value);
    assert(open.push(Seq::<char>::empty()).drop_last() =~= open);
    assert(text::split(s3, '"') == open.push(value));
    assert(s4.drop_last() =~= s3);
    assert(s + attribute(label, value) =~= s4);
    let a = attribute(label, value);
    assert forall|i: int| 0 <= i < a.len() implies a[i] != '<' by {
        if i < label.len() {
            assert(a[i] == label[i]);
        } else if label.len() < i < label.len() + 1 + value.len() {
            assert(a[i] == value[i - label.len() - 1]);
        }
    }
    text::split_suffix(s, a, '<');
}

/// A tag begins with the name of its element and an attribute.
pub proof fn first_attribute(
    root: bool,
    element: Seq<char>,
    start: Seq<char>,
    label: Seq<char>,
    value: Seq<char>,
)
    requires
        start == seq!['<'] + element,
        plain(element),
        plain(label),
        plain(value),
        allowed(root, label, value),
    ensures
        begun(root, element, start + attribute(label, value)),
{
    let none = Seq::<char>::empty();
    assert(start =~= none.push('<') + element);
    text::split_concat(none, element, '<');
    assert(!element.contains('<') && !element.contains('"'));
    text::split_whole(element, '<');
    text::split_whole(element, '"');
    split_attribute(start, label, value);
    split_attribute(element, label, value);
    assert(text::split(start, '<') =~= seq![none, element]);
    let pieces = text::split(start + attribute(label, value), '<');
    assert(pieces =~= seq![none, element + attribute(label, value)]);
    let parts = text::split(pieces[1], '"');
    assert(parts =~= seq![element + label, value, none]);
    assert(parts.drop_last() =~= seq![element + label, value]);
    assert((element + label).take(element.len() as int) =~= element);
    assert((element + label).skip(element.len() as int) =~= label);
}

/// A tag goes on with another attribute.
pub proof fn next_attribute(
    root: bool,
    element: Seq<char>,
    s: Seq<char>,
    label: Seq<char>,
    value: Seq<char>,
)
    requires
        begun(root, element, s),
        plain(label),
        plain(value),
        allowed(root, label, value),
    ensures
        begun(root, element, s + attribute(label, value)),
{
    let before = text::split(s, '<');
    let p = before[1];
    split_attribute(s, label, value);
    split_attribute(p, label, value);
    let pieces = text::split(s + attribute(label, value), '<');
    assert(pieces =~= seq![before[0], p + attribute(label, value)]);
    let old_parts = text::split(p, '"');
    let parts = text::split(pieces[1], '"');
    text::split_characterized(p, '"');
    assert(old_parts.last() + label =~= label);
    assert(parts =~= old_parts.drop_last().push(label).push(value).push(Seq::empty()));
    let pairs = parts.drop_last();
    assert(pairs =~= old_parts.drop_last().push(label).push(value));
    assert(pairs.take(pairs.len() - 2) =~= old_parts.drop_last());
}

/// Whether `s` is shapes and texts, one after the other.
pub open spec fn fragment(s: Seq<char>) -> bool {
    let pieces = text::split(s, '<');
    pieces[0].len() == 0 && elements(pieces.skip(1))
}

/// Nothing is a fragment.
pub proof fn empty_fragment()
    ensures
        fragment(Seq::empty()),
{
    assert(text::split(Seq::empty(), '<').skip(1) =~= Seq::empty());
}

proof fn elements_concat(a: Seq<Seq<char>>, b: Seq<Seq<char>>)
    requires
        elements(a),
        elements(b),
    ensures
        elements(a + b),
    decreases b.len(),
{
    if b.len() == 0 {
        assert(a + b =~= a);
    } else if shape_tag(b.last()) {
        elements_concat(a, b.drop_last());
        assert((a + b).drop_last() =~= a + b.drop_last());
    } else {
        elements_concat(a, b.take(b.len() - 2));
        assert((a + b).take((a + b).len() - 2) =~= a + b.take(b.len() - 2));
    }
}

proof fn fragment_pieces(a: Seq<char>, b: Seq<char>)
    requires
        fragment(b),
    ensures
        text::split(a + b, '<') == text::split(a, '<') + text::split(b, '<').skip(1),
{
    text::split_characterized(b, '<');
    let pieces = text::split(b, '<');
    if pieces.len() == 1 {
        assert(b =~= pieces[0]);
        assert(a + b =~= a);
        assert(text::split(a, '<') + pieces.skip(1) =~= text::split(a, '<'));
    } else {
        let rest = b.skip(1);
        starts_with_bracket(b);
        assert(b =~= Seq::<char>::empty().push('<') + rest);
        assert(a + b =~= a.push('<') + rest);
        text::split_concat(a, rest, '<');
        text::split_concat(Seq::empty(), rest, '<');
        assert(pieces.skip(1) =~= text::split(rest, '<'));
    }
}

proof fn starts_with_bracket(b: Seq<char>)
    requires
        text::split(b, '<')[0].len() == 0,
        text::split(b, '<').len() > 1,
    ensures
        b.len() > 0,
        b[0] == '<',
{
    let n = text::first(b, '<');
    text::first_bounds(b, '<');
    if n == b.len() {
        assert(!b.contains('<')) by {
            if b.contains('<') {
                let i = choose|i: int| 0 <= i < b.len() && b[i] == '<';
                assert(b[i] != '<');
            }
        }
        text::split_whole(b, '<');
    } else {
        let a = b.take(n);
        let rest = b.skip(n + 1);
        assert(b =~= a.push('<') + rest);
        text::split_concat(a, rest, '<');
        assert(!a.contains('<')) by {
            if a.contains('<') {
                let i = choose|i: int| 0 <= i < a.len() && a[i] == '<';
                assert(b[i] != '<');
            }
        }
        text::split_whole(a, '<');
        assert(text::split(b, '<')[0] == a);
    }
}

/// Two fragments make one.
pub proof fn fragment_concat(a: Seq<char>, b: Seq<char>)
    requires
        fragment(a),
        fragment(b),
    ensures
        fragment(a + b),
{
    fragment_pieces(a, b);
    text::split_characterized(a, '<');
    let (pa, pb) = (text::split(a, '<'), text::split(b, '<'));
    elements_concat(pa.skip(1), pb.skip(1));
    assert((pa + pb.skip(1)).skip(1) =~= pa.skip(1) + pb.skip(1));
}

/// A tag of a shape is ended at once.
pub proof fn end_shape(element: Seq<char>, s: Seq<char>)
    requires
        begun(false, element, s),
        element == "path"@ || element == "polygon"@ || element == "circle"@ || element == "rect"@,
    ensures
        fragment(s + " />\n"@),
{
    reveal_strlit(" />\n");
    reveal_strlit(" />");
    let end = " />\n"@;
    let before = text::split(s, '<');
    let p = before[1];
    text::split_suffix(s, end, '<');
    text::split_suffix(p, end, '"');
    let pieces = text::split(s + end, '<');
    assert(pieces =~= seq![before[0], p + end]);
    let parts = text::split(p, '"');
    text::split_characterized(p, '"');
    assert(parts.last() + end =~= end);
    assert(parts.drop_last().push(end).drop_last() =~= parts.drop_last());
    assert(end.take(3) =~= " />"@);
    assert(shape_tag(pieces[1]));
    assert(pieces.skip(1) =~= seq![pieces[1]]);
    assert(pieces.skip(1).drop_last() =~= Seq::empty());
    assert(elements(Seq::empty()));
}

/// A text stands between its tags.
pub open spec fn text_element(start: Seq<char>, content: Seq<char>) -> Seq<char> {
    start + ">"@ + content + "</text>\n"@
}

/// Writes a text between its tags.
pub fn write_text(start: String, content: &str) -> (r: String)
    ensures
        r@ == text_element(start@, content@),
{
    let mut r = start;
    r.append(">");
    r.append(content);
    r.append("</text>\n");
    r
}

/// A tag of a text is followed by what it says and by its end.
pub proof fn end_text(s: Seq<char>, content: Seq<char>)
    requires
        begun(false, "text"@, s),
        plain(content),
    ensures
        fragment(text_element(s, content)),
{
    reveal_strlit(">");
    reveal_strlit("</text>\n");
    reveal_strlit("/text>");
    let before = text::split(s, '<');
    let p = before[1];
    let inner = ">"@ + content;
    assert forall|i: int| 0 <= i < inner.len() implies inner[i] != '<' && inner[i] != '"' by {
        if i > 0 {
            assert(inner[i] == content[i - 1]);
        }
    }
    let end = "</text>\n"@.skip(1);
    text::split_suffix(s, inner, '<');
    text::split_suffix(p, inner, '"');
    assert(text_element(s, content) =~= (s + inner).push('<') + end);
    text::split_concat(s + inner, end, '<');
    assert(!end.contains('<')) by {
        assert(forall|i: int| 0 <= i < end.len() ==> end[i] != '<');
    }
    text::split_whole(end, '<');
    let pieces = text::split(text_element(s, content), '<');
    assert(pieces =~= seq![before[0], p + inner, end]);
    let parts = text::split(p, '"');
    text::split_characterized(p, '"');
    assert(parts.last() + inner =~= inner);
    assert(parts.drop_last().push(inner).drop_last() =~= parts.drop_last());
    assert(inner.take(1) =~= ">"@);
    assert(text_tag(p + inner));
    assert(end.take(6) =~= "/text>"@);
    let rest = pieces.skip(1);
    assert(rest =~= seq![p + inner, end]);
    assert(!shape_tag(end)) by {
        assert(!end.contains('"')) by {
            assert(forall|i: int| 0 <= i < end.len() ==> end[i] != '"');
        }
        text::split_whole(end, '"');
        assert(text::split(end, '"').drop_last().len() == 0);
    }
    assert(rest.take(rest.len() - 2) =~= Seq::empty());
    assert(elements(Seq::empty()));
}

/// A root element around a fragment is a document that can be drawn.
pub proof fn end_root(s: Seq<char>, content: Seq<char>)
    requires
        begun(true, "svg"@, s),
        fragment(content),
    ensures
        drawable(s + ">\n"@ + content + "</svg>"@),
{
    reveal_strlit(">\n");
    reveal_strlit(">");
    reveal_strlit("</svg>");
    reveal_strlit("/svg>");
    let before = text::split(s, '<');
    let p = before[1];
    let open = ">\n"@;
    let end = "</svg>"@.skip(1);
    text::split_suffix(s, open, '<');
    text::split_suffix(p, open, '"');
    let head = s + open;
    assert(text::split(head, '<') =~= seq![before[0], p + open]);
    fragment_pieces(head, content);
    let svg = s + open + content + "</svg>"@;
    assert(svg =~= (head + content).push('<') + end);
    text::split_concat(head + content, end, '<');
    assert(!end.contains('<')) by {
        assert(forall|i: int| 0 <= i < end.len() ==> end[i] != '<');
    }
    text::split_whole(end, '<');
    text::split_characterized(content, '<');
    let inner = text::split(content, '<').skip(1);
    let pieces = text::split(svg, '<');
    assert(pieces =~= seq![before[0], p + open] + inner + seq![end]);
    assert(pieces.subrange(2, pieces.len() - 1) =~= inner);
    let parts = text::split(p, '"');
    text::split_characterized(p, '"');
    assert(parts.last() + open =~= open);
    assert(parts.drop_last().push(open).drop_last() =~= parts.drop_last());
    assert(open.take(1) =~= ">"@);
    assert(tag(true, "svg"@, pieces[1], ">"@));
    assert(end.take(5) =~= "/svg>"@);
}

/// The labels of attributes are plain.
pub proof fn labels_are_plain()
    ensures
        plain(" d="@),
        plain(" points="@),
        plain(" x="@),
        plain(" y="@),
        plain(" cx="@),
        plain(" cy="@),
        plain(" r="@),
        plain(" width="@),
        plain(" height="@),
        plain(" stroke-width="@),
        plain(" font-size="@),
        plain(" fill="@),
        plain(" stroke="@),
        plain(" stroke-dasharray="@),
        plain(" font-family="@),
        plain(" font-weight="@),
        plain(" text-anchor="@),
        plain(" dominant-baseline="@),
        plain(" paint-order="@),
        plain(" xmlns="@),
        plain(" viewBox="@),
{
    reveal_strlit(" d=");
    reveal_strlit(" points=");
    reveal_strlit(" x=");
    reveal_strlit(" y=");
    reveal_strlit(" cx=");
    reveal_strlit(" cy=");
    reveal_strlit(" r=");
    reveal_strlit(" width=");
    reveal_strlit(" height=");
    reveal_strlit(" stroke-width=");
    reveal_strlit(" font-size=");
    reveal_strlit(" fill=");
    reveal_strlit(" stroke=");
    reveal_strlit(" stroke-dasharray=");
    reveal_strlit(" font-family=");
    reveal_strlit(" font-weight=");
    reveal_strlit(" text-anchor=");
    reveal_strlit(" dominant-baseline=");
    reveal_strlit(" paint-order=");
    reveal_strlit(" xmlns=");
    reveal_strlit(" viewBox=");
}

/// The start of a tag is `<` and the name of its element, which is plain.
pub proof fn names_are_plain()
    ensures
        "<path"@ == seq!['<'] + "path"@ && plain("path"@),
        "<polygon"@ == seq!['<'] + "polygon"@ && plain("polygon"@),
        "<circle"@ == seq!['<'] + "circle"@ && plain("circle"@),
        "<rect"@ == seq!['<'] + "rect"@ && plain("rect"@),
        "<text"@ == seq!['<'] + "text"@ && plain("text"@),
        "<svg"@ == seq!['<'] + "svg"@ && plain("svg"@),
{
    reveal_strlit("path");
    reveal_strlit("<path");
    reveal_strlit("polygon");
    reveal_strlit("<polygon");
    reveal_strlit("circle");
    reveal_strlit("<circle");
    reveal_strlit("rect");
    reveal_strlit("<rect");
    reveal_strlit("text");
    reveal_strlit("<text");
    reveal_strlit("svg");
    reveal_strlit("<svg");
    assert("<path"@ =~= seq!['<'] + "path"@);
    assert("<polygon"@ =~= seq!['<'] + "polygon"@);
    assert("<circle"@ =~= seq!['<'] + "circle"@);
    assert("<rect"@ =~= seq!['<'] + "rect"@);
    assert("<text"@ =~= seq!['<'] + "text"@);
    assert("<svg"@ =~= seq!['<'] + "svg"@);
}

// ---------------------------------------------------------------------------
// Numbers in documents
// ---------------------------------------------------------------------------

/// Whether `s` can be one number or command among others.
pub open spec fn word(s: Seq<char>) -> bool {
    forall|i: int|
        0 <= i < s.len() ==> (#[trigger] s[i]) != ' ' && s[i] != ',' && s[i] != '<' && s[i] != '"'
}

proof fn unsigned_number_is_word(s: Seq<char>)
    requires
        unsigned_number(s),
    ensures
        word(s),
{
    text::first_bounds(s, '.');
    let n = text::first(s, '.');
    assert forall|i: int| 0 <= i < s.len() implies (#[trigger] s[i]) != ' ' && s[i] != ',' && s[i]
        != '<' && s[i] != '"' by {
        if n == s.len() {
            assert(number::is_digit(s[i]));
        } else if i < n {
            assert(s.take(n)[i] == s[i]);
            assert(number::is_digit(s.take(n)[i]));
        } else if i > n {
            assert(s.skip(n + 1)[i - n - 1] == s[i]);
            assert(number::is_digit(s.skip(n + 1)[i - n - 1]));
        }
    }
}

/// A number is a word.
pub proof fn number_is_word(s: Seq<char>)
    requires
        number_text(s),
    ensures
        word(s),
        plain(s),
{
    reveal_strlit("NaN");
    reveal_strlit("inf");
    reveal_strlit("-inf");
    if unsigned_number(s) {
        unsigned_number_is_word(s);
    } else if s.len() > 0 && s[0] == '-' && unsigned_number(s.skip(1)) {
        unsigned_number_is_word(s.skip(1));
        assert forall|i: int| 0 <= i < s.len() implies (#[trigger] s[i]) != ' ' && s[i] != ','
            && s[i] != '<' && s[i] != '"' by {
            if i > 0 {
                assert(s.skip(1)[i - 1] == s[i]);
            }
        }
    }
}

proof fn word_is_atoms(s: Seq<char>)
    requires
        word(s),
        atom(s),
    ensures
        atoms(s),
        !s.contains(' '),
{
    assert(!s.contains(',')) by {
        if s.contains(',') {
            let i = choose|i: int| 0 <= i < s.len() && s[i] == ',';
            assert(s[i] != ',');
        }
    }
    text::split_whole(s, ',');
}

/// A number can be a value by itself.
pub proof fn number_is_numeric(s: Seq<char>)
    requires
        number_text(s),
    ensures
        numeric(s),
        plain(s),
{
    number_is_word(s);
    word_is_atoms(s);
    text::split_whole(s, ' ');
}

/// Digits are a number if they are not too many.
pub proof fn digits_are_number(s: Seq<char>)
    requires
        all_digits(s),
        1 <= s.len() <= 12,
    ensures
        number_text(s),
{
    text::first_bounds(s, '.');
    let n = text::first(s, '.');
    if n < s.len() {
        assert(number::is_digit(s[n]));
    }
}

/// Whether `s` is path data to which more can be added: numbers and commands,
/// each with a space behind it.
pub open spec fn path_data(s: Seq<char>) -> bool {
    numeric(s) && plain(s) && (s.len() == 0 || s.last() == ' ')
}

/// Path data goes on with a number or a command.
pub proof fn more_path_data(s: Seq<char>, w: Seq<char>)
    requires
        path_data(s),
        word(w),
        atom(w),
    ensures
        path_data(s + w + " "@),
        numeric(s + w),
        plain(s + w),
{
    reveal_strlit(" ");
    let before = text::split(s, ' ');
    text::split_characterized(s, ' ');
    if s.len() > 0 {
        assert(before.last() =~= Seq::empty());
    }
    text::split_suffix(s, w, ' ');
    assert(before.last() + w =~= w);
    word_is_atoms(w);
    let t = s + w;
    let parts = text::split(t, ' ');
    assert(parts == before.drop_last().push(w));
    assert forall|i: int| 0 <= i < parts.len() implies atoms(#[trigger] parts[i]) by {
        if i < before.len() - 1 {
            assert(parts[i] == before[i]);
        }
    }
    assert forall|i: int| 0 <= i < t.len() implies (#[trigger] t[i]) != '<' && t[i] != '"' by {
        if i < s.len() {
            assert(t[i] == s[i]);
        } else {
            assert(t[i] == w[i - s.len()]);
        }
    }
    let u = s + w + " "@;
    assert(u =~= t.push(' '));
    assert(u.drop_last() =~= t);
    let all = text::split(u, ' ');
    assert(all == parts.push(Seq::empty()));
    assert(atoms(Seq::empty())) by {
        word_is_atoms(Seq::empty());
    }
    assert forall|i: int| 0 <= i < all.len() implies atoms(#[trigger] all[i]) by {
        if i < parts.len() {
            assert(all[i] == parts[i]);
        }
    }
    assert forall|i: int| 0 <= i < u.len() implies (#[trigger] u[i]) != '<' && u[i] != '"' by {
        if i < t.len() {
            assert(u[i] == t[i]);
        }
    }
}

/// Two numbers with a comma between them.
pub open spec fn pair_text(x: Seq<char>, y: Seq<char>) -> Seq<char> {
    x + ","@ + y
}

proof fn pair_is_atoms(x: Seq<char>, y: Seq<char>)
    requires
        number_text(x),
        number_text(y),
    ensures
        atoms(pair_text(x, y)),
        plain(pair_text(x, y)),
        !pair_text(x, y).contains(' '),
{
    reveal_strlit(",");
    let s = pair_text(x, y);
    number_is_word(x);
    number_is_word(y);
    word_is_atoms(x);
    word_is_atoms(y);
    assert(s =~= x.push(',') + y);
    text::split_concat(x, y, ',');
    assert(!x.contains(',') && !y.contains(','));
    text::split_whole(x, ',');
    text::split_whole(y, ',');
    assert(text::split(s, ',') =~= seq![x, y]);
    assert forall|i: int| 0 <= i < s.len() implies (#[trigger] s[i]) != '<' && s[i] != '"' && s[i]
        != ' ' by {
        if i < x.len() {
            assert(s[i] == x[i]);
        } else if i > x.len() {
            assert(s[i] == y[i - x.len() - 1]);
        }
    }
}

/// A pair of numbers is numeric.
pub proof fn pair_is_numeric(x: Seq<char>, y: Seq<char>)
    requires
        number_text(x),
        number_text(y),
    ensures
        numeric(pair_text(x, y)),
        plain(pair_text(x, y)),
{
    pair_is_atoms(x, y);
    text::split_whole(pair_text(x, y), ' ');
}

/// Numbers can be followed by a space and a pair of numbers.
pub proof fn another_pair(s: Seq<char>, x: Seq<char>, y: Seq<char>)
    requires
        numeric(s),
        plain(s),
        number_text(x),
        number_text(y),
    ensures
        numeric(s + " "@ + pair_text(x, y)),
        plain(s + " "@ + pair_text(x, y)),
{
    reveal_strlit(" ");
    let p = pair_text(x, y);
    let t = s + " "@ + p;
    pair_is_atoms(x, y);
    assert(t =~= s.push(' ') + p);
    text::split_concat(s, p, ' ');
    text::split_whole(p, ' ');
    let before = text::split(s, ' ');
    let parts = text::split(t, ' ');
    assert(parts == before + seq![p]);
    assert forall|i: int| 0 <= i < parts.len() implies atoms(#[trigger] parts[i]) by {
        if i < before.len() {
            assert(parts[i] == before[i]);
        } else {
            assert(parts[i] == p);
        }
    }
    assert forall|i: int| 0 <= i < t.len() implies (#[trigger] t[i]) != '<' && t[i] != '"' by {
        if i < s.len() {
            assert(t[i] == s[i]);
        } else if i > s.len() {
            assert(t[i] == p[i - s.len() - 1]);
        }
    }
}

/// A size below a hundred thousand, in decimal, is the text of a size, and a
/// number.
pub proof fn decimal_is_size(n: nat)
    requires
        1 <= n < 100000,
    ensures
        size_text(number::decimal(n)),
        numeric(number::decimal(n)),
        plain(number::decimal(n)),
{
    number::decimal_has_digits(n);
    decimal_length(n, 5);
    digits_are_number(number::decimal(n));
    number_is_numeric(number::decimal(n));
}

proof fn decimal_length(n: nat, k: nat)
    requires
        1 <= n,
        1 <= k <= 5,
        k == 1 ==> n < 10,
        k == 2 ==> n < 100,
        k == 3 ==> n < 1000,
        k == 4 ==> n < 10000,
        k == 5 ==> n < 100000,
    ensures
        1 <= number::decimal(n).len() <= k,
        number::decimal(n)[0] != '0',
    decreases k,
{
    if n >= 10 {
        decimal_length(n / 10, (k - 1) as nat);
        assert(number::decimal(n)[0] == number::decimal(n / 10)[0]);
    }
}

/// Two sizes make a view box at the origin.
pub proof fn sizes_make_box(w: Seq<char>, h: Seq<char>)
    requires
        size_text(w),
        size_text(h),
    ensures
        origin_box("0 0 "@ + w + " "@ + h),
        plain("0 0 "@ + w + " "@ + h),
{
    reveal_strlit("0 0 ");
    reveal_strlit("0");
    reveal_strlit(" ");
    digits_are_number(w);
    digits_are_number(h);
    number_is_word(w);
    number_is_word(h);
    let s = "0 0 "@ + w + " "@ + h;
    let zero = "0"@;
    let wh = w.push(' ') + h;
    let rest = zero.push(' ') + wh;
    assert(s =~= zero.push(' ') + rest);
    text::split_concat(zero, rest, ' ');
    text::split_concat(zero, wh, ' ');
    text::split_concat(w, h, ' ');
    assert(!zero.contains(' ') && !w.contains(' ') && !h.contains(' '));
    text::split_whole(zero, ' ');
    text::split_whole(w, ' ');
    text::split_whole(h, ' ');
    assert(text::split(s, ' ') =~= seq![zero, zero, w, h]);
    assert forall|i: int| 0 <= i < s.len() implies (#[trigger] s[i]) != '<' && s[i] != '"' by {
        if 4 <= i < 4 + w.len() {
            assert(s[i] == w[i - 4]);
        } else if i > 4 + w.len() {
            assert(s[i] == h[i - 5 - w.len()]);
        }
    }
}

/// A value stands in quotes behind its label, a text between its tags, and a
/// pair of coordinates with a comma between them.
pub proof fn values_stand_whole(label: Seq<char>, value: Seq<char>, start: Seq<char>, content: Seq<char>)
    ensures
        attribute(label, value) == label + "\""@ + value + "\""@,
        text_element(start, content) == start + ">"@ + content + "</text>\n"@,
        pair_text(label, value) == label + ","@ + value,
{
}

} // verus!
