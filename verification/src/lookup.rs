//! Which texts of a request are looked up as numbers. Whoever fills the table
//! of numbers has to look at no others.

use crate::error::{Fault, WeightOf};
use crate::params;
use crate::params::{MarkerGroupView, NumberTable, PathSpecView, StyleOverrideView};
use crate::query::QueryMap;
use crate::staticmap;
use crate::text;
use vstd::prelude::*;
use vstd::string::*;

verus! {

/// The texts of a `lat,lon` pair.
pub open spec fn pair_texts(s: Seq<char>) -> Seq<Seq<char>> {
    let parts = text::split(s, ',');
    if parts.len() < 2 {
        seq![text::trim(parts[0])]
    } else {
        seq![text::trim(parts[0]), text::trim(parts[1])]
    }
}

/// The text after the `:` of a token.
pub open spec fn value_texts(token: Seq<char>) -> Seq<Seq<char>> {
    match text::split_once(token, ':') {
        Some((_, value)) => seq![value],
        None => Seq::empty(),
    }
}

/// The texts of several tokens; `of` gives those of one.
pub open spec fn token_texts(
    tokens: Seq<Seq<char>>,
    of: spec_fn(Seq<char>) -> Seq<Seq<char>>,
) -> Seq<Seq<char>>
    decreases tokens.len(),
{
    if tokens.len() == 0 {
        Seq::empty()
    } else {
        token_texts(tokens.drop_last(), of) + of(tokens.last())
    }
}

/// The coordinates in a `|`-separated value.
pub open spec fn coordinates(raw: Seq<char>) -> Seq<Seq<char>> {
    token_texts(text::split(raw, '|'), |t: Seq<char>| pair_texts(t))
}

/// The values of the tokens in a `|`-separated value.
pub open spec fn token_values(raw: Seq<char>) -> Seq<Seq<char>> {
    token_texts(text::split(raw, '|'), |t: Seq<char>| value_texts(t))
}

/// The texts of a request that are looked up as doubles: the coordinates of
/// the center, the markers, the paths and the visible points.
pub open spec fn doubles_needed(q: QueryMap) -> Seq<Seq<char>> {
    token_texts(
        match staticmap::first_value(q, "center"@) {
            Some(s) => seq![s],
            None => Seq::empty(),
        },
        |s: Seq<char>| pair_texts(s),
    ) + token_texts(q.values("markers"@), |raw: Seq<char>| coordinates(raw)) + token_texts(
        q.values("path"@),
        |raw: Seq<char>| coordinates(params::path_parts(raw).0),
    ) + token_texts(q.values("visible"@), |raw: Seq<char>| coordinates(raw))
}

/// The texts of a request that are looked up as singles: the values of the
/// tokens of the paths and the styles, of which the weights are some.
pub open spec fn singles_needed(q: QueryMap) -> Seq<Seq<char>> {
    token_texts(q.values("path"@), |raw: Seq<char>| token_values(params::path_parts(raw).0))
        + token_texts(q.values("style"@), |raw: Seq<char>| token_values(raw))
}

// ---------------------------------------------------------------------------
// Nothing else is looked up
// ---------------------------------------------------------------------------

/// Whether two tables agree on texts: on which of them are numbers, and on the
/// numbers.
pub open spec fn same_numbers<V>(
    a: Map<Seq<char>, V>,
    b: Map<Seq<char>, V>,
    texts: Seq<Seq<char>>,
) -> bool {
    forall|i: int|
        0 <= i < texts.len() ==> a.contains_key(#[trigger] texts[i]) == b.contains_key(texts[i])
            && a[texts[i]] == b[texts[i]]
}

/// The texts of each token are among those of all.
proof fn token_texts_hold(
    tokens: Seq<Seq<char>>,
    of: spec_fn(Seq<char>) -> Seq<Seq<char>>,
    i: int,
    j: int,
)
    requires
        0 <= i < tokens.len(),
        0 <= j < of(tokens[i]).len(),
    ensures
        exists|k: int|
            0 <= k < token_texts(tokens, of).len() && token_texts(tokens, of)[k] == of(
                tokens[i],
            )[j],
    decreases tokens.len(),
{
    let all = token_texts(tokens, of);
    let front = token_texts(tokens.drop_last(), of);
    if i < tokens.len() - 1 {
        assert(tokens.drop_last()[i] == tokens[i]);
        token_texts_hold(tokens.drop_last(), of, i, j);
        let k = choose|k: int| 0 <= k < front.len() && front[k] == of(tokens[i])[j];
        assert(all[k] == of(tokens[i])[j]);
    } else {
        assert(all[front.len() + j] == of(tokens[i])[j]);
    }
}

/// Tables that agree on the texts of all tokens agree on those of each.
proof fn same_numbers_of<V>(
    a: Map<Seq<char>, V>,
    b: Map<Seq<char>, V>,
    tokens: Seq<Seq<char>>,
    of: spec_fn(Seq<char>) -> Seq<Seq<char>>,
)
    requires
        same_numbers(a, b, token_texts(tokens, of)),
    ensures
        forall|i: int| 0 <= i < tokens.len() ==> same_numbers(a, b, of(#[trigger] tokens[i])),
{
    assert forall|i: int| 0 <= i < tokens.len() implies same_numbers(
        a,
        b,
        of(#[trigger] tokens[i]),
    ) by {
        let texts = of(tokens[i]);
        assert forall|j: int| 0 <= j < texts.len() implies a.contains_key(#[trigger] texts[j])
            == b.contains_key(texts[j]) && a[texts[j]] == b[texts[j]] by {
            token_texts_hold(tokens, of, i, j);
        }
    }
}

/// Steps that agree on every item give the same result.
proof fn each_same<A, T>(
    items: Seq<A>,
    start: T,
    f: spec_fn(T, A) -> Result<T, Fault>,
    g: spec_fn(T, A) -> Result<T, Fault>,
)
    requires
        forall|v: T, i: int| 0 <= i < items.len() ==> #[trigger] f(v, items[i]) == g(v, items[i]),
    ensures
        params::each(items, start, f) == params::each(items, start, g),
    decreases items.len(),
{
    if items.len() > 0 {
        let front = items.drop_last();
        assert forall|v: T, i: int| 0 <= i < front.len() implies #[trigger] f(v, front[i]) == g(
            v,
            front[i],
        ) by {
            assert(f(v, items[i]) == g(v, items[i]));
        }
        each_same(front, start, f, g);
        match params::each(front, start, f) {
            Ok(v) => {
                assert(f(v, items[items.len() - 1]) == g(v, items[items.len() - 1]));
            },
            Err(_) => {},
        }
    }
}

proof fn latlon_same(a: NumberTable, b: NumberTable, s: Seq<char>)
    requires
        same_numbers(a.doubles, b.doubles, pair_texts(s)),
    ensures
        params::latlon(s, a) == params::latlon(s, b),
{
    text::split_characterized(s, ',');
    let parts = text::split(s, ',');
    let texts = pair_texts(s);
    assert(texts[0] == text::trim(parts[0]));
    if parts.len() >= 2 {
        assert(texts[1] == text::trim(parts[1]));
    }
}

proof fn marker_group_same(a: NumberTable, b: NumberTable, raw: Seq<char>)
    requires
        same_numbers(a.doubles, b.doubles, coordinates(raw)),
    ensures
        params::marker_group(raw, a) == params::marker_group(raw, b),
{
    let tokens = text::split(raw, '|');
    let of = |t: Seq<char>| pair_texts(t);
    let (f, g) = (params::marker_step(a), params::marker_step(b));
    same_numbers_of(a.doubles, b.doubles, tokens, of);
    assert forall|v: MarkerGroupView, i: int| 0 <= i < tokens.len() implies #[trigger] f(
        v,
        tokens[i],
    ) == g(v, tokens[i]) by {
        assert(same_numbers(a.doubles, b.doubles, of(tokens[i])));
        latlon_same(a, b, tokens[i]);
    }
    each_same(tokens, params::plain_group(), f, g);
}

proof fn path_spec_same(a: NumberTable, b: NumberTable, raw: Seq<char>)
    requires
        same_numbers(a.doubles, b.doubles, coordinates(params::path_parts(raw).0)),
        same_numbers(a.singles, b.singles, token_values(params::path_parts(raw).0)),
    ensures
        params::path_spec(raw, a) == params::path_spec(raw, b),
{
    let tokens = text::split(params::path_parts(raw).0, '|');
    let of = |t: Seq<char>| pair_texts(t);
    let values = |t: Seq<char>| value_texts(t);
    let (f, g) = (params::path_step(a), params::path_step(b));
    same_numbers_of(a.doubles, b.doubles, tokens, of);
    same_numbers_of(a.singles, b.singles, tokens, values);
    assert forall|v: PathSpecView, i: int| 0 <= i < tokens.len() implies #[trigger] f(
        v,
        tokens[i],
    ) == g(v, tokens[i]) by {
        assert(same_numbers(a.doubles, b.doubles, of(tokens[i])));
        assert(same_numbers(a.singles, b.singles, values(tokens[i])));
        latlon_same(a, b, tokens[i]);
        weight_same(a, b, tokens[i], WeightOf::Path);
    }
    each_same(tokens, params::plain_path(), f, g);
}

/// The value of a token is the same weight in both tables.
proof fn weight_same(a: NumberTable, b: NumberTable, token: Seq<char>, of: WeightOf)
    requires
        same_numbers(a.singles, b.singles, value_texts(token)),
    ensures
        text::split_once(token, ':') matches Some((_, value)) ==> params::weight(value, of, a)
            == params::weight(value, of, b),
{
    match text::split_once(token, ':') {
        Some((_, value)) => {
            assert(value_texts(token)[0] == value);
        },
        None => {},
    }
}

proof fn style_override_same(a: NumberTable, b: NumberTable, raw: Seq<char>)
    requires
        same_numbers(a.singles, b.singles, token_values(raw)),
    ensures
        params::style_override(raw, a) == params::style_override(raw, b),
{
    let tokens = text::split(raw, '|');
    let values = |t: Seq<char>| value_texts(t);
    let (f, g) = (params::style_step(a), params::style_step(b));
    same_numbers_of(a.singles, b.singles, tokens, values);
    assert forall|v: (Seq<char>, StyleOverrideView), i: int|
        0 <= i < tokens.len() implies #[trigger] f(v, tokens[i]) == g(v, tokens[i]) by {
        assert(same_numbers(a.singles, b.singles, values(tokens[i])));
        weight_same(a, b, tokens[i], WeightOf::Style);
    }
    each_same(tokens, ("all"@, params::no_override()), f, g);
}

proof fn visible_value_same(
    a: NumberTable,
    b: NumberTable,
    raw: Seq<char>,
    start: Seq<params::LatLon>,
)
    requires
        same_numbers(a.doubles, b.doubles, coordinates(raw)),
    ensures
        params::each(text::split(raw, '|'), start, params::point_step(a)) == params::each(
            text::split(raw, '|'),
            start,
            params::point_step(b),
        ),
{
    let pairs = text::split(raw, '|');
    let of = |t: Seq<char>| pair_texts(t);
    let (f, g) = (params::point_step(a), params::point_step(b));
    same_numbers_of(a.doubles, b.doubles, pairs, of);
    assert forall|v: Seq<params::LatLon>, i: int| 0 <= i < pairs.len() implies #[trigger] f(
        v,
        pairs[i],
    ) == g(v, pairs[i]) by {
        assert(same_numbers(a.doubles, b.doubles, of(pairs[i])));
        latlon_same(a, b, pairs[i]);
    }
    each_same(pairs, start, f, g);
}

/// A part of a list of texts on which two tables agree.
proof fn same_numbers_part<V>(
    a: Map<Seq<char>, V>,
    b: Map<Seq<char>, V>,
    texts: Seq<Seq<char>>,
    from: int,
    part: Seq<Seq<char>>,
)
    requires
        same_numbers(a, b, texts),
        0 <= from,
        from + part.len() <= texts.len(),
        part == texts.subrange(from, from + part.len()),
    ensures
        same_numbers(a, b, part),
{
    assert forall|i: int| 0 <= i < part.len() implies a.contains_key(#[trigger] part[i])
        == b.contains_key(part[i]) && a[part[i]] == b[part[i]] by {
        assert(texts[from + i] == part[i]);
    }
}

proof fn marker_groups_same(a: NumberTable, b: NumberTable, raws: Seq<Seq<char>>)
    requires
        same_numbers(a.doubles, b.doubles, token_texts(raws, |raw: Seq<char>| coordinates(raw))),
    ensures
        params::marker_groups(raws, a) == params::marker_groups(raws, b),
{
    let of = |raw: Seq<char>| coordinates(raw);
    let (f, g) = (params::groups_step(a), params::groups_step(b));
    same_numbers_of(a.doubles, b.doubles, raws, of);
    assert forall|v: Seq<MarkerGroupView>, i: int| 0 <= i < raws.len() implies #[trigger] f(
        v,
        raws[i],
    ) == g(v, raws[i]) by {
        assert(same_numbers(a.doubles, b.doubles, of(raws[i])));
        marker_group_same(a, b, raws[i]);
    }
    each_same(raws, Seq::empty(), f, g);
}

proof fn path_specs_same(a: NumberTable, b: NumberTable, raws: Seq<Seq<char>>)
    requires
        same_numbers(a.doubles, b.doubles,
            token_texts(raws, |raw: Seq<char>| coordinates(params::path_parts(raw).0)),
        ),
        same_numbers(a.singles, b.singles,
            token_texts(raws, |raw: Seq<char>| token_values(params::path_parts(raw).0)),
        ),
    ensures
        params::path_specs(raws, a) == params::path_specs(raws, b),
{
    let of = |raw: Seq<char>| coordinates(params::path_parts(raw).0);
    let values = |raw: Seq<char>| token_values(params::path_parts(raw).0);
    let (f, g) = (params::paths_step(a), params::paths_step(b));
    same_numbers_of(a.doubles, b.doubles, raws, of);
    same_numbers_of(a.singles, b.singles, raws, values);
    assert forall|v: Seq<PathSpecView>, i: int| 0 <= i < raws.len() implies #[trigger] f(
        v,
        raws[i],
    ) == g(v, raws[i]) by {
        assert(same_numbers(a.doubles, b.doubles, of(raws[i])));
        assert(same_numbers(a.singles, b.singles, values(raws[i])));
        path_spec_same(a, b, raws[i]);
    }
    each_same(raws, Seq::empty(), f, g);
}

proof fn style_overrides_same(a: NumberTable, b: NumberTable, raws: Seq<Seq<char>>)
    requires
        same_numbers(a.singles, b.singles, token_texts(raws, |raw: Seq<char>| token_values(raw))),
    ensures
        params::style_overrides(raws, a) == params::style_overrides(raws, b),
{
    let values = |raw: Seq<char>| token_values(raw);
    let (f, g) = (params::overrides_step(a), params::overrides_step(b));
    same_numbers_of(a.singles, b.singles, raws, values);
    assert forall|v: Map<Seq<char>, StyleOverrideView>, i: int|
        0 <= i < raws.len() implies #[trigger] f(v, raws[i]) == g(v, raws[i]) by {
        assert(same_numbers(a.singles, b.singles, values(raws[i])));
        style_override_same(a, b, raws[i]);
    }
    each_same(raws, Map::empty(), f, g);
}

proof fn visible_same(a: NumberTable, b: NumberTable, raws: Seq<Seq<char>>)
    requires
        same_numbers(a.doubles, b.doubles, token_texts(raws, |raw: Seq<char>| coordinates(raw))),
    ensures
        params::visible(raws, a) == params::visible(raws, b),
{
    let of = |raw: Seq<char>| coordinates(raw);
    let (f, g) = (params::visible_step(a), params::visible_step(b));
    same_numbers_of(a.doubles, b.doubles, raws, of);
    assert forall|v: Seq<params::LatLon>, i: int| 0 <= i < raws.len() implies #[trigger] f(
        v,
        raws[i],
    ) == g(v, raws[i]) by {
        assert(same_numbers(a.doubles, b.doubles, of(raws[i])));
        visible_value_same(a, b, raws[i], v);
    }
    each_same(raws, Seq::empty(), f, g);
}

/// What a request asks for depends on no numbers but those that are listed:
/// two tables that say the same of them read the request alike.
pub proof fn request_needs_no_other_numbers(q: QueryMap, a: NumberTable, b: NumberTable)
    requires
        same_numbers(a.doubles, b.doubles, doubles_needed(q)),
        same_numbers(a.singles, b.singles, singles_needed(q)),
    ensures
        staticmap::request(q, a) == staticmap::request(q, b),
{
    let first = match staticmap::first_value(q, "center"@) {
        Some(s) => seq![s],
        None => Seq::<Seq<char>>::empty(),
    };
    let center = token_texts(first, |s: Seq<char>| pair_texts(s));
    let markers = token_texts(q.values("markers"@), |raw: Seq<char>| coordinates(raw));
    let paths = token_texts(
        q.values("path"@),
        |raw: Seq<char>| coordinates(params::path_parts(raw).0),
    );
    let visible = token_texts(q.values("visible"@), |raw: Seq<char>| coordinates(raw));
    let doubles = doubles_needed(q);
    assert(doubles == center + markers + paths + visible);
    assert(center =~= doubles.subrange(0, center.len() as int));
    same_numbers_part(a.doubles, b.doubles, doubles, 0, center);
    let i = center.len() as int;
    assert(markers =~= doubles.subrange(i, i + markers.len()));
    same_numbers_part(a.doubles, b.doubles, doubles, i, markers);
    let j = i + markers.len();
    assert(paths =~= doubles.subrange(j, j + paths.len()));
    same_numbers_part(a.doubles, b.doubles, doubles, j, paths);
    let k = j + paths.len();
    assert(visible =~= doubles.subrange(k, k + visible.len()));
    same_numbers_part(a.doubles, b.doubles, doubles, k, visible);

    let path_values = token_texts(
        q.values("path"@),
        |raw: Seq<char>| token_values(params::path_parts(raw).0),
    );
    let style_values = token_texts(q.values("style"@), |raw: Seq<char>| token_values(raw));
    let singles = singles_needed(q);
    assert(singles == path_values + style_values);
    assert(path_values =~= singles.subrange(0, path_values.len() as int));
    same_numbers_part(a.singles, b.singles, singles, 0, path_values);
    let m = path_values.len() as int;
    assert(style_values =~= singles.subrange(m, m + style_values.len()));
    same_numbers_part(a.singles, b.singles, singles, m, style_values);

    marker_groups_same(a, b, q.values("markers"@));
    path_specs_same(a, b, q.values("path"@));
    style_overrides_same(a, b, q.values("style"@));
    visible_same(a, b, q.values("visible"@));
    match staticmap::first_value(q, "center"@) {
        Some(s) => {
            let of = |s: Seq<char>| pair_texts(s);
            same_numbers_of(a.doubles, b.doubles, first, of);
            assert(same_numbers(a.doubles, b.doubles, of(first[0])));
            latlon_same(a, b, s);
        },
        None => {},
    }
}

// ---------------------------------------------------------------------------
// Listing them
// ---------------------------------------------------------------------------

/// Adds the texts of a `lat,lon` pair.
fn add_pair(out: &mut Vec<String>, pair: &[char])
    ensures
        text::texts(final(out)@) == text::texts(old(out)@) + pair_texts(pair@),
{
    let parts = text::split_at_each(pair, ',');
    proof {
        text::split_characterized(pair@, ',');
        assert(text::views(parts@)[0] == parts@[0]@);
        if parts@.len() > 1 {
            assert(text::views(parts@)[1] == parts@[1]@);
        }
    }
    out.push(text::to_text(text::trimmed(parts[0])));
    if parts.len() >= 2 {
        out.push(text::to_text(text::trimmed(parts[1])));
    }
    assert(text::texts(out@) =~= text::texts(old(out)@) + pair_texts(pair@));
}

/// Adds the text after the `:` of a token.
fn add_value(out: &mut Vec<String>, token: &[char])
    ensures
        text::texts(final(out)@) == text::texts(old(out)@) + value_texts(token@),
{
    if let Some((_, value)) = text::split_at_first(token, ':') {
        out.push(text::to_text(value));
    }
    assert(text::texts(out@) =~= text::texts(old(out)@) + value_texts(token@));
}

/// Adds the coordinates in a `|`-separated value.
fn add_coordinates(out: &mut Vec<String>, raw: &[char])
    ensures
        text::texts(final(out)@) == text::texts(old(out)@) + coordinates(raw@),
{
    let tokens = text::split_at_each(raw, '|');
    let ghost all = text::split(raw@, '|');
    let ghost of = |t: Seq<char>| pair_texts(t);
    let ghost start = text::texts(out@);
    let mut i: usize = 0;
    assert(all.take(0) =~= Seq::empty());
    assert(start + token_texts(all.take(0), of) =~= start);
    while i < tokens.len()
        invariant
            i <= tokens@.len(),
            text::views(tokens@) == all,
            of == (|t: Seq<char>| pair_texts(t)),
            text::texts(out@) == start + token_texts(all.take(i as int), of),
        decreases tokens@.len() - i,
    {
        assert(all.take(i + 1).drop_last() =~= all.take(i as int));
        assert(all.take(i + 1).last() == tokens@[i as int]@);
        add_pair(out, tokens[i]);
        assert(text::texts(out@) =~= start + token_texts(all.take(i + 1), of));
        i += 1;
    }
    assert(all.take(i as int) =~= all);
}

/// Adds the values of the tokens in a `|`-separated value.
fn add_values(out: &mut Vec<String>, raw: &[char])
    ensures
        text::texts(final(out)@) == text::texts(old(out)@) + token_values(raw@),
{
    let tokens = text::split_at_each(raw, '|');
    let ghost all = text::split(raw@, '|');
    let ghost of = |t: Seq<char>| value_texts(t);
    let ghost start = text::texts(out@);
    let mut i: usize = 0;
    assert(all.take(0) =~= Seq::empty());
    assert(start + token_texts(all.take(0), of) =~= start);
    while i < tokens.len()
        invariant
            i <= tokens@.len(),
            text::views(tokens@) == all,
            of == (|t: Seq<char>| value_texts(t)),
            text::texts(out@) == start + token_texts(all.take(i as int), of),
        decreases tokens@.len() - i,
    {
        assert(all.take(i + 1).drop_last() =~= all.take(i as int));
        assert(all.take(i + 1).last() == tokens@[i as int]@);
        add_value(out, tokens[i]);
        assert(text::texts(out@) =~= start + token_texts(all.take(i + 1), of));
        i += 1;
    }
    assert(all.take(i as int) =~= all);
}

/// The part of a `path` value before its encoded polyline.
fn style_part(raw: &str) -> (r: Vec<char>)
    ensures
        r@ == params::path_parts(raw@).0,
{
    let mut chars = text::to_chars(raw);
    proof {
        text::find_characterized(raw@, "enc:"@);
    }
    if let Some(i) = text::find_text(chars.as_slice(), "enc:") {
        assert(text::occurs_at(raw@, "enc:"@, i as int));
        chars.truncate(i);
        assert(chars@ =~= raw@.take(i as int));
    }
    chars
}

/// The texts of a request that are looked up as doubles and as singles.
pub struct NumberTexts {
    pub doubles: Vec<String>,
    pub singles: Vec<String>,
}

/// Adds the coordinates in several `|`-separated values.
fn add_all_coordinates(out: &mut Vec<String>, raws: &[String])
    ensures
        text::texts(final(out)@) == text::texts(old(out)@) + token_texts(
            text::texts(raws@),
            |raw: Seq<char>| coordinates(raw),
        ),
{
    let ghost all = text::texts(raws@);
    let ghost of = |raw: Seq<char>| coordinates(raw);
    let ghost start = text::texts(out@);
    let mut i: usize = 0;
    assert(all.take(0) =~= Seq::empty());
    assert(start + token_texts(all.take(0), of) =~= start);
    while i < raws.len()
        invariant
            i <= raws@.len(),
            all == text::texts(raws@),
            of == (|raw: Seq<char>| coordinates(raw)),
            text::texts(out@) == start + token_texts(all.take(i as int), of),
        decreases raws@.len() - i,
    {
        assert(all.take(i + 1).drop_last() =~= all.take(i as int));
        assert(all.take(i + 1).last() == raws@[i as int]@);
        let chars = text::to_chars(raws[i].as_str());
        add_coordinates(out, chars.as_slice());
        assert(text::texts(out@) =~= start + token_texts(all.take(i + 1), of));
        i += 1;
    }
    assert(all.take(i as int) =~= all);
}

/// Adds the numbers of several `path` values.
fn add_paths(doubles: &mut Vec<String>, singles: &mut Vec<String>, raws: &[String])
    ensures
        text::texts(final(doubles)@) == text::texts(old(doubles)@) + token_texts(
            text::texts(raws@),
            |raw: Seq<char>| coordinates(params::path_parts(raw).0),
        ),
        text::texts(final(singles)@) == text::texts(old(singles)@) + token_texts(
            text::texts(raws@),
            |raw: Seq<char>| token_values(params::path_parts(raw).0),
        ),
{
    let ghost all = text::texts(raws@);
    let ghost of = |raw: Seq<char>| coordinates(params::path_parts(raw).0);
    let ghost values = |raw: Seq<char>| token_values(params::path_parts(raw).0);
    let ghost start = text::texts(doubles@);
    let ghost begin = text::texts(singles@);
    let mut i: usize = 0;
    assert(all.take(0) =~= Seq::empty());
    assert(start + token_texts(all.take(0), of) =~= start);
    assert(begin + token_texts(all.take(0), values) =~= begin);
    while i < raws.len()
        invariant
            i <= raws@.len(),
            all == text::texts(raws@),
            of == (|raw: Seq<char>| coordinates(params::path_parts(raw).0)),
            values == (|raw: Seq<char>| token_values(params::path_parts(raw).0)),
            text::texts(doubles@) == start + token_texts(all.take(i as int), of),
            text::texts(singles@) == begin + token_texts(all.take(i as int), values),
        decreases raws@.len() - i,
    {
        assert(all.take(i + 1).drop_last() =~= all.take(i as int));
        assert(all.take(i + 1).last() == raws@[i as int]@);
        let chars = style_part(raws[i].as_str());
        add_coordinates(doubles, chars.as_slice());
        add_values(singles, chars.as_slice());
        assert(text::texts(doubles@) =~= start + token_texts(all.take(i + 1), of));
        assert(text::texts(singles@) =~= begin + token_texts(all.take(i + 1), values));
        i += 1;
    }
    assert(all.take(i as int) =~= all);
}

/// Adds the values of the tokens in several `style` values.
fn add_styles(out: &mut Vec<String>, raws: &[String])
    ensures
        text::texts(final(out)@) == text::texts(old(out)@) + token_texts(
            text::texts(raws@),
            |raw: Seq<char>| token_values(raw),
        ),
{
    let ghost all = text::texts(raws@);
    let ghost of = |raw: Seq<char>| token_values(raw);
    let ghost start = text::texts(out@);
    let mut i: usize = 0;
    assert(all.take(0) =~= Seq::empty());
    assert(start + token_texts(all.take(0), of) =~= start);
    while i < raws.len()
        invariant
            i <= raws@.len(),
            all == text::texts(raws@),
            of == (|raw: Seq<char>| token_values(raw)),
            text::texts(out@) == start + token_texts(all.take(i as int), of),
        decreases raws@.len() - i,
    {
        assert(all.take(i + 1).drop_last() =~= all.take(i as int));
        assert(all.take(i + 1).last() == raws@[i as int]@);
        let chars = text::to_chars(raws[i].as_str());
        add_values(out, chars.as_slice());
        assert(text::texts(out@) =~= start + token_texts(all.take(i + 1), of));
        i += 1;
    }
    assert(all.take(i as int) =~= all);
}

/// Lists the texts of a request that are looked up as numbers.
pub fn numbers_needed(q: &QueryMap) -> (r: NumberTexts)
    ensures
        text::texts(r.doubles@) == doubles_needed(*q),
        text::texts(r.singles@) == singles_needed(*q),
{
    let mut doubles: Vec<String> = Vec::new();
    let mut singles: Vec<String> = Vec::new();
    let ghost first = match staticmap::first_value(*q, "center"@) {
        Some(s) => seq![s],
        None => Seq::<Seq<char>>::empty(),
    };
    let ghost of = |s: Seq<char>| pair_texts(s);
    if let Some(s) = q.get_one("center") {
        let chars = text::to_chars(s);
        add_pair(&mut doubles, chars.as_slice());
        assert(first.drop_last() =~= Seq::empty());
        reveal_with_fuel(token_texts, 2);
    }
    assert(text::texts(doubles@) =~= token_texts(first, of));
    add_all_coordinates(&mut doubles, q.get_all("markers"));
    add_paths(&mut doubles, &mut singles, q.get_all("path"));
    add_all_coordinates(&mut doubles, q.get_all("visible"));
    add_styles(&mut singles, q.get_all("style"));
    assert(text::texts(singles@) =~= singles_needed(*q));
    NumberTexts { doubles, singles }
}

} // verus!
