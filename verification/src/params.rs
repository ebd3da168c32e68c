//! The parameters of a static map: coordinates, marker groups, paths, style
//! overrides and points to keep visible.
//!
//! Floating-point numbers come as bit patterns: a [`Numbers`] table says which
//! texts are numbers, and which.

use crate::error::{Fault, ParamError, WeightOf};
use crate::number;
use crate::polyline;
use crate::text;
use vstd::hash_map::StringHashMap;
use vstd::prelude::*;
use vstd::slice::slice_subrange;
use vstd::string::*;
use vstd::utf8::*;

verus! {

// ---------------------------------------------------------------------------
// Numbers
// ---------------------------------------------------------------------------

/// A double, by its bit pattern, and the text that shows it.
pub struct Double {
    pub bits: u64,
    pub shown: String,
}

/// A stroke width: a single, by its bit pattern, the text that shows it, and
/// the text that shows a width one greater, which an outline has.
pub struct Width {
    pub bits: u32,
    pub shown: String,
    pub outline: String,
}

/// A [`Double`] with its text as a character sequence.
pub struct DoubleView {
    pub bits: u64,
    pub shown: Seq<char>,
}

/// A [`Width`] with its texts as character sequences.
#[verifier::ext_equal]
pub struct WidthView {
    pub bits: u32,
    pub shown: Seq<char>,
    pub outline: Seq<char>,
}

impl View for Double {
    type V = DoubleView;

    open spec fn view(&self) -> DoubleView {
        DoubleView { bits: self.bits, shown: self.shown@ }
    }
}

impl View for Width {
    type V = WidthView;

    open spec fn view(&self) -> WidthView {
        WidthView { bits: self.bits, shown: self.shown@, outline: self.outline@ }
    }
}

impl Width {
    /// A copy of the width.
    pub fn copy(&self) -> (r: Width)
        ensures
            r@ == self@,
    {
        Width { bits: self.bits, shown: self.shown.clone(), outline: self.outline.clone() }
    }
}

/// Which texts are numbers, and which numbers: doubles for coordinates,
/// singles for widths.
pub struct NumberTable {
    pub doubles: Map<Seq<char>, DoubleView>,
    pub singles: Map<Seq<char>, WidthView>,
}

/// The floating-point numbers that texts stand for. A text that is not in the
/// table is not a number.
pub struct Numbers {
    doubles: StringHashMap<Double>,
    singles: StringHashMap<Width>,
}

impl View for Numbers {
    type V = NumberTable;

    closed spec fn view(&self) -> NumberTable {
        NumberTable {
            doubles: self.doubles@.map_values(|d: Double| d@),
            singles: self.singles@.map_values(|w: Width| w@),
        }
    }
}

impl Numbers {
    /// A table without numbers.
    pub fn new() -> (r: Numbers)
        ensures
            r@.doubles == Map::<Seq<char>, DoubleView>::empty(),
            r@.singles == Map::<Seq<char>, WidthView>::empty(),
    {
        let r = Numbers { doubles: StringHashMap::new(), singles: StringHashMap::new() };
        assert(r@.doubles =~= Map::<Seq<char>, DoubleView>::empty());
        assert(r@.singles =~= Map::<Seq<char>, WidthView>::empty());
        r
    }

    /// Records that `text` is the double `value`.
    pub fn add_double(&mut self, text: String, value: Double)
        ensures
            final(self)@.doubles == old(self)@.doubles.insert(text@, value@),
            final(self)@.singles == old(self)@.singles,
    {
        self.doubles.insert(text, value);
        assert(self@.doubles =~= old(self)@.doubles.insert(text@, value@));
    }

    /// Records that `text` is the single `value`.
    pub fn add_single(&mut self, text: String, value: Width)
        ensures
            final(self)@.doubles == old(self)@.doubles,
            final(self)@.singles == old(self)@.singles.insert(text@, value@),
    {
        self.singles.insert(text, value);
        assert(self@.singles =~= old(self)@.singles.insert(text@, value@));
    }

    /// The double that `text` stands for.
    pub fn double(&self, text: &str) -> (r: Option<&Double>)
        ensures
            match r {
                Some(d) => self@.doubles.contains_key(text@) && self@.doubles[text@] == d@,
                None => !self@.doubles.contains_key(text@),
            },
    {
        self.doubles.get(text)
    }

    /// The single that `text` stands for.
    pub fn single(&self, text: &str) -> (r: Option<&Width>)
        ensures
            match r {
                Some(w) => self@.singles.contains_key(text@) && self@.singles[text@] == w@,
                None => !self@.singles.contains_key(text@),
            },
    {
        self.singles.get(text)
    }
}

// ---------------------------------------------------------------------------
// Outcomes
// ---------------------------------------------------------------------------

/// The view of a result.
pub open spec fn outcome<T: View>(r: Result<T, ParamError>) -> Result<T::V, Fault> {
    match r {
        Ok(v) => Ok(v@),
        Err(e) => Err(e@),
    }
}

/// What `step` makes of `start` and the items in turn; the first error ends it.
pub open spec fn each<A, T>(
    items: Seq<A>,
    start: T,
    step: spec_fn(T, A) -> Result<T, Fault>,
) -> Result<T, Fault>
    decreases items.len(),
{
    if items.len() == 0 {
        Ok(start)
    } else {
        match each(items.drop_last(), start, step) {
            Ok(v) => step(v, items.last()),
            Err(e) => Err(e),
        }
    }
}

/// An error among the first items is the error of all.
pub proof fn each_stops<A, T>(
    items: Seq<A>,
    n: int,
    start: T,
    step: spec_fn(T, A) -> Result<T, Fault>,
)
    requires
        0 <= n <= items.len(),
        each(items.take(n), start, step) is Err,
    ensures
        each(items, start, step) == each(items.take(n), start, step),
    decreases items.len(),
{
    if n < items.len() {
        assert(items.drop_last().take(n) =~= items.take(n));
        each_stops(items.drop_last(), n, start, step);
    } else {
        assert(items.take(n) =~= items);
    }
}

// ---------------------------------------------------------------------------
// Coordinates and weights
// ---------------------------------------------------------------------------

/// An angle in degrees: a double by its bit pattern, or a whole number of
/// hundred-thousandths.
#[derive(Clone, Copy, Debug, PartialEq, Eq, Structural)]
pub enum Degrees {
    Double(u64),
    E5(i64),
}

/// A point on the map.
#[derive(Clone, Copy, Debug, PartialEq, Eq, Structural)]
pub struct LatLon {
    pub lat: Degrees,
    pub lon: Degrees,
}

impl View for LatLon {
    type V = LatLon;

    open spec fn view(&self) -> LatLon {
        *self
    }
}

impl Degrees {
    /// Whether the angle is a finite number from `-limit` to `limit`.
    pub open spec fn within(self, limit: nat) -> bool {
        match self {
            Degrees::Double(bits) => number::double_within(bits, limit),
            Degrees::E5(n) => -(limit * 100_000) <= n <= limit * 100_000,
        }
    }
}

impl LatLon {
    /// Whether the point is on the map: the latitude from -90 to 90 and the
    /// longitude from -180 to 180, both finite.
    pub open spec fn valid(self) -> bool {
        self.lat.within(90) && self.lon.within(180)
    }
}

/// The point that a `lat,lon` pair stands for. Further commas are ignored.
pub open spec fn latlon(s: Seq<char>, n: NumberTable) -> Result<LatLon, Fault> {
    let parts = text::split(s, ',');
    let a = text::trim(parts[0]);
    let b = text::trim(parts[1]);
    if !n.doubles.contains_key(a) {
        Err(Fault::InvalidLatitude { pair: s, text: a })
    } else if parts.len() < 2 {
        Err(Fault::MissingLongitude)
    } else if !n.doubles.contains_key(b) {
        Err(Fault::InvalidLongitude { pair: s, text: b })
    } else if !number::double_within(n.doubles[a].bits, 90) {
        Err(Fault::LatitudeOutOfRange { shown: n.doubles[a].shown })
    } else if !number::double_within(n.doubles[b].bits, 180) {
        Err(Fault::LongitudeOutOfRange { shown: n.doubles[b].shown })
    } else {
        Ok(
            LatLon {
                lat: Degrees::Double(n.doubles[a].bits),
                lon: Degrees::Double(n.doubles[b].bits),
            },
        )
    }
}

/// Parses a `lat,lon` pair. What is no number, not finite or outside
/// `[-90, 90]` or `[-180, 180]` is refused.
pub fn parse_latlon(s: &str, numbers: &Numbers) -> (r: Result<LatLon, ParamError>)
    ensures
        outcome(r) == latlon(s@, numbers@),
        r matches Ok(p) ==> p.valid(),
{
    let chars = text::to_chars(s);
    let parts = text::split_at_each(chars.as_slice(), ',');
    proof {
        text::split_characterized(s@, ',');
        assert(text::views(parts@)[0] == parts@[0]@);
        if parts@.len() > 1 {
            assert(text::views(parts@)[1] == parts@[1]@);
        }
    }
    let a = text::to_text(text::trimmed(parts[0]));
    let lat = match numbers.double(a.as_str()) {
        Some(d) => d,
        None => {
            return Err(ParamError::InvalidLatitude { pair: s.to_owned(), text: a });
        },
    };
    if parts.len() < 2 {
        return Err(ParamError::MissingLongitude);
    }
    let b = text::to_text(text::trimmed(parts[1]));
    let lon = match numbers.double(b.as_str()) {
        Some(d) => d,
        None => {
            return Err(ParamError::InvalidLongitude { pair: s.to_owned(), text: b });
        },
    };
    if !number::is_latitude(lat.bits) {
        return Err(ParamError::LatitudeOutOfRange { shown: lat.shown.clone() });
    }
    if !number::is_longitude(lon.bits) {
        return Err(ParamError::LongitudeOutOfRange { shown: lon.shown.clone() });
    }
    Ok(LatLon { lat: Degrees::Double(lat.bits), lon: Degrees::Double(lon.bits) })
}

/// The stroke weight that a text stands for.
pub open spec fn weight(s: Seq<char>, of: WeightOf, n: NumberTable) -> Result<WidthView, Fault> {
    if !n.singles.contains_key(s) {
        Err(Fault::InvalidWeight { of, text: s })
    } else if !number::single_up_to(n.singles[s].bits, 1000) {
        Err(Fault::WeightOutOfRange { of, shown: n.singles[s].shown })
    } else {
        Ok(n.singles[s])
    }
}

/// Parses a finite stroke weight from 0 to 1000.
pub fn parse_weight(value: &str, of: WeightOf, numbers: &Numbers) -> (r: Result<Width, ParamError>)
    ensures
        outcome(r) == weight(value@, of, numbers@),
        r matches Ok(w) ==> number::single_up_to(w.bits, 1000),
{
    match numbers.single(value) {
        None => Err(ParamError::InvalidWeight { of, text: value.to_owned() }),
        Some(w) => if number::is_weight(w.bits) {
            Ok(w.copy())
        } else {
            Err(ParamError::WeightOutOfRange { of, shown: w.shown.clone() })
        },
    }
}

// ---------------------------------------------------------------------------
// Colors
// ---------------------------------------------------------------------------

/// A color with Google's `0x` written as the `#` of CSS.
pub open spec fn css_color(s: Seq<char>) -> Seq<char> {
    if text::starts_with(s, "0x"@) || text::starts_with(s, "0X"@) {
        seq!['#'] + s.skip(2)
    } else {
        s
    }
}

/// Turns a Google-style `0xRRGGBB[AA]` color into `#RRGGBB[AA]`. Anything
/// else is passed through unchanged.
pub fn normalize_color(s: &str) -> (r: String)
    ensures
        r@ == css_color(s@),
{
    let chars = text::to_chars(s);
    if text::has_prefix(chars.as_slice(), "0x") || text::has_prefix(chars.as_slice(), "0X") {
        proof {
            reveal_strlit("0x");
            reveal_strlit("0X");
        }
        let rest = text::to_text(slice_subrange(chars.as_slice(), 2, chars.len()));
        let mut r = String::new();
        r.push('#');
        r.append(rest.as_str());
        assert(r@ =~= seq!['#'] + s@.skip(2));
        r
    } else {
        s.to_owned()
    }
}

/// A normalized color is its own normal form.
pub proof fn css_color_idempotent(s: Seq<char>)
    ensures
        css_color(css_color(s)) == css_color(s),
{
    reveal_strlit("0x");
    reveal_strlit("0X");
    let c = css_color(s);
    if c != s {
        assert(c[0] == '#');
        if text::starts_with(c, "0x"@) {
            assert(c.take(2)[0] == '0');
        }
        if text::starts_with(c, "0X"@) {
            assert(c.take(2)[0] == '0');
        }
    }
}

// ---------------------------------------------------------------------------
// Markers
// ---------------------------------------------------------------------------

/// How large a marker is drawn.
#[derive(Clone, Copy, Debug, PartialEq, Eq, Structural)]
pub enum MarkerSize {
    Tiny,
    Small,
    Mid,
}

impl MarkerSize {
    /// The radius of the marker's circle in pixels.
    pub fn radius(self) -> (r: u8)
        ensures
            r == match self {
                MarkerSize::Tiny => 4u8,
                MarkerSize::Small => 6u8,
                MarkerSize::Mid => 8u8,
            },
    {
        match self {
            MarkerSize::Tiny => 4,
            MarkerSize::Small => 6,
            MarkerSize::Mid => 8,
        }
    }
}

/// Markers that share a color, a label and a size.
pub struct MarkerGroup {
    pub color: String,
    pub label: Option<char>,
    pub size: MarkerSize,
    pub points: Vec<LatLon>,
}

/// A [`MarkerGroup`] with its contents as sequences.
pub struct MarkerGroupView {
    pub color: Seq<char>,
    pub label: Option<char>,
    pub size: MarkerSize,
    pub points: Seq<LatLon>,
}

impl View for MarkerGroup {
    type V = MarkerGroupView;

    open spec fn view(&self) -> MarkerGroupView {
        MarkerGroupView {
            color: self.color@,
            label: self.label,
            size: self.size,
            points: self.points@,
        }
    }
}

/// The size that a `size:` token names; an unknown one is the middle size.
pub open spec fn size_named(value: Seq<char>) -> MarkerSize {
    if text::eq_ignore_case(value, "tiny"@) {
        MarkerSize::Tiny
    } else if text::eq_ignore_case(value, "small"@) {
        MarkerSize::Small
    } else {
        MarkerSize::Mid
    }
}

/// The label that a `label:` token gives: its first character as a capital.
pub open spec fn label_of(value: Seq<char>) -> Option<char> {
    if value.len() > 0 {
        Some(text::ascii_upper(value[0]))
    } else {
        None
    }
}

/// The group after one more token: a `key:value` token sets a style, any
/// other that is not empty is a point.
pub open spec fn marker_token(
    g: MarkerGroupView,
    token: Seq<char>,
    n: NumberTable,
) -> Result<MarkerGroupView, Fault> {
    if token.len() == 0 {
        Ok(g)
    } else {
        match text::split_once(token, ':') {
            Some((key, value)) => Ok(
                if text::eq_ignore_case(key, "color"@) {
                    MarkerGroupView { color: css_color(value), ..g }
                } else if text::eq_ignore_case(key, "label"@) {
                    MarkerGroupView { label: label_of(value), ..g }
                } else if text::eq_ignore_case(key, "size"@) {
                    MarkerGroupView { size: size_named(value), ..g }
                } else {
                    g
                },
            ),
            None => match latlon(token, n) {
                Ok(p) => Ok(MarkerGroupView { points: g.points.push(p), ..g }),
                Err(e) => Err(e),
            },
        }
    }
}

/// A token does one of two things: with a `:` it sets a style, never fails and
/// adds no point; without one it adds a point or fails, and sets no style.
pub proof fn marker_token_does_one_thing(g: MarkerGroupView, token: Seq<char>, n: NumberTable)
    ensures
        text::split_once(token, ':') is Some ==> (marker_token(g, token, n) matches Ok(r)
            && r.points == g.points),
        text::split_once(token, ':') is None && token.len() > 0 ==> match (
            marker_token(g, token, n),
            latlon(token, n),
        ) {
            (Ok(r), Ok(p)) => r == (MarkerGroupView { points: g.points.push(p), ..g }),
            (Err(e), Err(f)) => e == f,
            _ => false,
        },
{
}

/// [`marker_token`] as a step.
pub open spec fn marker_step(n: NumberTable) -> spec_fn(
    MarkerGroupView,
    Seq<char>,
) -> Result<MarkerGroupView, Fault> {
    |g: MarkerGroupView, token: Seq<char>| marker_token(g, token, n)
}

/// A group to which no token has been applied.
pub open spec fn plain_group() -> MarkerGroupView {
    MarkerGroupView { color: "red"@, label: None, size: MarkerSize::Mid, points: Seq::empty() }
}

/// The group that a `markers` value describes.
pub open spec fn marker_group(raw: Seq<char>, n: NumberTable) -> Result<MarkerGroupView, Fault> {
    each(text::split(raw, '|'), plain_group(), marker_step(n))
}

/// Parses one `markers` value: a `|`-separated mix of `key:value` styles
/// (`color:red`, `label:A`, `size:small`) and `lat,lon` pairs.
pub fn parse_marker_group(raw: &str, numbers: &Numbers) -> (r: Result<MarkerGroup, ParamError>)
    ensures
        outcome(r) == marker_group(raw@, numbers@),
        r matches Ok(g) ==> all_valid(g.points@),
{
    let chars = text::to_chars(raw);
    let tokens = text::split_at_each(chars.as_slice(), '|');
    let ghost all = text::split(raw@, '|');
    let ghost step = marker_step(numbers@);
    let mut g = MarkerGroup {
        color: "red".to_owned(),
        label: None,
        size: MarkerSize::Mid,
        points: Vec::new(),
    };
    assert(all.take(0) =~= Seq::empty());
    let mut i: usize = 0;
    while i < tokens.len()
        invariant
            i <= tokens@.len(),
            text::views(tokens@) == all,
            all == text::split(raw@, '|'),
            step == marker_step(numbers@),
            each(all.take(i as int), plain_group(), step) == Ok::<_, Fault>(g@),
            all_valid(g.points@),
        decreases tokens@.len() - i,
    {
        let token = tokens[i];
        assert(all[i as int] == token@);
        assert(all.take(i + 1).drop_last() =~= all.take(i as int));
        assert(all.take(i + 1).last() == token@);
        if token.len() > 0 {
            match text::split_at_first(token, ':') {
                Some((key, value)) => {
                    if text::is_text_ignoring_case(key, "color") {
                        let value = text::to_text(value);
                        g.color = normalize_color(value.as_str());
                    } else if text::is_text_ignoring_case(key, "label") {
                        g.label = if value.len() > 0 {
                            Some(text::upper(value[0]))
                        } else {
                            None
                        };
                    } else if text::is_text_ignoring_case(key, "size") {
                        g.size = if text::is_text_ignoring_case(value, "tiny") {
                            MarkerSize::Tiny
                        } else if text::is_text_ignoring_case(value, "small") {
                            MarkerSize::Small
                        } else {
                            MarkerSize::Mid
                        };
                    }
                },
                None => {
                    let pair = text::to_text(token);
                    match parse_latlon(pair.as_str(), numbers) {
                        Ok(p) => {
                            g.points.push(p);
                        },
                        Err(e) => {
                            proof {
                                each_stops(all, i + 1, plain_group(), step);
                            }
                            return Err(e);
                        },
                    }
                },
            }
        }
        i += 1;
    }
    assert(all.take(i as int) =~= all);
    Ok(g)
}

/// Whether every point is on the map.
pub open spec fn all_valid(points: Seq<LatLon>) -> bool {
    forall|i: int| 0 <= i < points.len() ==> (#[trigger] points[i]).valid()
}

/// The views of marker groups.
pub open spec fn group_views(groups: Seq<MarkerGroup>) -> Seq<MarkerGroupView> {
    groups.map_values(|g: MarkerGroup| g@)
}

/// Reads one more `markers` value.
pub open spec fn groups_step(n: NumberTable) -> spec_fn(
    Seq<MarkerGroupView>,
    Seq<char>,
) -> Result<Seq<MarkerGroupView>, Fault> {
    |groups: Seq<MarkerGroupView>, raw: Seq<char>|
        match marker_group(raw, n) {
            Ok(g) => Ok(groups.push(g)),
            Err(e) => Err(e),
        }
}

/// The groups that the `markers` values describe, in order.
pub open spec fn marker_groups(raw: Seq<Seq<char>>, n: NumberTable) -> Result<
    Seq<MarkerGroupView>,
    Fault,
> {
    each(raw, Seq::empty(), groups_step(n))
}

/// Parses all `markers` values.
pub fn parse_marker_groups(raw: &[String], numbers: &Numbers) -> (r: Result<
    Vec<MarkerGroup>,
    ParamError,
>)
    ensures
        match r {
            Ok(groups) => marker_groups(text::texts(raw@), numbers@) == Ok::<_, Fault>(
                group_views(groups@),
            ) && forall|i: int|
                0 <= i < groups@.len() ==> all_valid((#[trigger] groups@[i]).points@),
            Err(e) => marker_groups(text::texts(raw@), numbers@) == Err::<
                Seq<MarkerGroupView>,
                Fault,
            >(e@),
        },
{
    let ghost all = text::texts(raw@);
    let ghost step = groups_step(numbers@);
    let ghost none = Seq::<MarkerGroupView>::empty();
    let mut groups: Vec<MarkerGroup> = Vec::new();
    assert(all.take(0) =~= Seq::empty());
    assert(group_views(groups@) =~= none);
    let mut i: usize = 0;
    while i < raw.len()
        invariant
            i <= raw@.len(),
            all == text::texts(raw@),
            step == groups_step(numbers@),
            none == Seq::<MarkerGroupView>::empty(),
            each(all.take(i as int), none, step) == Ok::<_, Fault>(group_views(groups@)),
            forall|j: int| 0 <= j < groups@.len() ==> all_valid((#[trigger] groups@[j]).points@),
        decreases raw@.len() - i,
    {
        assert(all.take(i + 1).drop_last() =~= all.take(i as int));
        assert(all.take(i + 1).last() == raw@[i as int]@);
        let ghost before = group_views(groups@);
        match parse_marker_group(raw[i].as_str(), numbers) {
            Ok(g) => {
                groups.push(g);
                assert(group_views(groups@) =~= before.push(g@));
            },
            Err(e) => {
                proof {
                    each_stops(all, i + 1, none, step);
                }
                return Err(e);
            },
        }
        i += 1;
    }
    assert(all.take(i as int) =~= all);
    Ok(groups)
}

// ---------------------------------------------------------------------------
// Paths
// ---------------------------------------------------------------------------

/// A route to draw, and how.
pub struct PathSpec {
    pub color: String,
    pub weight: Width,
    pub fillcolor: Option<String>,
    pub points: Vec<LatLon>,
}

/// A [`PathSpec`] with its contents as sequences.
pub struct PathSpecView {
    pub color: Seq<char>,
    pub weight: WidthView,
    pub fillcolor: Option<Seq<char>>,
    pub points: Seq<LatLon>,
}

impl View for PathSpec {
    type V = PathSpecView;

    open spec fn view(&self) -> PathSpecView {
        PathSpecView {
            color: self.color@,
            weight: self.weight@,
            fillcolor: text::opt_string(self.fillcolor),
            points: self.points@,
        }
    }
}

impl PathSpecView {
    /// Whether the points are on the map and the weight is a finite number
    /// from 0 to 1000.
    pub open spec fn valid(self) -> bool {
        all_valid(self.points) && number::single_up_to(self.weight.bits, 1000)
    }
}

/// The path after one more token: a `key:value` token sets a style, any other
/// that is not empty is a point.
pub open spec fn path_token(
    p: PathSpecView,
    token: Seq<char>,
    n: NumberTable,
) -> Result<PathSpecView, Fault> {
    if token.len() == 0 {
        Ok(p)
    } else {
        match text::split_once(token, ':') {
            Some((key, value)) => if text::eq_ignore_case(key, "color"@) {
                Ok(PathSpecView { color: css_color(value), ..p })
            } else if text::eq_ignore_case(key, "weight"@) {
                match weight(value, WeightOf::Path, n) {
                    Ok(w) => Ok(PathSpecView { weight: w, ..p }),
                    Err(e) => Err(e),
                }
            } else if text::eq_ignore_case(key, "fillcolor"@) {
                Ok(PathSpecView { fillcolor: Some(css_color(value)), ..p })
            } else {
                Ok(p)
            },
            None => match latlon(token, n) {
                Ok(q) => Ok(PathSpecView { points: p.points.push(q), ..p }),
                Err(e) => Err(e),
            },
        }
    }
}

/// [`path_token`] as a step.
pub open spec fn path_step(n: NumberTable) -> spec_fn(PathSpecView, Seq<char>) -> Result<
    PathSpecView,
    Fault,
> {
    |p: PathSpecView, token: Seq<char>| path_token(p, token, n)
}

/// A path to which no token has been applied: blue and four pixels wide.
pub open spec fn plain_path() -> PathSpecView {
    PathSpecView {
        color: "#3388ff"@,
        weight: WidthView { bits: number::SINGLE_4, shown: "4"@, outline: "5"@ },
        fillcolor: None,
        points: Seq::empty(),
    }
}

/// The path with one more decoded point, which has to be on the map.
pub open spec fn encoded_step() -> spec_fn(PathSpecView, (i64, i64)) -> Result<PathSpecView, Fault> {
    |p: PathSpecView, q: (i64, i64)|
        {
            let point = LatLon { lat: Degrees::E5(q.0), lon: Degrees::E5(q.1) };
            if point.valid() {
                Ok(PathSpecView { points: p.points.push(point), ..p })
            } else {
                Err(Fault::EncodedOutOfRange { lat: q.0, lon: q.1 })
            }
        }
}

/// The part of a `path` value before its first `enc:`, and the encoded
/// polyline after it. The polyline runs to the end of the value, since it may
/// itself hold a `|`.
pub open spec fn path_parts(raw: Seq<char>) -> (Seq<char>, Option<Seq<char>>) {
    match text::find(raw, "enc:"@) {
        Some(i) => (raw.take(i), Some(raw.skip(i + 4))),
        None => (raw, None),
    }
}

/// The path that a `path` value describes.
pub open spec fn path_spec(raw: Seq<char>, n: NumberTable) -> Result<PathSpecView, Fault> {
    let (style, encoded) = path_parts(raw);
    match each(text::split(style, '|'), plain_path(), path_step(n)) {
        Ok(p) => match encoded {
            Some(e) => each(polyline::points(e), p, encoded_step()),
            None => Ok(p),
        },
        Err(e) => Err(e),
    }
}

/// Reads the tokens before an encoded polyline.
fn parse_path_tokens(style: &[char], numbers: &Numbers) -> (r: Result<PathSpec, ParamError>)
    ensures
        outcome(r) == each(text::split(style@, '|'), plain_path(), path_step(numbers@)),
        r matches Ok(p) ==> p@.valid(),
{
    let tokens = text::split_at_each(style, '|');
    let ghost all = text::split(style@, '|');
    let ghost step = path_step(numbers@);
    let mut p = PathSpec {
        color: "#3388ff".to_owned(),
        weight: Width {
            bits: number::SINGLE_4,
            shown: "4".to_owned(),
            outline: "5".to_owned(),
        },
        fillcolor: None,
        points: Vec::new(),
    };
    proof {
        number::fixed_widths_are_weights();
    }
    assert(all.take(0) =~= Seq::empty());
    let mut i: usize = 0;
    while i < tokens.len()
        invariant
            i <= tokens@.len(),
            text::views(tokens@) == all,
            all == text::split(style@, '|'),
            step == path_step(numbers@),
            each(all.take(i as int), plain_path(), step) == Ok::<_, Fault>(p@),
            p@.valid(),
        decreases tokens@.len() - i,
    {
        let token = tokens[i];
        assert(all[i as int] == token@);
        assert(all.take(i + 1).drop_last() =~= all.take(i as int));
        assert(all.take(i + 1).last() == token@);
        if token.len() > 0 {
            match text::split_at_first(token, ':') {
                Some((key, value)) => {
                    let value = text::to_text(value);
                    if text::is_text_ignoring_case(key, "color") {
                        p.color = normalize_color(value.as_str());
                    } else if text::is_text_ignoring_case(key, "weight") {
                        match parse_weight(value.as_str(), WeightOf::Path, numbers) {
                            Ok(w) => {
                                p.weight = w;
                            },
                            Err(e) => {
                                proof {
                                    each_stops(all, i + 1, plain_path(), step);
                                }
                                return Err(e);
                            },
                        }
                    } else if text::is_text_ignoring_case(key, "fillcolor") {
                        p.fillcolor = Some(normalize_color(value.as_str()));
                    }
                },
                None => {
                    let pair = text::to_text(token);
                    match parse_latlon(pair.as_str(), numbers) {
                        Ok(q) => {
                            p.points.push(q);
                        },
                        Err(e) => {
                            proof {
                                each_stops(all, i + 1, plain_path(), step);
                            }
                            return Err(e);
                        },
                    }
                },
            }
        }
        i += 1;
    }
    assert(all.take(i as int) =~= all);
    Ok(p)
}

/// Adds the points of an encoded polyline to a path.
fn add_encoded(path: PathSpec, encoded: &str) -> (r: Result<PathSpec, ParamError>)
    requires
        path@.valid(),
    ensures
        outcome(r) == each(polyline::points(encoded@), path@, encoded_step()),
        r matches Ok(p) ==> p@.valid(),
{
    let decoded = polyline::decode(encoded);
    let ghost all = decoded@;
    let ghost step = encoded_step();
    let ghost start = path@;
    let mut p = path;
    assert(all.take(0) =~= Seq::empty());
    let mut i: usize = 0;
    while i < decoded.len()
        invariant
            i <= decoded@.len(),
            all == decoded@,
            step == encoded_step(),
            each(all.take(i as int), start, step) == Ok::<_, Fault>(p@),
            p@.valid(),
            all == polyline::points(encoded@),
            start == path@,
        decreases decoded@.len() - i,
    {
        let (lat, lon) = decoded[i];
        assert(all.take(i + 1).drop_last() =~= all.take(i as int));
        assert(all.take(i + 1).last() == (lat, lon));
        if lat < -9_000_000 || lat > 9_000_000 || lon < -18_000_000 || lon > 18_000_000 {
            proof {
                each_stops(all, i + 1, start, step);
            }
            return Err(ParamError::EncodedOutOfRange { lat, lon });
        }
        p.points.push(LatLon { lat: Degrees::E5(lat), lon: Degrees::E5(lon) });
        i += 1;
    }
    assert(all.take(i as int) =~= all);
    Ok(p)
}

/// Parses one `path` value: `|`-separated `key:value` styles (`color:`,
/// `weight:`, `fillcolor:`) and `lat,lon` pairs, which an encoded polyline
/// (`enc:`) may follow.
pub fn parse_path_spec(raw: &str, numbers: &Numbers) -> (r: Result<PathSpec, ParamError>)
    ensures
        outcome(r) == path_spec(raw@, numbers@),
        r matches Ok(p) ==> p@.valid(),
{
    let chars = text::to_chars(raw);
    proof {
        reveal_strlit("enc:");
        text::find_characterized(raw@, "enc:"@);
    }
    match text::find_text(chars.as_slice(), "enc:") {
        Some(i) => {
            assert(text::occurs_at(raw@, "enc:"@, i as int));
            assert(i + 4 <= chars@.len());
            let style = slice_subrange(chars.as_slice(), 0, i);
            let encoded = text::to_text(slice_subrange(chars.as_slice(), i + 4, chars.len()));
            assert(style@ =~= raw@.take(i as int));
            assert(encoded@ =~= raw@.skip(i + 4));
            match parse_path_tokens(style, numbers) {
                Ok(p) => add_encoded(p, encoded.as_str()),
                Err(e) => Err(e),
            }
        },
        None => parse_path_tokens(chars.as_slice(), numbers),
    }
}

/// Points in hundred-thousandths of a degree.
pub open spec fn e5_points(list: Seq<(i64, i64)>) -> Seq<LatLon> {
    list.map_values(|q: (i64, i64)| LatLon { lat: Degrees::E5(q.0), lon: Degrees::E5(q.1) })
}

/// A path of points that are on the map, written as an encoded polyline, has
/// exactly those points.
pub proof fn encoded_path_reads_back(encoded: Seq<char>, list: Seq<(i64, i64)>, n: NumberTable)
    requires
        polyline::steps_fit(list, 0, 0),
        encode_utf8(encoded) == polyline::encode_from(list, 0, 0),
        all_valid(e5_points(list)),
    ensures
        path_spec("enc:"@ + encoded, n) == Ok::<_, Fault>(
            PathSpecView { points: e5_points(list), ..plain_path() },
        ),
{
    let raw = "enc:"@ + encoded;
    reveal_strlit("enc:");
    assert(raw.subrange(0, 4) =~= "enc:"@);
    assert(text::occurs_at(raw, "enc:"@, 0));
    assert(raw.take(0) =~= Seq::empty());
    assert(raw.skip(4) =~= encoded);
    let tokens = text::split(raw.take(0), '|');
    assert(tokens =~= seq![Seq::<char>::empty()]);
    assert(tokens.drop_last() =~= Seq::empty());
    reveal_with_fuel(each, 2);
    polyline::decode_undoes_encode(encoded, list);
    encoded_points_added(list, plain_path());
    assert(plain_path().points + e5_points(list) =~= e5_points(list));
}

proof fn encoded_points_added(list: Seq<(i64, i64)>, p: PathSpecView)
    requires
        all_valid(e5_points(list)),
    ensures
        each(list, p, encoded_step()) == Ok::<_, Fault>(
            PathSpecView { points: p.points + e5_points(list), ..p },
        ),
    decreases list.len(),
{
    let all = e5_points(list);
    if list.len() == 0 {
        assert(p.points + all =~= p.points);
    } else {
        let front = list.drop_last();
        assert(e5_points(front) =~= all.drop_last());
        assert forall|i: int| 0 <= i < e5_points(front).len() implies (#[trigger] e5_points(
            front,
        )[i]).valid() by {
            assert(all[i].valid());
        }
        encoded_points_added(front, p);
        assert(all[list.len() - 1].valid());
        assert(p.points + all =~= (p.points + e5_points(front)).push(all.last()));
    }
}

/// The views of paths.
pub open spec fn path_views(paths: Seq<PathSpec>) -> Seq<PathSpecView> {
    paths.map_values(|p: PathSpec| p@)
}

/// Reads one more `path` value.
pub open spec fn paths_step(n: NumberTable) -> spec_fn(Seq<PathSpecView>, Seq<char>) -> Result<
    Seq<PathSpecView>,
    Fault,
> {
    |paths: Seq<PathSpecView>, raw: Seq<char>|
        match path_spec(raw, n) {
            Ok(p) => Ok(paths.push(p)),
            Err(e) => Err(e),
        }
}

/// The paths that the `path` values describe, in order.
pub open spec fn path_specs(raw: Seq<Seq<char>>, n: NumberTable) -> Result<
    Seq<PathSpecView>,
    Fault,
> {
    each(raw, Seq::empty(), paths_step(n))
}

/// Parses all `path` values.
pub fn parse_path_specs(raw: &[String], numbers: &Numbers) -> (r: Result<Vec<PathSpec>, ParamError>)
    ensures
        match r {
            Ok(paths) => path_specs(text::texts(raw@), numbers@) == Ok::<_, Fault>(
                path_views(paths@),
            ) && forall|i: int|
                0 <= i < paths@.len() ==> (#[trigger] paths@[i])@.valid(),
            Err(e) => path_specs(text::texts(raw@), numbers@) == Err::<Seq<PathSpecView>, Fault>(
                e@,
            ),
        },
{
    let ghost all = text::texts(raw@);
    let ghost step = paths_step(numbers@);
    let ghost none = Seq::<PathSpecView>::empty();
    let mut paths: Vec<PathSpec> = Vec::new();
    assert(all.take(0) =~= Seq::empty());
    assert(path_views(paths@) =~= none);
    let mut i: usize = 0;
    while i < raw.len()
        invariant
            i <= raw@.len(),
            all == text::texts(raw@),
            step == paths_step(numbers@),
            none == Seq::<PathSpecView>::empty(),
            each(all.take(i as int), none, step) == Ok::<_, Fault>(path_views(paths@)),
            forall|j: int| 0 <= j < paths@.len() ==> (#[trigger] paths@[j])@.valid(),
        decreases raw@.len() - i,
    {
        assert(all.take(i + 1).drop_last() =~= all.take(i as int));
        assert(all.take(i + 1).last() == raw@[i as int]@);
        let ghost before = path_views(paths@);
        match parse_path_spec(raw[i].as_str(), numbers) {
            Ok(p) => {
                paths.push(p);
                assert(path_views(paths@) =~= before.push(p@));
            },
            Err(e) => {
                proof {
                    each_stops(all, i + 1, none, step);
                }
                return Err(e);
            },
        }
        i += 1;
    }
    assert(all.take(i as int) =~= all);
    Ok(paths)
}

// ---------------------------------------------------------------------------
// Style overrides
// ---------------------------------------------------------------------------

/// A color and a weight in place of the default ones.
pub struct StyleOverride {
    pub color: Option<String>,
    pub weight: Option<Width>,
}

/// A [`StyleOverride`] with its contents as sequences.
pub struct StyleOverrideView {
    pub color: Option<Seq<char>>,
    pub weight: Option<WidthView>,
}

/// The view of an optional width.
pub open spec fn opt_width(w: Option<Width>) -> Option<WidthView> {
    match w {
        Some(w) => Some(w@),
        None => None,
    }
}

impl View for StyleOverride {
    type V = StyleOverrideView;

    open spec fn view(&self) -> StyleOverrideView {
        StyleOverrideView { color: text::opt_string(self.color), weight: opt_width(self.weight) }
    }
}

impl StyleOverrideView {
    /// Whether the weight, if any, is a finite number from 0 to 1000.
    pub open spec fn valid(self) -> bool {
        self.weight matches Some(w) ==> number::single_up_to(w.bits, 1000)
    }
}

impl Default for StyleOverride {
    fn default() -> (r: StyleOverride)
        ensures
            r@ == no_override(),
    {
        StyleOverride { color: None, weight: None }
    }
}

/// An override that changes nothing.
pub open spec fn no_override() -> StyleOverrideView {
    StyleOverrideView { color: None, weight: None }
}

/// The feature and the override after one more token. Tokens without a `:`
/// and unknown keys are ignored.
pub open spec fn style_token(
    s: (Seq<char>, StyleOverrideView),
    token: Seq<char>,
    n: NumberTable,
) -> Result<(Seq<char>, StyleOverrideView), Fault> {
    let (feature, over) = s;
    match text::split_once(token, ':') {
        Some((key, value)) => if text::eq_ignore_case(key, "feature"@) {
            Ok((text::lowercase(value), over))
        } else if text::eq_ignore_case(key, "color"@) {
            Ok((feature, StyleOverrideView { color: Some(css_color(value)), ..over }))
        } else if text::eq_ignore_case(key, "weight"@) {
            match weight(value, WeightOf::Style, n) {
                Ok(w) => Ok((feature, StyleOverrideView { weight: Some(w), ..over })),
                Err(e) => Err(e),
            }
        } else {
            Ok(s)
        },
        None => Ok(s),
    }
}

/// [`style_token`] as a step.
pub open spec fn style_step(n: NumberTable) -> spec_fn(
    (Seq<char>, StyleOverrideView),
    Seq<char>,
) -> Result<(Seq<char>, StyleOverrideView), Fault> {
    |s: (Seq<char>, StyleOverrideView), token: Seq<char>| style_token(s, token, n)
}

/// The feature bucket that a `style` value names, or `all`, and the override
/// for it.
pub open spec fn style_override(raw: Seq<char>, n: NumberTable) -> Result<
    (Seq<char>, StyleOverrideView),
    Fault,
> {
    each(text::split(raw, '|'), ("all"@, no_override()), style_step(n))
}

/// Parses one `style` value, e.g. `feature:water|color:0x224466`.
pub fn parse_style_override(raw: &str, numbers: &Numbers) -> (r: Result<
    (String, StyleOverride),
    ParamError,
>)
    ensures
        match r {
            Ok((feature, over)) => style_override(raw@, numbers@) == Ok::<_, Fault>(
                (feature@, over@),
            ) && over@.valid(),
            Err(e) => style_override(raw@, numbers@) == Err::<
                (Seq<char>, StyleOverrideView),
                Fault,
            >(e@),
        },
{
    let chars = text::to_chars(raw);
    let tokens = text::split_at_each(chars.as_slice(), '|');
    let ghost all = text::split(raw@, '|');
    let ghost step = style_step(numbers@);
    let ghost start = ("all"@, no_override());
    let mut feature = "all".to_owned();
    let mut over = StyleOverride::default();
    assert(all.take(0) =~= Seq::empty());
    let mut i: usize = 0;
    while i < tokens.len()
        invariant
            i <= tokens@.len(),
            text::views(tokens@) == all,
            all == text::split(raw@, '|'),
            step == style_step(numbers@),
            start == ("all"@, no_override()),
            each(all.take(i as int), start, step) == Ok::<_, Fault>((feature@, over@)),
            over@.valid(),
        decreases tokens@.len() - i,
    {
        let token = tokens[i];
        assert(all[i as int] == token@);
        assert(all.take(i + 1).drop_last() =~= all.take(i as int));
        assert(all.take(i + 1).last() == token@);
        if let Some((key, value)) = text::split_at_first(token, ':') {
            let value = text::to_text(value);
            if text::is_text_ignoring_case(key, "feature") {
                feature = text::to_lowercase(value.as_str());
            } else if text::is_text_ignoring_case(key, "color") {
                over.color = Some(normalize_color(value.as_str()));
            } else if text::is_text_ignoring_case(key, "weight") {
                match parse_weight(value.as_str(), WeightOf::Style, numbers) {
                    Ok(w) => {
                        over.weight = Some(w);
                    },
                    Err(e) => {
                        proof {
                            each_stops(all, i + 1, start, step);
                        }
                        return Err(e);
                    },
                }
            }
        }
        i += 1;
    }
    assert(all.take(i as int) =~= all);
    Ok((feature, over))
}

/// The overrides that a table holds, by feature bucket.
pub open spec fn override_views(map: Map<Seq<char>, StyleOverride>) -> Map<
    Seq<char>,
    StyleOverrideView,
> {
    map.map_values(|o: StyleOverride| o@)
}

/// Reads one more `style` value; it replaces an earlier one for its feature.
pub open spec fn overrides_step(n: NumberTable) -> spec_fn(
    Map<Seq<char>, StyleOverrideView>,
    Seq<char>,
) -> Result<Map<Seq<char>, StyleOverrideView>, Fault> {
    |map: Map<Seq<char>, StyleOverrideView>, raw: Seq<char>|
        match style_override(raw, n) {
            Ok((feature, over)) => Ok(map.insert(feature, over)),
            Err(e) => Err(e),
        }
}

/// The overrides that the `style` values describe.
pub open spec fn style_overrides(raw: Seq<Seq<char>>, n: NumberTable) -> Result<
    Map<Seq<char>, StyleOverrideView>,
    Fault,
> {
    each(raw, Map::empty(), overrides_step(n))
}

/// A later value replaces what earlier ones say of its feature, and nothing
/// else.
pub proof fn later_style_replaces(
    raw: Seq<Seq<char>>,
    later: Seq<char>,
    n: NumberTable,
    map: Map<Seq<char>, StyleOverrideView>,
    feature: Seq<char>,
    over: StyleOverrideView,
)
    requires
        style_overrides(raw, n) == Ok::<_, Fault>(map),
        style_override(later, n) == Ok::<_, Fault>((feature, over)),
    ensures
        style_overrides(raw.push(later), n) == Ok::<_, Fault>(map.insert(feature, over)),
{
    assert(raw.push(later).drop_last() =~= raw);
}

/// Parses all `style` values.
pub fn parse_style_overrides(raw: &[String], numbers: &Numbers) -> (r: Result<
    StringHashMap<StyleOverride>,
    ParamError,
>)
    ensures
        match r {
            Ok(map) => style_overrides(text::texts(raw@), numbers@) == Ok::<_, Fault>(
                override_views(map@),
            ) && forall|feature: Seq<char>| #[trigger]
                map@.contains_key(feature) ==> map@[feature]@.valid(),
            Err(e) => style_overrides(text::texts(raw@), numbers@) == Err::<
                Map<Seq<char>, StyleOverrideView>,
                Fault,
            >(e@),
        },
{
    let ghost all = text::texts(raw@);
    let ghost step = overrides_step(numbers@);
    let ghost none = Map::<Seq<char>, StyleOverrideView>::empty();
    let mut map: StringHashMap<StyleOverride> = StringHashMap::new();
    assert(all.take(0) =~= Seq::empty());
    assert(override_views(map@) =~= none);
    let mut i: usize = 0;
    while i < raw.len()
        invariant
            i <= raw@.len(),
            all == text::texts(raw@),
            step == overrides_step(numbers@),
            none == Map::<Seq<char>, StyleOverrideView>::empty(),
            each(all.take(i as int), none, step) == Ok::<_, Fault>(override_views(map@)),
            forall|feature: Seq<char>| #[trigger]
                map@.contains_key(feature) ==> map@[feature]@.valid(),
        decreases raw@.len() - i,
    {
        assert(all.take(i + 1).drop_last() =~= all.take(i as int));
        assert(all.take(i + 1).last() == raw@[i as int]@);
        let ghost before = override_views(map@);
        match parse_style_override(raw[i].as_str(), numbers) {
            Ok((feature, over)) => {
                map.insert(feature, over);
                assert(override_views(map@) =~= before.insert(feature@, over@));
            },
            Err(e) => {
                proof {
                    each_stops(all, i + 1, none, step);
                }
                return Err(e);
            },
        }
        i += 1;
    }
    assert(all.take(i as int) =~= all);
    Ok(map)
}

// ---------------------------------------------------------------------------
// Points to keep visible
// ---------------------------------------------------------------------------

/// The points after one more `lat,lon` pair; an empty one is skipped.
pub open spec fn point_step(n: NumberTable) -> spec_fn(Seq<LatLon>, Seq<char>) -> Result<
    Seq<LatLon>,
    Fault,
> {
    |points: Seq<LatLon>, pair: Seq<char>|
        if pair.len() == 0 {
            Ok(points)
        } else {
            match latlon(pair, n) {
                Ok(p) => Ok(points.push(p)),
                Err(e) => Err(e),
            }
        }
}

/// The points after one more `visible` value.
pub open spec fn visible_step(n: NumberTable) -> spec_fn(Seq<LatLon>, Seq<char>) -> Result<
    Seq<LatLon>,
    Fault,
> {
    |points: Seq<LatLon>, raw: Seq<char>| each(text::split(raw, '|'), points, point_step(n))
}

/// The points of all `visible` values, in order.
pub open spec fn visible(raw: Seq<Seq<char>>, n: NumberTable) -> Result<Seq<LatLon>, Fault> {
    each(raw, Seq::empty(), visible_step(n))
}

/// Adds the points of one `visible` value.
fn add_visible(start: Vec<LatLon>, raw: &str, numbers: &Numbers) -> (r: Result<
    Vec<LatLon>,
    ParamError,
>)
    requires
        all_valid(start@),
    ensures
        outcome(r) == each(text::split(raw@, '|'), start@, point_step(numbers@)),
        r matches Ok(points) ==> all_valid(points@),
{
    let chars = text::to_chars(raw);
    let pairs = text::split_at_each(chars.as_slice(), '|');
    let ghost all = text::split(raw@, '|');
    let ghost step = point_step(numbers@);
    let mut points = start;
    assert(all.take(0) =~= Seq::empty());
    let mut i: usize = 0;
    while i < pairs.len()
        invariant
            i <= pairs@.len(),
            text::views(pairs@) == all,
            all == text::split(raw@, '|'),
            step == point_step(numbers@),
            each(all.take(i as int), start@, step) == Ok::<_, Fault>(points@),
            all_valid(points@),
        decreases pairs@.len() - i,
    {
        let pair = pairs[i];
        assert(all[i as int] == pair@);
        assert(all.take(i + 1).drop_last() =~= all.take(i as int));
        assert(all.take(i + 1).last() == pair@);
        if pair.len() > 0 {
            let pair = text::to_text(pair);
            match parse_latlon(pair.as_str(), numbers) {
                Ok(p) => {
                    points.push(p);
                },
                Err(e) => {
                    proof {
                        each_stops(all, i + 1, start@, step);
                    }
                    return Err(e);
                },
            }
        }
        i += 1;
    }
    assert(all.take(i as int) =~= all);
    Ok(points)
}

/// Parses all `visible` values, each `|`-separated `lat,lon` pairs, into one
/// list of points.
pub fn parse_visible(raw: &[String], numbers: &Numbers) -> (r: Result<Vec<LatLon>, ParamError>)
    ensures
        outcome(r) == visible(text::texts(raw@), numbers@),
        r matches Ok(points) ==> all_valid(points@),
{
    let ghost all = text::texts(raw@);
    let ghost step = visible_step(numbers@);
    let ghost none = Seq::<LatLon>::empty();
    let mut points: Vec<LatLon> = Vec::new();
    assert(all.take(0) =~= Seq::empty());
    let mut i: usize = 0;
    while i < raw.len()
        invariant
            i <= raw@.len(),
            all == text::texts(raw@),
            step == visible_step(numbers@),
            none == Seq::<LatLon>::empty(),
            each(all.take(i as int), none, step) == Ok::<_, Fault>(points@),
            all_valid(points@),
        decreases raw@.len() - i,
    {
        assert(all.take(i + 1).drop_last() =~= all.take(i as int));
        assert(all.take(i + 1).last() == raw@[i as int]@);
        match add_visible(points, raw[i].as_str(), numbers) {
            Ok(more) => {
                points = more;
            },
            Err(e) => {
                proof {
                    each_stops(all, i + 1, none, step);
                }
                return Err(e);
            },
        }
        i += 1;
    }
    assert(all.take(i as int) =~= all);
    Ok(points)
}

// ---------------------------------------------------------------------------
// What holds of every parameter
// ---------------------------------------------------------------------------

/// A pair of two numbers is the point with the first as its latitude and the
/// second as its longitude, white space around them aside. It is accepted
/// exactly where the two are numbers in range.
pub proof fn pair_is_its_point(a: Seq<char>, b: Seq<char>, n: NumberTable)
    requires
        !a.contains(','),
        !b.contains(','),
    ensures
        ({
            let (x, y) = (text::trim(a), text::trim(b));
            let r = latlon(a.push(',') + b, n);
            &&& r is Ok <==> {
                &&& n.doubles.contains_key(x)
                &&& n.doubles.contains_key(y)
                &&& number::double_within(n.doubles[x].bits, 90)
                &&& number::double_within(n.doubles[y].bits, 180)
            }
            &&& r matches Ok(p) ==> p.lat == Degrees::Double(n.doubles[x].bits) && p.lon
                == Degrees::Double(n.doubles[y].bits)
        }),
{
    text::split_concat(a, b, ',');
    text::split_whole(a, ',');
    text::split_whole(b, ',');
    assert(text::split(a.push(',') + b, ',') =~= seq![a, b]);
}

/// A text without a comma is no point.
pub proof fn single_number_is_no_point(a: Seq<char>, n: NumberTable)
    requires
        !a.contains(','),
    ensures
        latlon(a, n) is Err,
{
    text::split_whole(a, ',');
}

/// A point that is read is on the map, whatever the text.
pub proof fn read_point_is_on_the_map(s: Seq<char>, n: NumberTable)
    ensures
        latlon(s, n) matches Ok(p) ==> match (p.lat, p.lon) {
            (Degrees::Double(a), Degrees::Double(b)) => number::double_within(a, 90)
                && number::double_within(b, 180),
            _ => false,
        },
{
}

/// A weight is the number that its text stands for, and is accepted exactly
/// from 0 to 1000.
pub proof fn weight_is_its_number(s: Seq<char>, of: WeightOf, n: NumberTable)
    ensures
        weight(s, of, n) is Ok <==> n.singles.contains_key(s) && number::single_up_to(
            n.singles[s].bits,
            1000,
        ),
        weight(s, of, n) matches Ok(w) ==> w == n.singles[s],
{
}

/// A color that starts with `0x` starts with `#` instead; any other is kept.
pub proof fn color_keeps_its_digits(s: Seq<char>)
    ensures
        css_color("0x"@ + s) == "#"@ + s,
        css_color("0X"@ + s) == "#"@ + s,
        s.len() < 2 || s[0] != '0' || (s[1] != 'x' && s[1] != 'X') ==> css_color(s) == s,
{
    reveal_strlit("0x");
    reveal_strlit("0X");
    reveal_strlit("#");
    let (a, b) = ("0x"@ + s, "0X"@ + s);
    assert(a.take(2) =~= "0x"@);
    assert(b.take(2) =~= "0X"@);
    assert(seq!['#'] + a.skip(2) =~= "#"@ + s);
    assert(seq!['#'] + b.skip(2) =~= "#"@ + s);
    if text::starts_with(s, "0x"@) {
        assert(s.take(2)[0] == '0' && s.take(2)[1] == 'x');
    }
    if text::starts_with(s, "0X"@) {
        assert(s.take(2)[0] == '0' && s.take(2)[1] == 'X');
    }
}

/// A label is one character: the first of its text, as a capital.
pub proof fn label_is_first_letter(value: Seq<char>)
    ensures
        label_of(value) is Some <==> value.len() > 0,
        label_of(value) matches Some(c) ==> c == text::ascii_upper(value[0]),
{
}

/// Before any token a group of markers is red, without a label, of the middle
/// size and without points.
pub proof fn empty_markers(n: NumberTable)
    ensures
        marker_group(Seq::empty(), n) matches Ok(g) && g.color == "red"@ && g.label is None && g.size
            == MarkerSize::Mid && g.points.len() == 0,
{
    let tokens = text::split(Seq::<char>::empty(), '|');
    assert(tokens =~= seq![Seq::<char>::empty()]);
    assert(tokens.drop_last() =~= Seq::empty());
    reveal_with_fuel(each, 2);
}

/// One more token of a `markers` value sets what its key names, or adds the
/// point that it spells, and leaves the rest as it was.
pub proof fn marker_token_added(raw: Seq<char>, token: Seq<char>, n: NumberTable)
    requires
        !token.contains('|'),
    ensures
        match marker_group(raw, n) {
            Err(e) => marker_group(raw.push('|') + token, n) == Err::<MarkerGroupView, Fault>(e),
            Ok(g) => match text::split_once(token, ':') {
                Some((key, value)) => marker_group(raw.push('|') + token, n) matches Ok(h) && {
                    let color = text::eq_ignore_case(key, "color"@);
                    let label = text::eq_ignore_case(key, "label"@);
                    let size = text::eq_ignore_case(key, "size"@);
                    &&& h.points == g.points
                    &&& h.color == if color {
                        css_color(value)
                    } else {
                        g.color
                    }
                    &&& label ==> h.label == label_of(value)
                    &&& !label ==> h.label == g.label
                    &&& size && text::eq_ignore_case(value, "tiny"@) ==> h.size == MarkerSize::Tiny
                    &&& size && text::eq_ignore_case(value, "small"@) ==> h.size
                        == MarkerSize::Small
                    &&& size && !text::eq_ignore_case(value, "tiny"@) && !text::eq_ignore_case(
                        value,
                        "small"@,
                    ) ==> h.size == MarkerSize::Mid
                    &&& !size ==> h.size == g.size
                },
                None => if token.len() == 0 {
                    marker_group(raw.push('|') + token, n) == Ok::<_, Fault>(g)
                } else {
                    match latlon(token, n) {
                        Ok(p) => marker_group(raw.push('|') + token, n) matches Ok(h) && h.points
                            == g.points.push(p) && h.color == g.color && h.label == g.label
                            && h.size == g.size,
                        Err(e) => marker_group(raw.push('|') + token, n) == Err::<
                            MarkerGroupView,
                            Fault,
                        >(e),
                    }
                },
            },
        },
{
    text::split_concat(raw, token, '|');
    text::split_whole(token, '|');
    let all = text::split(raw.push('|') + token, '|');
    assert(all =~= text::split(raw, '|').push(token));
    assert(all.drop_last() =~= text::split(raw, '|'));
    words_differ();
    if let Some((key, value)) = text::split_once(token, ':') {
        keys_exclude(key);
        keys_exclude(value);
    }
}

/// No key is another one, in any case of letters.
proof fn words_differ()
    ensures
        "color"@.len() == 5 && "label"@.len() == 5 && "size"@.len() == 4 && "tiny"@.len() == 4,
        "small"@.len() == 5 && "weight"@.len() == 6 && "fillcolor"@.len() == 9,
        "feature"@.len() == 7,
        "color"@[0] == 'c' && "label"@[0] == 'l' && "size"@[0] == 's' && "tiny"@[0] == 't',
{
    reveal_strlit("color");
    reveal_strlit("label");
    reveal_strlit("size");
    reveal_strlit("tiny");
    reveal_strlit("small");
    reveal_strlit("weight");
    reveal_strlit("fillcolor");
    reveal_strlit("feature");
}

proof fn keys_exclude(key: Seq<char>)
    ensures
        text::eq_ignore_case(key, "color"@) ==> key.len() == 5 && text::ascii_lower(key[0]) == 'c',
        text::eq_ignore_case(key, "label"@) ==> key.len() == 5 && text::ascii_lower(key[0]) == 'l',
        text::eq_ignore_case(key, "size"@) ==> key.len() == 4 && text::ascii_lower(key[0]) == 's',
        text::eq_ignore_case(key, "tiny"@) ==> key.len() == 4 && text::ascii_lower(key[0]) == 't',
        text::eq_ignore_case(key, "small"@) ==> key.len() == 5,
        text::eq_ignore_case(key, "weight"@) ==> key.len() == 6,
        text::eq_ignore_case(key, "fillcolor"@) ==> key.len() == 9,
        text::eq_ignore_case(key, "feature"@) ==> key.len() == 7,
{
    words_differ();
    same_length(key, "color"@);
    same_length(key, "label"@);
    same_length(key, "size"@);
    same_length(key, "tiny"@);
    same_length(key, "small"@);
    same_length(key, "weight"@);
    same_length(key, "fillcolor"@);
    same_length(key, "feature"@);
}

proof fn same_length(a: Seq<char>, b: Seq<char>)
    ensures
        text::eq_ignore_case(a, b) ==> a.len() == b.len() && (a.len() > 0 ==> text::ascii_lower(
            a[0],
        ) == text::ascii_lower(b[0])),
{
    let f = |c: char| text::ascii_lower(c);
    if text::eq_ignore_case(a, b) {
        assert(a.map_values(f).len() == b.map_values(f).len());
        if a.len() > 0 {
            assert(a.map_values(f)[0] == b.map_values(f)[0]);
        }
    }
}

/// Every `markers` value is read: there are as many groups as values, and the
/// `i`-th group is the one that the `i`-th value describes. If one value is
/// refused all are, for the reason of the first that is.
pub proof fn every_markers_value_is_a_group(raw: Seq<Seq<char>>, n: NumberTable)
    ensures
        match marker_groups(raw, n) {
            Ok(groups) => groups.len() == raw.len() && forall|i: int|
                0 <= i < raw.len() ==> marker_group(#[trigger] raw[i], n) == Ok::<_, Fault>(
                    groups[i],
                ),
            Err(e) => exists|i: int|
                0 <= i < raw.len() && marker_group(#[trigger] raw[i], n) == Err::<
                    MarkerGroupView,
                    Fault,
                >(e) && forall|j: int| 0 <= j < i ==> marker_group(#[trigger] raw[j], n) is Ok,
        },
    decreases raw.len(),
{
    if raw.len() > 0 {
        let front = raw.drop_last();
        every_markers_value_is_a_group(front, n);
        match marker_groups(front, n) {
            Ok(groups) => {
                assert forall|i: int| 0 <= i < front.len() implies marker_group(
                    #[trigger] raw[i],
                    n,
                ) == Ok::<_, Fault>(groups[i]) by {
                    assert(front[i] == raw[i]);
                }
                assert(raw[raw.len() - 1] == raw.last());
            },
            Err(e) => {
                let i = choose|i: int|
                    0 <= i < front.len() && marker_group(#[trigger] front[i], n) == Err::<
                        MarkerGroupView,
                        Fault,
                    >(e) && forall|j: int| 0 <= j < i ==> marker_group(#[trigger] front[j], n) is Ok;
                assert(raw[i] == front[i]);
                assert forall|j: int| 0 <= j < i implies marker_group(#[trigger] raw[j], n) is Ok by {
                    assert(front[j] == raw[j]);
                }
            },
        }
    }
}

/// Before any token a path is blue, four pixels wide, not filled and without
/// points.
pub proof fn empty_path(n: NumberTable)
    ensures
        path_spec(Seq::empty(), n) matches Ok(p) && p.color == "#3388ff"@ && p.weight.bits
            == 0x4080_0000 && p.weight.shown == "4"@ && p.weight.outline == "5"@ && p.fillcolor is None
            && p.points.len() == 0,
{
    let none = Seq::<char>::empty();
    reveal_strlit("enc:");
    no_polyline(none);
    let tokens = text::split(none, '|');
    assert(tokens =~= seq![none]);
    assert(tokens.drop_last() =~= Seq::empty());
    reveal_with_fuel(each, 2);
}

proof fn no_polyline(raw: Seq<char>)
    requires
        forall|i: int| !text::occurs_at(raw, "enc:"@, i),
    ensures
        path_parts(raw) == (raw, None::<Seq<char>>),
{
    text::find_characterized(raw, "enc:"@);
}

/// One more token of a `path` value without a polyline sets what its key names,
/// or adds the point that it spells, and leaves the rest as it was.
pub proof fn path_token_added(raw: Seq<char>, token: Seq<char>, n: NumberTable)
    requires
        !token.contains('|'),
        !text::contains(raw, "enc:"@),
        !text::contains(raw.push('|') + token, "enc:"@),
    ensures
        match path_spec(raw, n) {
            Err(e) => path_spec(raw.push('|') + token, n) == Err::<PathSpecView, Fault>(e),
            Ok(p) => match text::split_once(token, ':') {
                Some((key, value)) => {
                    let color = text::eq_ignore_case(key, "color"@);
                    let weighs = text::eq_ignore_case(key, "weight"@);
                    let fill = text::eq_ignore_case(key, "fillcolor"@);
                    if weighs && weight(value, WeightOf::Path, n) is Err {
                        path_spec(raw.push('|') + token, n) is Err
                    } else {
                        path_spec(raw.push('|') + token, n) matches Ok(r) && {
                            &&& r.points == p.points
                            &&& r.color == if color {
                                css_color(value)
                            } else {
                                p.color
                            }
                            &&& weighs ==> weight(value, WeightOf::Path, n) == Ok::<_, Fault>(
                                r.weight,
                            )
                            &&& !weighs ==> r.weight == p.weight
                            &&& fill ==> r.fillcolor == Some(css_color(value))
                            &&& !fill ==> r.fillcolor == p.fillcolor
                        }
                    }
                },
                None => if token.len() == 0 {
                    path_spec(raw.push('|') + token, n) == Ok::<_, Fault>(p)
                } else {
                    match latlon(token, n) {
                        Ok(q) => path_spec(raw.push('|') + token, n) matches Ok(r) && r.points
                            == p.points.push(q) && r.color == p.color && r.weight == p.weight
                            && r.fillcolor == p.fillcolor,
                        Err(e) => path_spec(raw.push('|') + token, n) == Err::<
                            PathSpecView,
                            Fault,
                        >(e),
                    }
                },
            },
        },
{
    let more = raw.push('|') + token;
    assert forall|i: int| !text::occurs_at(raw, "enc:"@, i) by {
        if text::occurs_at(raw, "enc:"@, i) {
            assert(text::contains(raw, "enc:"@));
        }
    }
    assert forall|i: int| !text::occurs_at(more, "enc:"@, i) by {
        if text::occurs_at(more, "enc:"@, i) {
            assert(text::contains(more, "enc:"@));
        }
    }
    no_polyline(raw);
    no_polyline(more);
    text::split_concat(raw, token, '|');
    text::split_whole(token, '|');
    let all = text::split(more, '|');
    assert(all =~= text::split(raw, '|').push(token));
    assert(all.drop_last() =~= text::split(raw, '|'));
    if let Some((key, value)) = text::split_once(token, ':') {
        keys_exclude(key);
    }
}

/// The points of an encoded polyline follow those that stand before it; what
/// stands before it sets the style.
pub proof fn polyline_follows(style: Seq<char>, encoded: Seq<char>, n: NumberTable)
    requires
        forall|i: int| 0 <= i < style.len() ==> !text::occurs_at(style + "enc:"@ + encoded, "enc:"@, i),
        !text::contains(style, "enc:"@),
        all_valid(e5_points(polyline::points(encoded))),
    ensures
        match path_spec(style, n) {
            Ok(p) => path_spec(style + "enc:"@ + encoded, n) matches Ok(r) && r.points == p.points
                + e5_points(polyline::points(encoded)) && r.color == p.color && r.weight == p.weight
                && r.fillcolor == p.fillcolor,
            Err(e) => path_spec(style + "enc:"@ + encoded, n) == Err::<PathSpecView, Fault>(e),
        },
{
    let raw = style + "enc:"@ + encoded;
    reveal_strlit("enc:");
    let k = style.len() as int;
    assert(raw.subrange(k, k + 4) =~= "enc:"@);
    assert(text::occurs_at(raw, "enc:"@, k));
    text::find_characterized(raw, "enc:"@);
    assert(text::find(raw, "enc:"@) == Some(k)) by {
        match text::find(raw, "enc:"@) {
            Some(i) => {
                if i < k {
                    assert(!text::occurs_at(raw, "enc:"@, i));
                }
            },
            None => {},
        }
    }
    assert(raw.take(k) =~= style);
    assert(raw.skip(k + 4) =~= encoded);
    assert forall|i: int| !text::occurs_at(style, "enc:"@, i) by {
        if text::occurs_at(style, "enc:"@, i) {
            assert(text::contains(style, "enc:"@));
        }
    }
    no_polyline(style);
    if let Ok(p) = path_spec(style, n) {
        encoded_points_added(polyline::points(encoded), p);
    }
}

/// A polyline with a point that is not on the map is refused.
pub proof fn polyline_off_the_map(encoded: Seq<char>, n: NumberTable)
    requires
        !all_valid(e5_points(polyline::points(encoded))),
    ensures
        path_spec("enc:"@ + encoded, n) is Err,
{
    let raw = "enc:"@ + encoded;
    reveal_strlit("enc:");
    assert(raw.subrange(0, 4) =~= "enc:"@);
    assert(text::occurs_at(raw, "enc:"@, 0));
    text::find_characterized(raw, "enc:"@);
    assert(raw.skip(4) =~= encoded);
    let list = polyline::points(encoded);
    let all = e5_points(list);
    let i = choose|i: int| 0 <= i < all.len() && !(#[trigger] all[i]).valid();
    if let Ok(p) = each(text::split(raw.take(0), '|'), plain_path(), path_step(n)) {
        encoded_point_refused(list, i, p);
    }
}

proof fn encoded_point_refused(list: Seq<(i64, i64)>, i: int, p: PathSpecView)
    requires
        0 <= i < list.len(),
        !e5_points(list)[i].valid(),
    ensures
        each(list, p, encoded_step()) is Err,
    decreases list.len(),
{
    if i < list.len() - 1 {
        assert(e5_points(list.drop_last())[i] == e5_points(list)[i]);
        encoded_point_refused(list.drop_last(), i, p);
    }
}

/// Every `path` value is read: there are as many paths as values, and the
/// `i`-th path is the one that the `i`-th value describes. If one value is
/// refused all are, for the reason of the first that is.
pub proof fn every_path_value_is_a_path(raw: Seq<Seq<char>>, n: NumberTable)
    ensures
        match path_specs(raw, n) {
            Ok(paths) => paths.len() == raw.len() && forall|i: int|
                0 <= i < raw.len() ==> path_spec(#[trigger] raw[i], n) == Ok::<_, Fault>(paths[i]),
            Err(e) => exists|i: int|
                0 <= i < raw.len() && path_spec(#[trigger] raw[i], n) == Err::<PathSpecView, Fault>(
                    e,
                ) && forall|j: int| 0 <= j < i ==> path_spec(#[trigger] raw[j], n) is Ok,
        },
    decreases raw.len(),
{
    if raw.len() > 0 {
        let front = raw.drop_last();
        every_path_value_is_a_path(front, n);
        match path_specs(front, n) {
            Ok(paths) => {
                assert forall|i: int| 0 <= i < front.len() implies path_spec(#[trigger] raw[i], n)
                    == Ok::<_, Fault>(paths[i]) by {
                    assert(front[i] == raw[i]);
                }
                assert(raw[raw.len() - 1] == raw.last());
            },
            Err(e) => {
                let i = choose|i: int|
                    0 <= i < front.len() && path_spec(#[trigger] front[i], n) == Err::<
                        PathSpecView,
                        Fault,
                    >(e) && forall|j: int| 0 <= j < i ==> path_spec(#[trigger] front[j], n) is Ok;
                assert(raw[i] == front[i]);
                assert forall|j: int| 0 <= j < i implies path_spec(#[trigger] raw[j], n) is Ok by {
                    assert(front[j] == raw[j]);
                }
            },
        }
    }
}

/// Without a token a `style` value names all features and changes nothing.
pub proof fn empty_style(n: NumberTable)
    ensures
        style_override(Seq::empty(), n) matches Ok((feature, o)) && feature == "all"@ && o.color is None
            && o.weight is None,
{
    let tokens = text::split(Seq::<char>::empty(), '|');
    assert(tokens =~= seq![Seq::<char>::empty()]);
    assert(tokens.drop_last() =~= Seq::empty());
    reveal_with_fuel(each, 2);
    text::split_once_parts(Seq::empty(), ':');
}

/// One more token of a `style` value sets what its key names, and leaves the
/// rest as it was.
pub proof fn style_token_added(raw: Seq<char>, token: Seq<char>, n: NumberTable)
    requires
        !token.contains('|'),
    ensures
        match style_override(raw, n) {
            Err(e) => style_override(raw.push('|') + token, n) == Err::<
                (Seq<char>, StyleOverrideView),
                Fault,
            >(e),
            Ok((feature, o)) => match text::split_once(token, ':') {
                Some((key, value)) => {
                    let names = text::eq_ignore_case(key, "feature"@);
                    let color = text::eq_ignore_case(key, "color"@);
                    let weighs = text::eq_ignore_case(key, "weight"@);
                    if weighs && weight(value, WeightOf::Style, n) is Err {
                        style_override(raw.push('|') + token, n) is Err
                    } else {
                        style_override(raw.push('|') + token, n) matches Ok((f, r)) && {
                            &&& names ==> f == text::lowercase(value)
                            &&& !names ==> f == feature
                            &&& color ==> r.color == Some(css_color(value))
                            &&& !color ==> r.color == o.color
                            &&& weighs ==> (r.weight matches Some(w) && weight(
                                value,
                                WeightOf::Style,
                                n,
                            ) == Ok::<_, Fault>(w))
                            &&& !weighs ==> r.weight == o.weight
                        }
                    }
                },
                None => style_override(raw.push('|') + token, n) == Ok::<_, Fault>((feature, o)),
            },
        },
{
    text::split_concat(raw, token, '|');
    text::split_whole(token, '|');
    let all = text::split(raw.push('|') + token, '|');
    assert(all =~= text::split(raw, '|').push(token));
    assert(all.drop_last() =~= text::split(raw, '|'));
    if let Some((key, value)) = text::split_once(token, ':') {
        keys_exclude(key);
    }
}

/// Every `style` value is read: a feature has the override of the last value
/// that names it.
pub proof fn last_style_value_counts(
    raw: Seq<Seq<char>>,
    n: NumberTable,
    map: Map<Seq<char>, StyleOverrideView>,
    i: int,
    feature: Seq<char>,
    over: StyleOverrideView,
)
    requires
        style_overrides(raw, n) == Ok::<_, Fault>(map),
        0 <= i < raw.len(),
        style_override(raw[i], n) == Ok::<_, Fault>((feature, over)),
        forall|j: int|
            i < j < raw.len() ==> !(style_override(#[trigger] raw[j], n) matches Ok((g, p)) && g
                == feature),
    ensures
        map.contains_key(feature),
        map[feature] == over,
    decreases raw.len(),
{
    let front = raw.drop_last();
    let last = raw.last();
    assert(raw[raw.len() - 1] == last);
    if i < front.len() {
        if let (Ok(before), Ok((g, p))) = (style_overrides(front, n), style_override(last, n)) {
            assert(front[i] == raw[i]);
            assert forall|j: int| i < j < front.len() implies !(style_override(
                #[trigger] front[j],
                n,
            ) matches Ok((g, p)) && g == feature) by {
                assert(raw[j] == front[j]);
            }
            last_style_value_counts(front, n, before, i, feature, over);
        }
    }
}

/// No feature has an override that no value gives it, and no value is refused
/// where the overrides are accepted.
pub proof fn overrides_come_from_values(
    raw: Seq<Seq<char>>,
    n: NumberTable,
    map: Map<Seq<char>, StyleOverrideView>,
)
    requires
        style_overrides(raw, n) == Ok::<_, Fault>(map),
    ensures
        forall|i: int| 0 <= i < raw.len() ==> style_override(#[trigger] raw[i], n) is Ok,
        forall|f: Seq<char>| #[trigger]
            map.contains_key(f) ==> exists|i: int|
                0 <= i < raw.len() && style_override(#[trigger] raw[i], n) == Ok::<_, Fault>(
                    (f, map[f]),
                ),
    decreases raw.len(),
{
    if raw.len() > 0 {
        let front = raw.drop_last();
        let last = raw.last();
        assert(raw[raw.len() - 1] == last);
        if let (Ok(before), Ok((feature, over))) = (style_overrides(front, n), style_override(last, n)) {
            overrides_come_from_values(front, n, before);
            assert(map == before.insert(feature, over));
            assert forall|i: int| 0 <= i < raw.len() implies style_override(#[trigger] raw[i], n) is Ok by {
                if i < front.len() {
                    assert(front[i] == raw[i]);
                }
            }
            assert forall|f: Seq<char>| #[trigger] map.contains_key(f) implies exists|i: int|
                0 <= i < raw.len() && style_override(#[trigger] raw[i], n) == Ok::<_, Fault>(
                    (f, map[f]),
                ) by {
                if f == feature {
                    assert(style_override(raw[raw.len() - 1], n) == Ok::<_, Fault>((f, map[f])));
                } else {
                    assert(before.contains_key(f));
                    let i = choose|i: int|
                        0 <= i < front.len() && style_override(#[trigger] front[i], n) == Ok::<
                            _,
                            Fault,
                        >((f, before[f]));
                    assert(raw[i] == front[i]);
                }
            }
        }
    }
}

/// The overrides are refused only for a value that is.
pub proof fn refused_style_is_a_value(raw: Seq<Seq<char>>, n: NumberTable)
    requires
        forall|i: int| 0 <= i < raw.len() ==> style_override(#[trigger] raw[i], n) is Ok,
    ensures
        style_overrides(raw, n) is Ok,
    decreases raw.len(),
{
    if raw.len() > 0 {
        let front = raw.drop_last();
        assert(raw[raw.len() - 1] == raw.last());
        assert forall|i: int| 0 <= i < front.len() implies style_override(#[trigger] front[i], n) is Ok by {
            assert(raw[i] == front[i]);
        }
        refused_style_is_a_value(front, n);
    }
}

/// The points of `visible` values are those of the pairs in them, in order: one
/// more pair adds its point, and one more value adds its points.
pub proof fn visible_pair_added(
    raw: Seq<Seq<char>>,
    value: Seq<char>,
    pair: Seq<char>,
    n: NumberTable,
)
    requires
        !pair.contains('|'),
    ensures
        visible(Seq::empty(), n) == Ok::<_, Fault>(Seq::<LatLon>::empty()),
        visible(raw.push(Seq::empty()), n) == visible(raw, n),
        match visible(raw.push(value), n) {
            Err(e) => visible(raw.push(value.push('|') + pair), n) == Err::<Seq<LatLon>, Fault>(e),
            Ok(points) => if pair.len() == 0 {
                visible(raw.push(value.push('|') + pair), n) == Ok::<_, Fault>(points)
            } else {
                match latlon(pair, n) {
                    Ok(p) => visible(raw.push(value.push('|') + pair), n) == Ok::<_, Fault>(
                        points.push(p),
                    ),
                    Err(e) => visible(raw.push(value.push('|') + pair), n) == Err::<
                        Seq<LatLon>,
                        Fault,
                    >(e),
                }
            },
        },
{
    let more = value.push('|') + pair;
    assert(raw.push(Seq::empty()).drop_last() =~= raw);
    assert(raw.push(value).drop_last() =~= raw);
    assert(raw.push(more).drop_last() =~= raw);
    text::split_concat(value, pair, '|');
    text::split_whole(pair, '|');
    let all = text::split(more, '|');
    assert(all =~= text::split(value, '|').push(pair));
    assert(all.drop_last() =~= text::split(value, '|'));
    let tokens = text::split(Seq::<char>::empty(), '|');
    assert(tokens =~= seq![Seq::<char>::empty()]);
    assert(tokens.drop_last() =~= Seq::empty());
    if let Ok(points) = visible(raw, n) {
        assert(each(tokens, points, point_step(n)) == Ok::<_, Fault>(points)) by {
            reveal_with_fuel(each, 2);
        }
    }
}

/// A pair that is no point is refused for the first thing that is wrong with
/// it: the latitude is no number, then the longitude is none, then the latitude
/// is out of range, then the longitude.
pub proof fn refusal_of_a_pair(a: Seq<char>, b: Seq<char>, n: NumberTable)
    requires
        !a.contains(','),
        !b.contains(','),
    ensures
        ({
            let (x, y) = (text::trim(a), text::trim(b));
            let pair = a.push(',') + b;
            latlon(pair, n) matches Err(e) ==> if !n.doubles.contains_key(x) {
                e == (Fault::InvalidLatitude { pair, text: x })
            } else if !n.doubles.contains_key(y) {
                e == (Fault::InvalidLongitude { pair, text: y })
            } else if !number::double_within(n.doubles[x].bits, 90) {
                e == (Fault::LatitudeOutOfRange { shown: n.doubles[x].shown })
            } else {
                e == (Fault::LongitudeOutOfRange { shown: n.doubles[y].shown })
            }
        }),
        latlon(a, n) == if n.doubles.contains_key(text::trim(a)) {
            Err::<LatLon, Fault>(Fault::MissingLongitude)
        } else {
            Err(Fault::InvalidLatitude { pair: a, text: text::trim(a) })
        },
{
    text::split_concat(a, b, ',');
    text::split_whole(a, ',');
    text::split_whole(b, ',');
    assert(text::split(a.push(',') + b, ',') =~= seq![a, b]);
}

/// A weight that is none is refused by what it is the weight of.
pub proof fn refusal_of_a_weight(s: Seq<char>, of: WeightOf, n: NumberTable)
    ensures
        weight(s, of, n) matches Err(e) ==> if n.singles.contains_key(s) {
            e == (Fault::WeightOutOfRange { of, shown: n.singles[s].shown })
        } else {
            e == (Fault::InvalidWeight { of, text: s })
        },
{
}

/// Angles are in range by their numbers: a double by its bits, the sign aside,
/// and hundred-thousandths of a degree by their count.
pub proof fn angles_in_range(bits: u64, e5: i64)
    ensures
        Degrees::Double(bits).within(90) <==> bits % 0x8000_0000_0000_0000 <= 0x4056_8000_0000_0000,
        Degrees::Double(bits).within(180) <==> bits % 0x8000_0000_0000_0000
            <= 0x4066_8000_0000_0000,
        Degrees::E5(e5).within(90) <==> -9_000_000 <= e5 <= 9_000_000,
        Degrees::E5(e5).within(180) <==> -18_000_000 <= e5 <= 18_000_000,
{
    number::ranges_of_degrees(bits);
}

/// A point is on the map exactly where its latitude is from -90 to 90 and its
/// longitude from -180 to 180.
pub proof fn points_on_the_map(p: LatLon)
    ensures
        p.valid() <==> p.lat.within(90) && p.lon.within(180),
{
}

/// The decoded points keep their coordinates and their order, the latitude
/// first.
pub proof fn decoded_points_are_kept(list: Seq<(i64, i64)>)
    ensures
        e5_points(list).len() == list.len(),
        forall|i: int|
            0 <= i < list.len() ==> {
                let p = #[trigger] e5_points(list)[i];
                p.lat == Degrees::E5(list[i].0) && p.lon == Degrees::E5(list[i].1)
            },
{
}

/// The views of groups, paths and overrides keep all that they hold.
pub proof fn parameters_are_kept(
    groups: Seq<MarkerGroup>,
    paths: Seq<PathSpec>,
    overrides: Map<Seq<char>, StyleOverride>,
    feature: Seq<char>,
)
    ensures
        group_views(groups).len() == groups.len(),
        forall|i: int|
            0 <= i < groups.len() ==> {
                let g = #[trigger] group_views(groups)[i];
                &&& g.color == groups[i].color@
                &&& g.label == groups[i].label
                &&& g.size == groups[i].size
                &&& g.points == groups[i].points@
            },
        path_views(paths).len() == paths.len(),
        forall|i: int|
            0 <= i < paths.len() ==> {
                let p = #[trigger] path_views(paths)[i];
                &&& p.color == paths[i].color@
                &&& p.weight == paths[i].weight@
                &&& p.fillcolor == text::opt_string(paths[i].fillcolor)
                &&& p.points == paths[i].points@
            },
        override_views(overrides).contains_key(feature) <==> overrides.contains_key(feature),
        overrides.contains_key(feature) ==> {
            let o = override_views(overrides)[feature];
            &&& o.color == text::opt_string(overrides[feature].color)
            &&& o.weight is Some <==> overrides[feature].weight is Some
            &&& overrides[feature].weight matches Some(w) ==> o.weight == Some(w@)
        },
{
}

} // verus!
