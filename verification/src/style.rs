//! How the layers of a map look: a fixed palette like that of road maps, and
//! the overrides that a request puts on top.

use crate::number;
use crate::params;
use crate::params::{StyleOverride, StyleOverrideView, Width, WidthView};
use crate::text;
use vstd::hash_map::StringHashMap;
use vstd::prelude::*;
use vstd::string::*;

verus! {

/// The colors of a map, as CSS colors.
pub struct Palette {
    /// The canvas, and the `earth` polygon that fills a whole tile: the two
    /// are the same, so that no grid of tiles shows.
    pub background: &'static str,
    pub landuse: &'static str,
    pub water: &'static str,
    pub waterway: &'static str,
    pub building_fill: &'static str,
    pub building_stroke: &'static str,
    pub road: &'static str,
    /// The darker outline under roads.
    pub road_casing: &'static str,
    pub transit: &'static str,
    pub boundary: &'static str,
    pub other: &'static str,
}

/// The palette.
pub fn palette() -> (r: Palette)
    ensures
        r.background@ == "#f5f4f4"@,
        r.landuse@ == "#c3f1d5"@,
        r.water@ == "#90daee"@,
        r.waterway@ == "#7fc4de"@,
        r.building_fill@ == "#eaeced"@,
        r.building_stroke@ == "#d8e0e6"@,
        r.road@ == "#ffffff"@,
        r.road_casing@ == "#d5dde3"@,
        r.transit@ == "#c5c9d0"@,
        r.boundary@ == "#c0c4cc"@,
        r.other@ == "#eef0f2"@,
{
    Palette {
        background: "#f5f4f4",
        landuse: "#c3f1d5",
        water: "#90daee",
        waterway: "#7fc4de",
        building_fill: "#eaeced",
        building_stroke: "#d8e0e6",
        road: "#ffffff",
        road_casing: "#d5dde3",
        transit: "#c5c9d0",
        boundary: "#c0c4cc",
        other: "#eef0f2",
    }
}

/// How a layer is drawn.
pub struct LayerStyle {
    pub fill: Option<String>,
    pub stroke: Option<String>,
    pub stroke_width: Width,
    pub dash: Option<&'static str>,
    /// The color of an outline, drawn as a wider stroke one level below.
    pub casing: Option<String>,
    /// The level at which the layer is drawn, lowest first, over all tiles.
    pub z: u8,
}

/// A [`LayerStyle`] with its texts as character sequences.
pub struct LayerStyleView {
    pub fill: Option<Seq<char>>,
    pub stroke: Option<Seq<char>>,
    pub stroke_width: WidthView,
    pub dash: Option<Seq<char>>,
    pub casing: Option<Seq<char>>,
    pub z: u8,
}

impl View for LayerStyle {
    type V = LayerStyleView;

    open spec fn view(&self) -> LayerStyleView {
        LayerStyleView {
            fill: text::opt_string(self.fill),
            stroke: text::opt_string(self.stroke),
            stroke_width: self.stroke_width@,
            dash: text::opt_str(self.dash),
            casing: text::opt_string(self.casing),
            z: self.z,
        }
    }
}

/// How many levels there are; every `z` is less.
pub const Z_LEVELS: usize = 10;

/// What a layer shows.
#[derive(Clone, Copy, Debug, PartialEq, Eq, Structural)]
pub enum Bucket {
    Earth,
    Landuse,
    Waterway,
    Water,
    Building,
    Transit,
    Road,
    Boundary,
    Other,
}

/// Whether a word stands in a lower-cased layer name.
pub open spec fn names(n: Seq<char>, word: Seq<char>) -> bool {
    text::contains(n, word)
}

/// The bucket of a layer, by the words in its lower-cased name. The more
/// specific words come first.
pub open spec fn bucket_of(n: Seq<char>) -> Bucket {
    if names(n, "earth"@) || names(n, "background"@) {
        Bucket::Earth
    } else if names(n, "landuse"@) || names(n, "landcover"@) || names(n, "park"@) || names(
        n,
        "natural"@,
    ) {
        Bucket::Landuse
    } else if names(n, "waterway"@) || names(n, "river"@) || names(n, "stream"@) || names(
        n,
        "physical_line"@,
    ) {
        Bucket::Waterway
    } else if names(n, "water"@) || names(n, "ocean"@) || names(n, "lake"@) {
        Bucket::Water
    } else if names(n, "building"@) {
        Bucket::Building
    } else if names(n, "transit"@) || names(n, "rail"@) {
        Bucket::Transit
    } else if names(n, "road"@) || names(n, "transportation"@) || names(n, "highway"@) {
        Bucket::Road
    } else if names(n, "boundary"@) || names(n, "admin"@) {
        Bucket::Boundary
    } else {
        Bucket::Other
    }
}

/// Finds the bucket of a layer by its lower-cased name.
pub fn bucket_for(n: &str) -> (r: Bucket)
    ensures
        r == bucket_of(n@),
{
    let chars = text::to_chars(n);
    let n = chars.as_slice();
    if text::has_text(n, "earth") || text::has_text(n, "background") {
        Bucket::Earth
    } else if text::has_text(n, "landuse") || text::has_text(n, "landcover") || text::has_text(
        n,
        "park",
    ) || text::has_text(n, "natural") {
        Bucket::Landuse
    } else if text::has_text(n, "waterway") || text::has_text(n, "river") || text::has_text(
        n,
        "stream",
    ) || text::has_text(n, "physical_line") {
        Bucket::Waterway
    } else if text::has_text(n, "water") || text::has_text(n, "ocean") || text::has_text(n, "lake") {
        Bucket::Water
    } else if text::has_text(n, "building") {
        Bucket::Building
    } else if text::has_text(n, "transit") || text::has_text(n, "rail") {
        Bucket::Transit
    } else if text::has_text(n, "road") || text::has_text(n, "transportation") || text::has_text(
        n,
        "highway",
    ) {
        Bucket::Road
    } else if text::has_text(n, "boundary") || text::has_text(n, "admin") {
        Bucket::Boundary
    } else {
        Bucket::Other
    }
}

impl Bucket {
    /// The name by which an override selects the bucket.
    pub open spec fn key(self) -> Seq<char> {
        match self {
            Bucket::Earth => "earth"@,
            Bucket::Landuse => "landuse"@,
            Bucket::Waterway => "waterway"@,
            Bucket::Water => "water"@,
            Bucket::Building => "building"@,
            Bucket::Transit => "transit"@,
            Bucket::Road => "road"@,
            Bucket::Boundary => "boundary"@,
            Bucket::Other => "other"@,
        }
    }

    /// The name by which an override selects the bucket.
    pub fn name(self) -> (r: &'static str)
        ensures
            r@ == self.key(),
    {
        match self {
            Bucket::Earth => "earth",
            Bucket::Landuse => "landuse",
            Bucket::Waterway => "waterway",
            Bucket::Water => "water",
            Bucket::Building => "building",
            Bucket::Transit => "transit",
            Bucket::Road => "road",
            Bucket::Boundary => "boundary",
            Bucket::Other => "other",
        }
    }
}

/// No stroke.
pub open spec fn width_0() -> WidthView {
    WidthView { bits: 0, shown: "0"@, outline: "1"@ }
}

/// The width of a building's border.
pub open spec fn width_half() -> WidthView {
    WidthView { bits: number::SINGLE_HALF, shown: "0.5"@, outline: "1.5"@ }
}

/// The width of a plain line.
pub open spec fn width_1() -> WidthView {
    WidthView { bits: number::SINGLE_1, shown: "1"@, outline: "2"@ }
}

/// The width of a road.
pub open spec fn width_1_and_half() -> WidthView {
    WidthView { bits: number::SINGLE_1_AND_HALF, shown: "1.5"@, outline: "2.5"@ }
}

/// A layer of areas of one color.
pub open spec fn area(fill: Seq<char>, z: u8) -> LayerStyleView {
    LayerStyleView {
        fill: Some(fill),
        stroke: None,
        stroke_width: width_0(),
        dash: None,
        casing: None,
        z,
    }
}

/// A layer of lines of one color.
pub open spec fn line(stroke: Seq<char>, dash: Option<Seq<char>>, z: u8) -> LayerStyleView {
    LayerStyleView {
        fill: None,
        stroke: Some(stroke),
        stroke_width: width_1(),
        dash,
        casing: None,
        z,
    }
}

/// How the layers of a bucket look by default.
pub open spec fn default_style(b: Bucket) -> LayerStyleView {
    match b {
        Bucket::Earth => area("#f5f4f4"@, 0),
        Bucket::Landuse => area("#c3f1d5"@, 1),
        Bucket::Water => area("#90daee"@, 2),
        Bucket::Waterway => line("#7fc4de"@, None, 3),
        Bucket::Building => LayerStyleView {
            fill: Some("#eaeced"@),
            stroke: Some("#d8e0e6"@),
            stroke_width: width_half(),
            dash: None,
            casing: None,
            z: 4,
        },
        Bucket::Other => area("#eef0f2"@, 5),
        Bucket::Transit => line("#c5c9d0"@, Some("5,3"@), 6),
        Bucket::Road => LayerStyleView {
            fill: None,
            stroke: Some("#ffffff"@),
            stroke_width: width_1_and_half(),
            dash: None,
            casing: Some("#d5dde3"@),
            z: 8,
        },
        Bucket::Boundary => line("#c0c4cc"@, Some("4,2"@), 9),
    }
}

/// A width of which the texts are given.
fn width(bits: u32, shown: &str, outline: &str) -> (r: Width)
    ensures
        r@ == (WidthView { bits, shown: shown@, outline: outline@ }),
{
    Width { bits, shown: shown.to_owned(), outline: outline.to_owned() }
}

fn area_style(fill: &str, z: u8) -> (r: LayerStyle)
    ensures
        r@ == area(fill@, z),
{
    LayerStyle {
        fill: Some(fill.to_owned()),
        stroke: None,
        stroke_width: width(0, "0", "1"),
        dash: None,
        casing: None,
        z,
    }
}

fn line_style(stroke: &str, dash: Option<&'static str>, z: u8) -> (r: LayerStyle)
    ensures
        r@ == line(stroke@, text::opt_str(dash), z),
{
    LayerStyle {
        fill: None,
        stroke: Some(stroke.to_owned()),
        stroke_width: width(number::SINGLE_1, "1", "2"),
        dash,
        casing: None,
        z,
    }
}

/// How the layers of a bucket look without an override.
pub fn bucket_style(b: Bucket) -> (r: LayerStyle)
    ensures
        r@ == default_style(b),
{
    let p = palette();
    match b {
        Bucket::Earth => area_style(p.background, 0),
        Bucket::Landuse => area_style(p.landuse, 1),
        Bucket::Water => area_style(p.water, 2),
        Bucket::Waterway => line_style(p.waterway, None, 3),
        Bucket::Building => LayerStyle {
            fill: Some(p.building_fill.to_owned()),
            stroke: Some(p.building_stroke.to_owned()),
            stroke_width: width(number::SINGLE_HALF, "0.5", "1.5"),
            dash: None,
            casing: None,
            z: 4,
        },
        Bucket::Other => area_style(p.other, 5),
        Bucket::Transit => line_style(p.transit, Some("5,3"), 6),
        Bucket::Road => LayerStyle {
            fill: None,
            stroke: Some(p.road.to_owned()),
            stroke_width: width(number::SINGLE_1_AND_HALF, "1.5", "2.5"),
            dash: None,
            casing: Some(p.road_casing.to_owned()),
            z: 8,
        },
        Bucket::Boundary => line_style(p.boundary, Some("4,2"), 9),
    }
}

/// The style with an override: its color replaces the fill and the stroke
/// where the style has them, its weight the stroke width.
pub open spec fn overridden(s: LayerStyleView, o: StyleOverrideView) -> LayerStyleView {
    LayerStyleView {
        fill: if s.fill is Some && o.color is Some {
            o.color
        } else {
            s.fill
        },
        stroke: if s.stroke is Some && o.color is Some {
            o.color
        } else {
            s.stroke
        },
        stroke_width: match o.weight {
            Some(w) => w,
            None => s.stroke_width,
        },
        ..s
    }
}

/// Applies an override to a style.
pub fn apply_override(style: &mut LayerStyle, o: &StyleOverride)
    ensures
        final(style)@ == overridden(old(style)@, o@),
{
    if let Some(c) = &o.color {
        if style.fill.is_some() {
            style.fill = Some(c.clone());
        }
        if style.stroke.is_some() {
            style.stroke = Some(c.clone());
        }
    }
    if let Some(w) = &o.weight {
        style.stroke_width = w.copy();
    }
}

/// The style with the override for `key`, if there is one.
pub open spec fn with_override(
    s: LayerStyleView,
    overrides: Map<Seq<char>, StyleOverrideView>,
    key: Seq<char>,
) -> LayerStyleView {
    if overrides.contains_key(key) {
        overridden(s, overrides[key])
    } else {
        s
    }
}

/// How a layer looks, by its lower-cased name: the default of its bucket, with
/// the override for all buckets and then the one for its own.
pub open spec fn layer_style(
    n: Seq<char>,
    overrides: Map<Seq<char>, StyleOverrideView>,
) -> LayerStyleView {
    let b = bucket_of(n);
    with_override(with_override(default_style(b), overrides, "all"@), overrides, b.key())
}

/// Finds how a layer looks by its lower-cased name.
pub fn style_for_lowercase(n: &str, overrides: &StringHashMap<StyleOverride>) -> (r: LayerStyle)
    ensures
        r@ == layer_style(n@, params::override_views(overrides@)),
        r.z < Z_LEVELS,
{
    let b = bucket_for(n);
    let mut style = bucket_style(b);
    if let Some(o) = overrides.get("all") {
        apply_override(&mut style, o);
    }
    if let Some(o) = overrides.get(b.name()) {
        apply_override(&mut style, o);
    }
    style
}

/// Finds how a layer looks by its name, whose case does not matter.
pub fn style_for_layer(name: &str, overrides: &StringHashMap<StyleOverride>) -> (r: LayerStyle)
    ensures
        r@ == layer_style(text::lowercase(name@), params::override_views(overrides@)),
        r.z < Z_LEVELS,
{
    let n = text::to_lowercase(name);
    style_for_lowercase(n.as_str(), overrides)
}

/// An override recolors what is drawn and widens it, but never changes what is
/// drawn or where: the fill, the stroke, the dashes, the outline and the level
/// are there after it as before.
pub proof fn override_keeps_shape(s: LayerStyleView, o: StyleOverrideView)
    ensures
        overridden(s, o).fill is Some <==> s.fill is Some,
        overridden(s, o).stroke is Some <==> s.stroke is Some,
        overridden(s, o).dash == s.dash,
        overridden(s, o).casing == s.casing,
        overridden(s, o).z == s.z,
{
}

/// The levels hold every layer. Below a layer with an outline there is a level
/// for the outline, at which no layer is drawn.
pub proof fn levels_hold_every_layer(
    n: Seq<char>,
    other: Seq<char>,
    overrides: Map<Seq<char>, StyleOverrideView>,
)
    ensures
        layer_style(n, overrides).z < Z_LEVELS,
        layer_style(n, overrides).casing is Some ==> {
            &&& layer_style(n, overrides).z >= 1
            &&& layer_style(other, overrides).z != layer_style(n, overrides).z - 1
        },
{
}

/// The override for a bucket wins over the one for all buckets.
pub proof fn bucket_override_wins(
    n: Seq<char>,
    overrides: Map<Seq<char>, StyleOverrideView>,
)
    requires
        overrides.contains_key(bucket_of(n).key()),
    ensures
        ({
            let own = overrides[bucket_of(n).key()];
            let s = layer_style(n, overrides);
            &&& own.color is Some && s.fill is Some ==> s.fill == own.color
            &&& own.color is Some && s.stroke is Some ==> s.stroke == own.color
            &&& own.weight matches Some(w) ==> s.stroke_width == w
        }),
{
}

/// The layer that fills whole tiles has the color of the canvas unless it is
/// overridden, and no border, so that no grid of tiles shows.
pub proof fn earth_matches_canvas(n: Seq<char>, overrides: Map<Seq<char>, StyleOverrideView>)
    requires
        bucket_of(n) == Bucket::Earth,
        !overrides.contains_key("all"@),
        !overrides.contains_key("earth"@),
    ensures
        layer_style(n, overrides).fill == Some("#f5f4f4"@),
        layer_style(n, overrides).stroke is None,
        layer_style(n, overrides).z == 0,
{
}

/// A layer shows what the first of these lists with a word in its name says: its
/// bucket is found by the words, and no word of an earlier list is in the name.
pub proof fn bucket_is_in_the_name(n: Seq<char>)
    ensures
        ({
            let has = |word: Seq<char>| text::contains(n, word);
            let earth = has("earth"@) || has("background"@);
            let land = has("landuse"@) || has("landcover"@) || has("park"@) || has("natural"@);
            let stream = has("waterway"@) || has("river"@) || has("stream"@) || has(
                "physical_line"@,
            );
            let water = has("water"@) || has("ocean"@) || has("lake"@);
            let building = has("building"@);
            let transit = has("transit"@) || has("rail"@);
            let road = has("road"@) || has("transportation"@) || has("highway"@);
            let boundary = has("boundary"@) || has("admin"@);
            match bucket_of(n) {
                Bucket::Earth => earth,
                Bucket::Landuse => land && !earth,
                Bucket::Waterway => stream && !earth && !land,
                Bucket::Water => water && !earth && !land && !stream,
                Bucket::Building => building && !earth && !land && !stream && !water,
                Bucket::Transit => transit && !earth && !land && !stream && !water && !building,
                Bucket::Road => road && !earth && !land && !stream && !water && !building
                    && !transit,
                Bucket::Boundary => boundary && !earth && !land && !stream && !water && !building
                    && !transit && !road,
                Bucket::Other => !earth && !land && !stream && !water && !building && !transit
                    && !road && !boundary,
            }
        }),
{
}

/// An override gives its color to the fill and to the stroke of a style that has
/// them and its weight to the stroke; what it does not say stays.
pub proof fn override_says_what_changes(s: LayerStyleView, o: StyleOverrideView)
    ensures
        ({
            let r = overridden(s, o);
            &&& o.color is None ==> r.fill == s.fill && r.stroke == s.stroke
            &&& o.color is Some ==> r.fill == if s.fill is Some {
                o.color
            } else {
                None
            }
            &&& o.color is Some ==> r.stroke == if s.stroke is Some {
                o.color
            } else {
                None
            }
            &&& o.weight is None ==> r.stroke_width == s.stroke_width
            &&& o.weight matches Some(w) ==> r.stroke_width == w
        }),
{
}

/// A layer looks as its bucket does by default where no override names the
/// bucket or all of them.
pub proof fn unnamed_layers_keep_their_look(
    n: Seq<char>,
    overrides: Map<Seq<char>, StyleOverrideView>,
)
    requires
        !overrides.contains_key("all"@),
        !overrides.contains_key(bucket_of(n).key()),
    ensures
        layer_style(n, overrides) == default_style(bucket_of(n)),
{
}

/// The override for all buckets counts where the bucket has none of its own, or
/// where its own does not say.
pub proof fn override_for_all_counts(n: Seq<char>, overrides: Map<Seq<char>, StyleOverrideView>)
    requires
        overrides.contains_key("all"@),
    ensures
        ({
            let all = overrides["all"@];
            let key = bucket_of(n).key();
            let own = overrides.contains_key(key);
            let s = layer_style(n, overrides);
            let d = default_style(bucket_of(n));
            &&& (!own || overrides[key].color is None) && all.color is Some ==> {
                &&& d.fill is Some ==> s.fill == all.color
                &&& d.stroke is Some ==> s.stroke == all.color
            }
            &&& (!own || overrides[key].color is None) && all.color is None ==> s.fill == d.fill
                && s.stroke == d.stroke
            &&& (!own || overrides[key].weight is None) ==> s.stroke_width == match all.weight {
                Some(w) => w,
                None => d.stroke_width,
            }
        }),
{
    keys_are_not_all(bucket_of(n));
}

proof fn keys_are_not_all(b: Bucket)
    ensures
        b.key() != "all"@,
{
    reveal_strlit("all");
    reveal_strlit("earth");
    reveal_strlit("landuse");
    reveal_strlit("waterway");
    reveal_strlit("water");
    reveal_strlit("building");
    reveal_strlit("transit");
    reveal_strlit("road");
    reveal_strlit("boundary");
    reveal_strlit("other");
    assert("all"@.len() == 3);
    assert(b.key().len() > 3);
}

/// The levels of the buckets, bottom to top: the ground, its uses, water, the
/// waterways, buildings, what is not known, rails, roads and boundaries.
pub proof fn buckets_are_stacked()
    ensures
        ({
            let z = |b: Bucket| default_style(b).z as int;
            &&& z(Bucket::Earth) < z(Bucket::Landuse) < z(Bucket::Water) < z(Bucket::Waterway)
            &&& z(Bucket::Waterway) < z(Bucket::Building) < z(Bucket::Other) < z(Bucket::Transit)
            &&& z(Bucket::Transit) < z(Bucket::Road) - 1
            &&& z(Bucket::Road) < z(Bucket::Boundary)
        }),
{
}

/// The views of styles keep all that they hold.
pub proof fn styles_are_kept(s: LayerStyle)
    ensures
        s@.fill == text::opt_string(s.fill),
        s@.stroke == text::opt_string(s.stroke),
        s@.stroke_width == s.stroke_width@,
        s@.dash == text::opt_str(s.dash),
        s@.casing == text::opt_string(s.casing),
        s@.z == s.z,
{
}

} // verus!
