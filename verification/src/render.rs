//! The SVG document of a map: the layers of its tiles, the paths and markers
//! on top of them, and the labels.
//!
//! Positions come as the texts that stand in the document.

use crate::error::Fault;
use crate::geo_util::Viewport;
use crate::markup;
use crate::number;
use crate::params;
use crate::params::{
    MarkerGroup, MarkerGroupView, MarkerSize, PathSpec, PathSpecView, StyleOverride,
    StyleOverrideView,
};
use crate::style;
use crate::style::{LayerStyle, LayerStyleView, Z_LEVELS};
use crate::text;
use crate::tiles;
use crate::tiles::{Property, PropertyView};
use crate::xml;
use vstd::hash_map::StringHashMap;
use vstd::hash_set::StringHashSet;
use vstd::prelude::*;
use vstd::string::*;

verus! {

// ---------------------------------------------------------------------------
// Positions and path data
// ---------------------------------------------------------------------------

/// A position in the document, as text.
#[derive(Debug)]
pub struct Spot {
    pub x: String,
    pub y: String,
}

/// A [`Spot`] with its texts as character sequences.
pub struct SpotView {
    pub x: Seq<char>,
    pub y: Seq<char>,
}

impl View for Spot {
    type V = SpotView;

    open spec fn view(&self) -> SpotView {
        SpotView { x: self.x@, y: self.y@ }
    }
}

/// The views of positions.
pub open spec fn spots(list: Seq<Spot>) -> Seq<SpotView> {
    list.map_values(|s: Spot| s@)
}

/// The views of several lists of positions.
pub open spec fn spot_lines(lines: Seq<Vec<Spot>>) -> Seq<Seq<SpotView>> {
    lines.map_values(|l: Vec<Spot>| spots(l@))
}

/// The views of several lists of lists of positions.
pub open spec fn spot_polygons(polygons: Seq<Vec<Vec<Spot>>>) -> Seq<Seq<Seq<SpotView>>> {
    polygons.map_values(|p: Vec<Vec<Spot>>| spot_lines(p@))
}

/// The path data of one more position: a move to the first, a line to any
/// other.
pub open spec fn command(first: bool, p: SpotView) -> Seq<char> {
    (if first {
        "M "@
    } else {
        "L "@
    }) + p.x + " "@ + p.y + " "@
}

/// The path data of a line.
pub open spec fn line_data(line: Seq<SpotView>) -> Seq<char>
    decreases line.len(),
{
    if line.len() == 0 {
        Seq::empty()
    } else {
        line_data(line.drop_last()) + command(line.len() == 1, line.last())
    }
}

/// The path data of several lines.
pub open spec fn lines_data(lines: Seq<Seq<SpotView>>) -> Seq<char>
    decreases lines.len(),
{
    if lines.len() == 0 {
        Seq::empty()
    } else {
        lines_data(lines.drop_last()) + line_data(lines.last())
    }
}

/// The path data of a polygon: each ring is a closed line.
pub open spec fn rings_data(rings: Seq<Seq<SpotView>>) -> Seq<char>
    decreases rings.len(),
{
    if rings.len() == 0 {
        Seq::empty()
    } else {
        rings_data(rings.drop_last()) + (line_data(rings.last()) + "Z "@)
    }
}

/// The path data of several polygons.
pub open spec fn polygons_data(polygons: Seq<Seq<Seq<SpotView>>>) -> Seq<char>
    decreases polygons.len(),
{
    if polygons.len() == 0 {
        Seq::empty()
    } else {
        polygons_data(polygons.drop_last()) + rings_data(polygons.last())
    }
}

/// Writes the path data of one position.
fn write_command(first: bool, p: &Spot) -> (r: String)
    ensures
        r@ == command(first, p@),
{
    let mut r = if first {
        "M ".to_owned()
    } else {
        "L ".to_owned()
    };
    r.append(p.x.as_str());
    r.append(" ");
    r.append(p.y.as_str());
    r.append(" ");
    r
}

/// Appends the path data of a line.
pub fn append_line(d: &mut String, line: &[Spot])
    ensures
        final(d)@ == old(d)@ + line_data(spots(line@)),
{
    let ghost all = spots(line@);
    let ghost start = d@;
    let mut i: usize = 0;
    assert(all.take(0) =~= Seq::empty());
    assert(start + line_data(all.take(0)) =~= start);
    while i < line.len()
        invariant
            i <= line@.len(),
            all == spots(line@),
            d@ == start + line_data(all.take(i as int)),
        decreases line@.len() - i,
    {
        assert(all.take(i + 1).drop_last() =~= all.take(i as int));
        assert(all.take(i + 1).last() == line@[i as int]@);
        let c = write_command(i == 0, &line[i]);
        d.append(c.as_str());
        assert(d@ =~= start + line_data(all.take(i + 1)));
        i += 1;
    }
    assert(all.take(i as int) =~= all);
}

/// Appends the path data of a closed ring.
pub fn append_ring(d: &mut String, ring: &[Spot])
    ensures
        final(d)@ == old(d)@ + (line_data(spots(ring@)) + "Z "@),
{
    append_line(d, ring);
    d.append("Z ");
    assert(d@ =~= old(d)@ + (line_data(spots(ring@)) + "Z "@));
}

/// Appends the path data of a polygon: its outer ring and its holes.
pub fn append_polygon(d: &mut String, rings: &[Vec<Spot>])
    ensures
        final(d)@ == old(d)@ + rings_data(spot_lines(rings@)),
{
    let ghost all = spot_lines(rings@);
    let ghost start = d@;
    let mut i: usize = 0;
    assert(all.take(0) =~= Seq::empty());
    assert(start + rings_data(all.take(0)) =~= start);
    while i < rings.len()
        invariant
            i <= rings@.len(),
            all == spot_lines(rings@),
            d@ == start + rings_data(all.take(i as int)),
        decreases rings@.len() - i,
    {
        assert(all.take(i + 1).drop_last() =~= all.take(i as int));
        assert(all.take(i + 1).last() == spots(rings@[i as int]@));
        append_ring(d, rings[i].as_slice());
        assert(d@ =~= start + rings_data(all.take(i + 1)));
        i += 1;
    }
    assert(all.take(i as int) =~= all);
}

/// The geometry of a feature, in the document's coordinates.
#[derive(Debug)]
pub enum PlacedShape {
    Points(Vec<Spot>),
    Lines(Vec<Vec<Spot>>),
    /// Polygons, each with its outer ring first and then its holes.
    Polygons(Vec<Vec<Vec<Spot>>>),
    Other,
}

/// A [`PlacedShape`] with its contents as sequences.
pub enum PlacedShapeView {
    Points(Seq<SpotView>),
    Lines(Seq<Seq<SpotView>>),
    Polygons(Seq<Seq<Seq<SpotView>>>),
    Other,
}

impl View for PlacedShape {
    type V = PlacedShapeView;

    open spec fn view(&self) -> PlacedShapeView {
        match *self {
            PlacedShape::Points(p) => PlacedShapeView::Points(spots(p@)),
            PlacedShape::Lines(l) => PlacedShapeView::Lines(spot_lines(l@)),
            PlacedShape::Polygons(p) => PlacedShapeView::Polygons(spot_polygons(p@)),
            PlacedShape::Other => PlacedShapeView::Other,
        }
    }
}

/// The path data of a geometry: lines and polygons have one, unless they are
/// empty.
pub open spec fn shape_data(shape: PlacedShapeView) -> Option<Seq<char>> {
    let d = match shape {
        PlacedShapeView::Lines(lines) => lines_data(lines),
        PlacedShapeView::Polygons(polygons) => polygons_data(polygons),
        _ => Seq::empty(),
    };
    if d.len() == 0 {
        None
    } else {
        Some(d)
    }
}

/// Writes the path data of a geometry, if it has one.
pub fn geometry_to_path(shape: &PlacedShape) -> (r: Option<String>)
    ensures
        text::opt_string(r) == shape_data(shape@),
{
    let mut d = String::new();
    match shape {
        PlacedShape::Lines(lines) => {
            let ghost all = spot_lines(lines@);
            let mut i: usize = 0;
            assert(all.take(0) =~= Seq::empty());
            while i < lines.len()
                invariant
                    i <= lines@.len(),
                    all == spot_lines(lines@),
                    d@ == lines_data(all.take(i as int)),
                decreases lines@.len() - i,
            {
                assert(all.take(i + 1).drop_last() =~= all.take(i as int));
                assert(all.take(i + 1).last() == spots(lines@[i as int]@));
                append_line(&mut d, lines[i].as_slice());
                i += 1;
            }
            assert(all.take(i as int) =~= all);
        },
        PlacedShape::Polygons(polygons) => {
            let ghost all = spot_polygons(polygons@);
            let mut i: usize = 0;
            assert(all.take(0) =~= Seq::empty());
            while i < polygons.len()
                invariant
                    i <= polygons@.len(),
                    all == spot_polygons(polygons@),
                    d@ == polygons_data(all.take(i as int)),
                decreases polygons@.len() - i,
            {
                assert(all.take(i + 1).drop_last() =~= all.take(i as int));
                assert(all.take(i + 1).last() == spot_lines(polygons@[i as int]@));
                append_polygon(&mut d, polygons[i].as_slice());
                i += 1;
            }
            assert(all.take(i as int) =~= all);
        },
        _ => {
            return None;
        },
    }
    if d.as_str().is_empty() {
        None
    } else {
        Some(d)
    }
}

// ---------------------------------------------------------------------------
// Features and labels
// ---------------------------------------------------------------------------

/// A feature of a tile, placed in the document.
#[derive(Debug)]
pub struct PlacedFeature {
    pub shape: PlacedShape,
    pub name: Option<Property>,
    pub name_en: Option<Property>,
}

/// A [`PlacedFeature`] with its contents as sequences.
pub struct PlacedFeatureView {
    pub shape: PlacedShapeView,
    pub name: Option<PropertyView>,
    pub name_en: Option<PropertyView>,
}

impl View for PlacedFeature {
    type V = PlacedFeatureView;

    open spec fn view(&self) -> PlacedFeatureView {
        PlacedFeatureView {
            shape: self.shape@,
            name: tiles::opt_property(self.name),
            name_en: tiles::opt_property(self.name_en),
        }
    }
}

/// The text of a property, unless it is empty.
pub open spec fn property_text(p: PropertyView) -> Option<Seq<char>> {
    match p {
        PropertyView::Text(s) => if s.len() > 0 {
            Some(s)
        } else {
            None
        },
        PropertyView::Other => None,
    }
}

/// The name of a feature: its property `name`, or `name:en` where it has no
/// `name` at all.
pub open spec fn feature_name(f: PlacedFeatureView) -> Option<Seq<char>> {
    match f.name {
        Some(p) => property_text(p),
        None => match f.name_en {
            Some(p) => property_text(p),
            None => None,
        },
    }
}

/// Where the label of a feature stands: at its first point. Lines and polygons
/// are not labelled.
pub open spec fn label_spot(shape: PlacedShapeView) -> Option<SpotView> {
    match shape {
        PlacedShapeView::Points(p) => if p.len() > 0 {
            Some(p[0])
        } else {
            None
        },
        _ => None,
    }
}

/// The part that the two texts of a label have in common.
pub open spec fn label_start(p: SpotView) -> Seq<char> {
    "<text"@ + markup::attribute(" x="@, p.x) + markup::attribute(" y="@, p.y)
        + markup::attribute(" font-size="@, "12"@) + markup::attribute(
        " font-family="@,
        "sans-serif"@,
    ) + markup::attribute(" font-weight="@, "600"@) + markup::attribute(
        " text-anchor="@,
        "middle"@,
    )
}

/// The start of the text in white outlines.
pub open spec fn halo_start(p: SpotView) -> Seq<char> {
    label_start(p) + markup::attribute(" fill="@, "none"@) + markup::attribute(
        " stroke="@,
        "#ffffff"@,
    ) + markup::attribute(" stroke-width="@, "3"@) + markup::attribute(
        " paint-order="@,
        "stroke"@,
    )
}

/// The start of the text over its outlines.
pub open spec fn name_start(p: SpotView) -> Seq<char> {
    label_start(p) + markup::attribute(" fill="@, "#333333"@)
}

/// A label: the name in white outlines, and the name itself over them.
pub open spec fn label_markup(p: SpotView, name: Seq<char>) -> Seq<char> {
    markup::text_element(halo_start(p), xml::escaped(name)) + markup::text_element(
        name_start(p),
        xml::escaped(name),
    )
}

/// The name and the label of a feature that has both a name and a point.
pub open spec fn feature_label(f: PlacedFeatureView) -> Option<(Seq<char>, Seq<char>)> {
    match (feature_name(f), label_spot(f.shape)) {
        (Some(name), Some(p)) => Some((name, label_markup(p, name))),
        _ => None,
    }
}

/// The text of a property, unless it is empty.
fn text_of(p: &Property) -> (r: Option<&str>)
    ensures
        text::opt_str(r) == property_text(p@),
{
    match p {
        Property::Text(s) => if s.as_str().is_empty() {
            None
        } else {
            Some(s.as_str())
        },
        Property::Other => None,
    }
}

/// The name of a feature.
fn name_of(f: &PlacedFeature) -> (r: Option<&str>)
    ensures
        text::opt_str(r) == feature_name(f@),
{
    match &f.name {
        Some(p) => text_of(p),
        None => match &f.name_en {
            Some(p) => text_of(p),
            None => None,
        },
    }
}

fn write_label_start(p: &Spot) -> (r: String)
    ensures
        r@ == label_start(p@),
{
    let mut r = "<text".to_owned();
    markup::push_attribute(&mut r, " x=", p.x.as_str());
    markup::push_attribute(&mut r, " y=", p.y.as_str());
    markup::push_attribute(&mut r, " font-size=", "12");
    markup::push_attribute(&mut r, " font-family=", "sans-serif");
    markup::push_attribute(&mut r, " font-weight=", "600");
    markup::push_attribute(&mut r, " text-anchor=", "middle");
    r
}

/// Writes the label of a feature, if it has a name and a point. Returns the
/// name as well, so that a label can be told from others with that name.
pub fn label_for_feature(f: &PlacedFeature) -> (r: Option<(String, String)>)
    ensures
        match r {
            Some((name, markup)) => feature_label(f@) == Some((name@, markup@)),
            None => feature_label(f@) is None,
        },
{
    let name = match name_of(f) {
        Some(name) => name,
        None => {
            return None;
        },
    };
    let points = match &f.shape {
        PlacedShape::Points(points) => points,
        _ => {
            return None;
        },
    };
    if points.len() == 0 {
        return None;
    }
    assert(spots(points@)[0] == points@[0]@);
    let escaped = xml::xml_escape(name);
    let mut halo = write_label_start(&points[0]);
    markup::push_attribute(&mut halo, " fill=", "none");
    markup::push_attribute(&mut halo, " stroke=", "#ffffff");
    markup::push_attribute(&mut halo, " stroke-width=", "3");
    markup::push_attribute(&mut halo, " paint-order=", "stroke");
    let mut over = write_label_start(&points[0]);
    markup::push_attribute(&mut over, " fill=", "#333333");
    let mut r = markup::write_text(halo, escaped.as_str());
    let e = markup::write_text(over, escaped.as_str());
    r.append(e.as_str());
    Some((name.to_owned(), r))
}

/// The views of features.
pub open spec fn feature_views(features: Seq<PlacedFeature>) -> Seq<PlacedFeatureView> {
    features.map_values(|f: PlacedFeature| f@)
}

/// A layer of a tile, placed in the document.
#[derive(Debug)]
pub struct PlacedLayer {
    /// The name of the layer in lower case.
    pub lower_name: String,
    pub features: Vec<PlacedFeature>,
}

/// A [`PlacedLayer`] with its contents as sequences.
pub struct PlacedLayerView {
    pub lower_name: Seq<char>,
    pub features: Seq<PlacedFeatureView>,
}

impl View for PlacedLayer {
    type V = PlacedLayerView;

    open spec fn view(&self) -> PlacedLayerView {
        PlacedLayerView {
            lower_name: self.lower_name@,
            features: feature_views(self.features@),
        }
    }
}

impl PlacedLayer {
    /// A layer by its name, whose case does not matter, and its features.
    pub fn new(name: &str, features: Vec<PlacedFeature>) -> (r: PlacedLayer)
        ensures
            r@.lower_name == text::lowercase(name@),
            r@.features == feature_views(features@),
    {
        PlacedLayer { lower_name: text::to_lowercase(name), features }
    }
}

/// The views of layers.
pub open spec fn layer_views(layers: Seq<PlacedLayer>) -> Seq<PlacedLayerView> {
    layers.map_values(|l: PlacedLayer| l@)
}

/// Whether a layer holds places: it is shown as labels and not drawn.
pub open spec fn is_label_layer(layer: PlacedLayerView) -> bool {
    text::contains(layer.lower_name, "place"@)
}

/// The labels of features, in order.
pub open spec fn labels_of(features: Seq<PlacedFeatureView>) -> Seq<(Seq<char>, Seq<char>)>
    decreases features.len(),
{
    if features.len() == 0 {
        Seq::empty()
    } else {
        let front = labels_of(features.drop_last());
        match feature_label(features.last()) {
            Some(l) => front.push(l),
            None => front,
        }
    }
}

/// The labels of the label layers, in order.
pub open spec fn all_labels(layers: Seq<PlacedLayerView>) -> Seq<(Seq<char>, Seq<char>)>
    decreases layers.len(),
{
    if layers.len() == 0 {
        Seq::empty()
    } else if is_label_layer(layers.last()) {
        all_labels(layers.drop_last()) + labels_of(layers.last().features)
    } else {
        all_labels(layers.drop_last())
    }
}

/// Whether a label with this name is among the labels.
pub open spec fn has_label(labels: Seq<(Seq<char>, Seq<char>)>, name: Seq<char>) -> bool {
    exists|i: int| 0 <= i < labels.len() && (#[trigger] labels[i]).0 == name
}

/// The labels without those that repeat the name of an earlier one: a place
/// near the edge of a tile is in the tile next to it as well.
pub open spec fn first_labels(labels: Seq<(Seq<char>, Seq<char>)>) -> Seq<(Seq<char>, Seq<char>)>
    decreases labels.len(),
{
    if labels.len() == 0 {
        Seq::empty()
    } else if has_label(labels.drop_last(), labels.last().0) {
        first_labels(labels.drop_last())
    } else {
        first_labels(labels.drop_last()).push(labels.last())
    }
}

/// The labels written one after the other.
pub open spec fn labels_markup(labels: Seq<(Seq<char>, Seq<char>)>) -> Seq<char>
    decreases labels.len(),
{
    if labels.len() == 0 {
        Seq::empty()
    } else {
        labels_markup(labels.drop_last()) + labels.last().1
    }
}

/// Every name is shown exactly once, with the first label that has it.
pub proof fn labels_shown_once(labels: Seq<(Seq<char>, Seq<char>)>)
    ensures
        forall|i: int, j: int|
            0 <= i < j < first_labels(labels).len() ==> (#[trigger] first_labels(labels)[i]).0 != (
            #[trigger] first_labels(labels)[j]).0,
        forall|name: Seq<char>| #[trigger]
            has_label(first_labels(labels), name) <==> has_label(labels, name),
        forall|i: int|
            0 <= i < first_labels(labels).len() ==> is_first(
                labels,
                #[trigger] first_labels(labels)[i],
            ),
    decreases labels.len(),
{
    if labels.len() > 0 {
        let front = labels.drop_last();
        let l = labels.last();
        labels_shown_once(front);
        let kept = first_labels(front);
        let all = first_labels(labels);
        assert forall|name: Seq<char>| #[trigger]
            has_label(labels, name) <==> has_label(front, name) || name == l.0 by {
            if has_label(front, name) {
                let i = choose|i: int| 0 <= i < front.len() && (#[trigger] front[i]).0 == name;
                assert(labels[i].0 == name);
            }
            if name == l.0 {
                assert(labels[labels.len() - 1].0 == name);
            }
            if has_label(labels, name) && name != l.0 {
                let i = choose|i: int| 0 <= i < labels.len() && (#[trigger] labels[i]).0 == name;
                assert(front[i].0 == name);
            }
        }
        if !has_label(front, l.0) {
            assert forall|name: Seq<char>| #[trigger]
                has_label(all, name) <==> has_label(kept, name) || name == l.0 by {
                if has_label(kept, name) {
                    let i = choose|i: int| 0 <= i < kept.len() && (#[trigger] kept[i]).0 == name;
                    assert(all[i].0 == name);
                }
                if name == l.0 {
                    assert(all[all.len() - 1].0 == name);
                }
                if has_label(all, name) && name != l.0 {
                    let i = choose|i: int| 0 <= i < all.len() && (#[trigger] all[i]).0 == name;
                    assert(kept[i].0 == name);
                }
            }
            assert forall|i: int, j: int| 0 <= i < j < all.len() implies (#[trigger] all[i]).0 != (
            #[trigger] all[j]).0 by {
                assert(all[i] == kept[i]);
                if j < kept.len() {
                    assert(all[j] == kept[j]);
                } else if all[i].0 == l.0 {
                    assert(has_label(kept, l.0));
                }
            }
        }
        assert forall|i: int| 0 <= i < all.len() implies is_first(labels, #[trigger] all[i]) by {
            if i < kept.len() {
                assert(all[i] == kept[i]);
                assert(is_first(front, kept[i]));
                let k = choose|k: int| first_at(front, kept[i], k);
                assert(first_at(labels, all[i], k)) by {
                    assert(labels.take(k) =~= front.take(k));
                }
            } else {
                assert(labels.take(labels.len() - 1) =~= front);
                assert(first_at(labels, all[i], labels.len() - 1));
            }
        }
    }
}

/// Whether the `k`-th label is this one and no label before it has its name.
pub open spec fn first_at(
    labels: Seq<(Seq<char>, Seq<char>)>,
    label: (Seq<char>, Seq<char>),
    k: int,
) -> bool {
    0 <= k < labels.len() && labels[k] == label && !has_label(labels.take(k), label.0)
}

/// Whether a label is the first with its name.
pub open spec fn is_first(
    labels: Seq<(Seq<char>, Seq<char>)>,
    label: (Seq<char>, Seq<char>),
) -> bool {
    exists|k: int| first_at(labels, label, k)
}

/// Adds the labels of a layer to those that have been written. `done` stands
/// for the labels met before, written or not.
fn write_layer_labels(
    features: &[PlacedFeature],
    seen: &mut StringHashSet,
    out: &mut String,
    Ghost(done): Ghost<Seq<(Seq<char>, Seq<char>)>>,
)
    requires
        forall|name: Seq<char>| #[trigger]
            old(seen)@.contains(name) <==> has_label(done, name),
        old(out)@ == labels_markup(first_labels(done)),
    ensures
        forall|name: Seq<char>| #[trigger]
            final(seen)@.contains(name) <==> has_label(
                done + labels_of(feature_views(features@)),
                name,
            ),
        final(out)@ == labels_markup(first_labels(done + labels_of(feature_views(features@)))),
{
    let ghost all = feature_views(features@);
    let mut i: usize = 0;
    assert(all.take(0) =~= Seq::empty());
    assert(done + labels_of(all.take(0)) =~= done);
    while i < features.len()
        invariant
            i <= features@.len(),
            all == feature_views(features@),
            forall|name: Seq<char>| #[trigger]
                seen@.contains(name) <==> has_label(done + labels_of(all.take(i as int)), name),
            out@ == labels_markup(first_labels(done + labels_of(all.take(i as int)))),
        decreases features@.len() - i,
    {
        let ghost met = done + labels_of(all.take(i as int));
        assert(all.take(i + 1).drop_last() =~= all.take(i as int));
        assert(all.take(i + 1).last() == features@[i as int]@);
        match label_for_feature(&features[i]) {
            Some((name, markup)) => {
                let ghost label = (name@, markup@);
                let ghost more = met.push(label);
                assert(done + labels_of(all.take(i + 1)) =~= more);
                assert(more.drop_last() =~= met);
                proof {
                    label_added(met, label);
                }
                if seen.insert(name) {
                    out.append(markup.as_str());
                    assert(first_labels(more).drop_last() =~= first_labels(met));
                }
            },
            None => {},
        }
        i += 1;
    }
    assert(all.take(i as int) =~= all);
}

proof fn label_added(labels: Seq<(Seq<char>, Seq<char>)>, label: (Seq<char>, Seq<char>))
    ensures
        forall|name: Seq<char>| #[trigger]
            has_label(labels.push(label), name) <==> has_label(labels, name) || name == label.0,
{
    let more = labels.push(label);
    assert forall|name: Seq<char>| #[trigger]
        has_label(more, name) <==> has_label(labels, name) || name == label.0 by {
        if has_label(labels, name) {
            let i = choose|i: int| 0 <= i < labels.len() && (#[trigger] labels[i]).0 == name;
            assert(more[i].0 == name);
        }
        if name == label.0 {
            assert(more[more.len() - 1].0 == name);
        }
        if has_label(more, name) && name != label.0 {
            let i = choose|i: int| 0 <= i < more.len() && (#[trigger] more[i]).0 == name;
            assert(labels[i].0 == name);
        }
    }
}

/// Tests whether a layer holds places.
fn holds_places(layer: &PlacedLayer) -> (r: bool)
    ensures
        r == is_label_layer(layer@),
{
    let chars = text::to_chars(layer.lower_name.as_str());
    text::has_text(chars.as_slice(), "place")
}

/// Writes the labels of the label layers, each name once.
fn write_labels(layers: &[PlacedLayer]) -> (r: String)
    ensures
        r@ == labels_markup(first_labels(all_labels(layer_views(layers@)))),
{
    let ghost all = layer_views(layers@);
    let mut seen = StringHashSet::new();
    let mut out = String::new();
    let mut i: usize = 0;
    assert(all.take(0) =~= Seq::empty());
    while i < layers.len()
        invariant
            i <= layers@.len(),
            all == layer_views(layers@),
            forall|name: Seq<char>| #[trigger]
                seen@.contains(name) <==> has_label(all_labels(all.take(i as int)), name),
            out@ == labels_markup(first_labels(all_labels(all.take(i as int)))),
        decreases layers@.len() - i,
    {
        assert(all.take(i + 1).drop_last() =~= all.take(i as int));
        assert(all.take(i + 1).last() == layers@[i as int]@);
        if holds_places(&layers[i]) {
            write_layer_labels(
                layers[i].features.as_slice(),
                &mut seen,
                &mut out,
                Ghost(all_labels(all.take(i as int))),
            );
        }
        i += 1;
    }
    assert(all.take(i as int) =~= all);
    out
}

// ---------------------------------------------------------------------------
// Layers
// ---------------------------------------------------------------------------

/// The attribute of a dashed stroke.
pub open spec fn dash_attribute(dash: Option<Seq<char>>) -> Seq<char> {
    match dash {
        Some(d) => markup::attribute(" stroke-dasharray="@, d),
        None => Seq::empty(),
    }
}

/// A path element.
pub open spec fn path_element(
    d: Seq<char>,
    fill: Seq<char>,
    stroke: Seq<char>,
    width: Seq<char>,
    dash: Option<Seq<char>>,
) -> Seq<char> {
    "<path"@ + markup::attribute(" d="@, d) + markup::attribute(" fill="@, fill)
        + markup::attribute(" stroke="@, stroke) + markup::attribute(" stroke-width="@, width)
        + dash_attribute(dash) + " />\n"@
}

/// The width of the stroke that seals a fill: the stroke width, but at least 1.
pub open spec fn seal_width(w: params::WidthView) -> Seq<char> {
    if number::single_over_one(w.bits) {
        w.shown
    } else {
        "1"@
    }
}

/// How path data is drawn in a style.
///
/// A fill is sealed with a stroke of its own color, so that no hairline shows
/// where two fills meet; a border is drawn over it.
pub open spec fn drawn(d: Seq<char>, s: LayerStyleView) -> Seq<char> {
    let line = match s.stroke {
        Some(c) => path_element(d, "none"@, xml::escaped(c), s.stroke_width.shown, s.dash),
        None => Seq::empty(),
    };
    match s.fill {
        Some(c) => path_element(
            d,
            xml::escaped(c),
            xml::escaped(c),
            seal_width(s.stroke_width),
            None,
        ) + line,
        None => line,
    }
}

/// The outline of path data in a style that has one: a wider stroke.
pub open spec fn outlined(d: Seq<char>, s: LayerStyleView) -> Seq<char> {
    match s.casing {
        Some(c) => path_element(d, "none"@, xml::escaped(c), s.stroke_width.outline, None),
        None => Seq::empty(),
    }
}

/// What a feature adds to a level: it is drawn at the level of its style, and
/// outlined one level below.
pub open spec fn feature_at(f: PlacedFeatureView, s: LayerStyleView, level: int) -> Seq<char> {
    match shape_data(f.shape) {
        Some(d) => if s.z == level {
            drawn(d, s)
        } else if s.z == level + 1 {
            outlined(d, s)
        } else {
            Seq::empty()
        },
        None => Seq::empty(),
    }
}

/// What features add to a level.
pub open spec fn features_at(
    features: Seq<PlacedFeatureView>,
    s: LayerStyleView,
    level: int,
) -> Seq<char>
    decreases features.len(),
{
    if features.len() == 0 {
        Seq::empty()
    } else {
        features_at(features.drop_last(), s, level) + feature_at(features.last(), s, level)
    }
}

/// What a layer adds to a level. Label layers are not drawn.
pub open spec fn layer_at(
    layer: PlacedLayerView,
    overrides: Map<Seq<char>, StyleOverrideView>,
    level: int,
) -> Seq<char> {
    if is_label_layer(layer) {
        Seq::empty()
    } else {
        features_at(layer.features, style::layer_style(layer.lower_name, overrides), level)
    }
}

/// What layers add to a level, in order.
pub open spec fn level_markup(
    layers: Seq<PlacedLayerView>,
    overrides: Map<Seq<char>, StyleOverrideView>,
    level: int,
) -> Seq<char>
    decreases layers.len(),
{
    if layers.len() == 0 {
        Seq::empty()
    } else {
        level_markup(layers.drop_last(), overrides, level) + layer_at(
            layers.last(),
            overrides,
            level,
        )
    }
}

/// The levels below `end`, bottom to top.
pub open spec fn levels_markup(
    layers: Seq<PlacedLayerView>,
    overrides: Map<Seq<char>, StyleOverrideView>,
    end: int,
) -> Seq<char>
    decreases end,
{
    if end <= 0 {
        Seq::empty()
    } else {
        levels_markup(layers, overrides, end - 1) + level_markup(layers, overrides, end - 1)
    }
}

/// Writes a path element.
fn write_path(d: &str, fill: &str, stroke: &str, width: &str, dash: Option<&str>) -> (r: String)
    ensures
        r@ == path_element(d@, fill@, stroke@, width@, text::opt_str(dash)),
{
    let mut r = "<path".to_owned();
    markup::push_attribute(&mut r, " d=", d);
    markup::push_attribute(&mut r, " fill=", fill);
    markup::push_attribute(&mut r, " stroke=", stroke);
    markup::push_attribute(&mut r, " stroke-width=", width);
    let ghost before = r@;
    if let Some(d) = dash {
        markup::push_attribute(&mut r, " stroke-dasharray=", d);
    }
    assert(r@ =~= before + dash_attribute(text::opt_str(dash)));
    r.append(" />\n");
    r
}

/// An optional color as it is written in the document.
pub open spec fn escaped_color(color: Option<Seq<char>>) -> Option<Seq<char>> {
    match color {
        Some(c) => Some(xml::escaped(c)),
        None => None,
    }
}

/// Escapes an optional color.
fn escape_color(color: &Option<String>) -> (r: Option<String>)
    ensures
        text::opt_string(r) == escaped_color(text::opt_string(*color)),
{
    match color {
        Some(c) => Some(xml::xml_escape(c.as_str())),
        None => None,
    }
}

/// Draws path data in a style, of which the colors are escaped already.
fn draw(d: &str, s: &LayerStyle, fill: &Option<String>, stroke: &Option<String>) -> (r: String)
    requires
        text::opt_string(*fill) == escaped_color(s@.fill),
        text::opt_string(*stroke) == escaped_color(s@.stroke),
    ensures
        r@ == drawn(d@, s@),
{
    let line = match stroke {
        Some(c) => write_path(d, "none", c.as_str(), s.stroke_width.shown.as_str(), s.dash),
        None => String::new(),
    };
    match fill {
        Some(c) => {
            let seal = if number::is_over_one(s.stroke_width.bits) {
                s.stroke_width.shown.as_str()
            } else {
                "1"
            };
            let mut r = write_path(d, c.as_str(), c.as_str(), seal, None);
            r.append(line.as_str());
            r
        },
        None => line,
    }
}

/// Draws or outlines the features of a layer, whichever belongs to the level.
fn write_features(features: &[PlacedFeature], s: &LayerStyle, level: u8) -> (r: String)
    requires
        level < 255,
    ensures
        r@ == features_at(feature_views(features@), s@, level as int),
{
    let ghost all = feature_views(features@);
    let fill = escape_color(&s.fill);
    let stroke = escape_color(&s.stroke);
    let casing = escape_color(&s.casing);
    let mut r = String::new();
    let mut i: usize = 0;
    assert(all.take(0) =~= Seq::empty());
    while i < features.len()
        invariant
            i <= features@.len(),
            level < 255,
            all == feature_views(features@),
            text::opt_string(fill) == escaped_color(s@.fill),
            text::opt_string(stroke) == escaped_color(s@.stroke),
            text::opt_string(casing) == escaped_color(s@.casing),
            r@ == features_at(all.take(i as int), s@, level as int),
        decreases features@.len() - i,
    {
        let ghost before = r@;
        assert(all.take(i + 1).drop_last() =~= all.take(i as int));
        assert(all.take(i + 1).last() == features@[i as int]@);
        if let Some(d) = geometry_to_path(&features[i].shape) {
            if s.z == level {
                let e = draw(d.as_str(), s, &fill, &stroke);
                r.append(e.as_str());
            } else if s.z == level + 1 {
                if let Some(c) = &casing {
                    let e = write_path(
                        d.as_str(),
                        "none",
                        c.as_str(),
                        s.stroke_width.outline.as_str(),
                        None,
                    );
                    r.append(e.as_str());
                }
            }
        }
        assert(before + Seq::<char>::empty() =~= before);
        i += 1;
    }
    assert(all.take(i as int) =~= all);
    r
}

/// Finds how each layer looks.
fn styles_for(layers: &[PlacedLayer], overrides: &StringHashMap<StyleOverride>) -> (r: Vec<
    LayerStyle,
>)
    ensures
        r@.len() == layers@.len(),
        forall|i: int|
            0 <= i < r@.len() ==> (#[trigger] r@[i])@ == style::layer_style(
                layers@[i]@.lower_name,
                params::override_views(overrides@),
            ),
{
    let mut r: Vec<LayerStyle> = Vec::new();
    let mut i: usize = 0;
    while i < layers.len()
        invariant
            i <= layers@.len(),
            r@.len() == i,
            forall|j: int|
                0 <= j < r@.len() ==> (#[trigger] r@[j])@ == style::layer_style(
                    layers@[j]@.lower_name,
                    params::override_views(overrides@),
                ),
        decreases layers@.len() - i,
    {
        r.push(style::style_for_lowercase(layers[i].lower_name.as_str(), overrides));
        i += 1;
    }
    r
}

/// Writes what the layers add to a level.
fn write_level(
    layers: &[PlacedLayer],
    styles: &[LayerStyle],
    level: u8,
    Ghost(overrides): Ghost<Map<Seq<char>, StyleOverrideView>>,
) -> (r: String)
    requires
        level < 255,
        styles@.len() == layers@.len(),
        forall|i: int|
            0 <= i < styles@.len() ==> (#[trigger] styles@[i])@ == style::layer_style(
                layers@[i]@.lower_name,
                overrides,
            ),
    ensures
        r@ == level_markup(layer_views(layers@), overrides, level as int),
{
    let ghost all = layer_views(layers@);
    let mut r = String::new();
    let mut i: usize = 0;
    assert(all.take(0) =~= Seq::empty());
    while i < layers.len()
        invariant
            i <= layers@.len(),
            level < 255,
            all == layer_views(layers@),
            styles@.len() == layers@.len(),
            forall|i: int|
                0 <= i < styles@.len() ==> (#[trigger] styles@[i])@ == style::layer_style(
                    layers@[i]@.lower_name,
                    overrides,
                ),
            r@ == level_markup(all.take(i as int), overrides, level as int),
        decreases layers@.len() - i,
    {
        let ghost before = r@;
        assert(all.take(i + 1).drop_last() =~= all.take(i as int));
        assert(all.take(i + 1).last() == layers@[i as int]@);
        if !holds_places(&layers[i]) {
            if styles[i].z == level || styles[i].z == level + 1 {
                let e = write_features(layers[i].features.as_slice(), &styles[i], level);
                r.append(e.as_str());
            } else {
                proof {
                    nothing_elsewhere(layers@[i as int]@.features, styles@[i as int]@, level as int);
                }
            }
        }
        assert(before + Seq::<char>::empty() =~= before);
        i += 1;
    }
    assert(all.take(i as int) =~= all);
    r
}

/// Features add nothing to levels other than that of their style and the one
/// below.
pub proof fn nothing_elsewhere(features: Seq<PlacedFeatureView>, s: LayerStyleView, level: int)
    requires
        s.z != level,
        s.z != level + 1,
    ensures
        features_at(features, s, level) == Seq::<char>::empty(),
    decreases features.len(),
{
    if features.len() > 0 {
        nothing_elsewhere(features.drop_last(), s, level);
        assert(features_at(features, s, level) =~= Seq::<char>::empty());
    }
}

/// Writes all levels, bottom to top.
fn write_levels(layers: &[PlacedLayer], overrides: &StringHashMap<StyleOverride>) -> (r: String)
    ensures
        r@ == levels_markup(
            layer_views(layers@),
            params::override_views(overrides@),
            Z_LEVELS as int,
        ),
{
    let ghost over = params::override_views(overrides@);
    let styles = styles_for(layers, overrides);
    let mut r = String::new();
    let mut level: u8 = 0;
    while (level as usize) < Z_LEVELS
        invariant
            level <= Z_LEVELS,
            styles@.len() == layers@.len(),
            forall|i: int|
                0 <= i < styles@.len() ==> (#[trigger] styles@[i])@ == style::layer_style(
                    layers@[i]@.lower_name,
                    over,
                ),
            r@ == levels_markup(layer_views(layers@), over, level as int),
        decreases Z_LEVELS - level,
    {
        let e = write_level(layers, styles.as_slice(), level, Ghost(over));
        r.append(e.as_str());
        level += 1;
    }
    r
}

/// Layers are drawn level by level over all tiles and not tile by tile: at
/// each level what the first tiles add comes before what the others add, and
/// nothing of a lower level comes after it. So the background of a tile never
/// covers what its neighbor shows.
pub proof fn levels_span_tiles(
    a: Seq<PlacedLayerView>,
    b: Seq<PlacedLayerView>,
    overrides: Map<Seq<char>, StyleOverrideView>,
    level: int,
)
    requires
        0 <= level,
    ensures
        level_markup(a + b, overrides, level) == level_markup(a, overrides, level) + level_markup(
            b,
            overrides,
            level,
        ),
        levels_markup(a + b, overrides, level + 1) == levels_markup(a + b, overrides, level) + (
        level_markup(a, overrides, level) + level_markup(b, overrides, level)),
    decreases b.len(),
{
    if b.len() == 0 {
        assert(a + b =~= a);
        assert(level_markup(a, overrides, level) + level_markup(b, overrides, level)
            =~= level_markup(a, overrides, level));
    } else {
        assert((a + b).drop_last() =~= a + b.drop_last());
        levels_span_tiles(a, b.drop_last(), overrides, level);
        assert(level_markup(a + b, overrides, level) =~= level_markup(a, overrides, level)
            + level_markup(b, overrides, level));
    }
}

// ---------------------------------------------------------------------------
// Markers
// ---------------------------------------------------------------------------

/// A group of markers, and where they stand: a spot for each of its points.
pub struct PlacedMarkers {
    group: MarkerGroup,
    spots: Vec<Spot>,
}

/// A [`PlacedMarkers`] with its contents as sequences.
pub struct PlacedMarkersView {
    pub group: MarkerGroupView,
    pub spots: Seq<SpotView>,
}

impl View for PlacedMarkers {
    type V = PlacedMarkersView;

    closed spec fn view(&self) -> PlacedMarkersView {
        PlacedMarkersView { group: self.group@, spots: spots(self.spots@) }
    }
}

impl PlacedMarkers {
    #[verifier::type_invariant]
    spec fn wf(self) -> bool {
        self.spots@.len() == self.group.points@.len()
    }

    /// A group of markers and their spots, unless these are not as many as the
    /// points of the group.
    pub fn new(group: MarkerGroup, spots: Vec<Spot>) -> (r: Option<PlacedMarkers>)
        ensures
            r is Some <==> spots@.len() == group@.points.len(),
            r matches Some(m) ==> m@ == (PlacedMarkersView {
                group: group@,
                spots: self::spots(spots@),
            }),
    {
        if spots.len() == group.points.len() {
            Some(PlacedMarkers { group, spots })
        } else {
            None
        }
    }
}

/// The radius of a marker, as text.
pub open spec fn radius_text(size: MarkerSize) -> Seq<char> {
    match size {
        MarkerSize::Tiny => "4"@,
        MarkerSize::Small => "6"@,
        MarkerSize::Mid => "8"@,
    }
}

/// The font size of a marker's label, 1.1 times the radius, as text.
pub open spec fn font_size_text(size: MarkerSize) -> Seq<char> {
    match size {
        MarkerSize::Tiny => "4.4"@,
        MarkerSize::Small => "6.6"@,
        MarkerSize::Mid => "8.8"@,
    }
}

/// A marker's circle.
pub open spec fn circle(p: SpotView, radius: Seq<char>, color: Seq<char>) -> Seq<char> {
    "<circle"@ + markup::attribute(" cx="@, p.x) + markup::attribute(" cy="@, p.y)
        + markup::attribute(" r="@, radius) + markup::attribute(" fill="@, color)
        + markup::attribute(" stroke="@, "#ffffff"@) + markup::attribute(" stroke-width="@, "2"@)
        + " />\n"@
}

/// The start of the label in a marker's circle.
pub open spec fn marker_label_start(p: SpotView, font_size: Seq<char>) -> Seq<char> {
    "<text"@ + markup::attribute(" x="@, p.x) + markup::attribute(" y="@, p.y)
        + markup::attribute(" font-size="@, font_size) + markup::attribute(
        " font-family="@,
        "sans-serif"@,
    ) + markup::attribute(" font-weight="@, "700"@) + markup::attribute(
        " text-anchor="@,
        "middle"@,
    ) + markup::attribute(" dominant-baseline="@, "central"@) + markup::attribute(
        " fill="@,
        "#ffffff"@,
    )
}

/// The label in a marker's circle.
pub open spec fn marker_label(p: SpotView, font_size: Seq<char>, label: Seq<char>) -> Seq<char> {
    markup::text_element(marker_label_start(p, font_size), label)
}

/// A marker: its circle, and its label if it has one.
pub open spec fn marker(p: SpotView, g: MarkerGroupView) -> Seq<char> {
    let c = circle(p, radius_text(g.size), xml::escaped(g.color));
    match g.label {
        Some(l) => c + marker_label(p, font_size_text(g.size), xml::escaped(seq![l])),
        None => c,
    }
}

/// The markers of a group.
pub open spec fn markers(list: Seq<SpotView>, g: MarkerGroupView) -> Seq<char>
    decreases list.len(),
{
    if list.len() == 0 {
        Seq::empty()
    } else {
        markers(list.drop_last(), g) + marker(list.last(), g)
    }
}

/// The radius texts are the radii.
pub proof fn radius_text_is_radius(size: MarkerSize)
    ensures
        radius_text(size) == number::decimal(
            match size {
                MarkerSize::Tiny => 4,
                MarkerSize::Small => 6,
                MarkerSize::Mid => 8,
            },
        ),
{
    reveal_strlit("4");
    reveal_strlit("6");
    reveal_strlit("8");
    assert(radius_text(size) =~= number::decimal(
        match size {
            MarkerSize::Tiny => 4,
            MarkerSize::Small => 6,
            MarkerSize::Mid => 8,
        },
    ));
}

fn write_circle(p: &Spot, radius: &str, color: &str) -> (r: String)
    ensures
        r@ == circle(p@, radius@, color@),
{
    let mut r = "<circle".to_owned();
    markup::push_attribute(&mut r, " cx=", p.x.as_str());
    markup::push_attribute(&mut r, " cy=", p.y.as_str());
    markup::push_attribute(&mut r, " r=", radius);
    markup::push_attribute(&mut r, " fill=", color);
    markup::push_attribute(&mut r, " stroke=", "#ffffff");
    markup::push_attribute(&mut r, " stroke-width=", "2");
    r.append(" />\n");
    r
}

fn write_marker_label(p: &Spot, font_size: &str, label: &str) -> (r: String)
    ensures
        r@ == marker_label(p@, font_size@, label@),
{
    let mut r = "<text".to_owned();
    markup::push_attribute(&mut r, " x=", p.x.as_str());
    markup::push_attribute(&mut r, " y=", p.y.as_str());
    markup::push_attribute(&mut r, " font-size=", font_size);
    markup::push_attribute(&mut r, " font-family=", "sans-serif");
    markup::push_attribute(&mut r, " font-weight=", "700");
    markup::push_attribute(&mut r, " text-anchor=", "middle");
    markup::push_attribute(&mut r, " dominant-baseline=", "central");
    markup::push_attribute(&mut r, " fill=", "#ffffff");
    markup::write_text(r, label)
}

/// Draws the markers of a group.
pub fn render_marker_group(m: &PlacedMarkers) -> (r: String)
    ensures
        r@ == markers(m@.spots, m@.group),
{
    let ghost all = spots(m.spots@);
    let g = &m.group;
    let (radius, font_size) = match g.size {
        MarkerSize::Tiny => ("4", "4.4"),
        MarkerSize::Small => ("6", "6.6"),
        MarkerSize::Mid => ("8", "8.8"),
    };
    let color = xml::xml_escape(g.color.as_str());
    let label = match g.label {
        Some(c) => {
            let mut s = String::new();
            s.push(c);
            assert(s@ =~= seq![c]);
            Some(xml::xml_escape(s.as_str()))
        },
        None => None,
    };
    let mut r = String::new();
    let mut i: usize = 0;
    assert(all.take(0) =~= Seq::empty());
    while i < m.spots.len()
        invariant
            i <= m.spots@.len(),
            all == spots(m.spots@),
            g == &m.group,
            radius@ == radius_text(g.size),
            font_size@ == font_size_text(g.size),
            color@ == xml::escaped(g.color@),
            text::opt_string(label) == match g.label {
                Some(c) => Some(xml::escaped(seq![c])),
                None => None,
            },
            r@ == markers(all.take(i as int), g@),
        decreases m.spots@.len() - i,
    {
        assert(all.take(i + 1).drop_last() =~= all.take(i as int));
        assert(all.take(i + 1).last() == m.spots@[i as int]@);
        let p = &m.spots[i];
        let mut e = write_circle(p, radius, color.as_str());
        if let Some(l) = &label {
            let t = write_marker_label(p, font_size, l.as_str());
            e.append(t.as_str());
        }
        r.append(e.as_str());
        i += 1;
    }
    assert(all.take(i as int) =~= all);
    r
}

// ---------------------------------------------------------------------------
// Paths
// ---------------------------------------------------------------------------

/// Triangles that together fill the stroke of a path: their corners, and for
/// each triangle three indexes of corners.
pub struct Mesh {
    vertices: Vec<Spot>,
    indices: Vec<u32>,
}

/// A [`Mesh`] with its contents as sequences.
pub struct MeshView {
    pub vertices: Seq<SpotView>,
    pub indices: Seq<u32>,
}

/// Whether every index is that of a vertex.
pub open spec fn indices_valid(vertices: nat, indices: Seq<u32>) -> bool {
    forall|i: int| 0 <= i < indices.len() ==> (#[trigger] indices[i]) < vertices
}

impl View for Mesh {
    type V = MeshView;

    closed spec fn view(&self) -> MeshView {
        MeshView { vertices: spots(self.vertices@), indices: self.indices@ }
    }
}

impl Mesh {
    #[verifier::type_invariant]
    spec fn wf(self) -> bool {
        indices_valid(self.vertices@.len(), self.indices@)
    }

    /// A mesh, unless an index is not that of a vertex.
    pub fn new(vertices: Vec<Spot>, indices: Vec<u32>) -> (r: Option<Mesh>)
        ensures
            r is Some <==> indices_valid(vertices@.len(), indices@),
            r matches Some(m) ==> m@ == (MeshView {
                vertices: spots(vertices@),
                indices: indices@,
            }),
    {
        let mut i: usize = 0;
        while i < indices.len()
            invariant
                i <= indices@.len(),
                forall|j: int| 0 <= j < i ==> (#[trigger] indices@[j]) < vertices@.len(),
            decreases indices@.len() - i,
        {
            if indices[i] as usize >= vertices.len() {
                assert(!(indices@[i as int] < vertices@.len()));
                return None;
            }
            i += 1;
        }
        Some(Mesh { vertices, indices })
    }
}

/// A path, where its points stand, and the triangles that fill its stroke.
/// There is a spot for each point.
pub struct PlacedPath {
    path: PathSpec,
    spots: Vec<Spot>,
    mesh: Mesh,
}

/// A [`PlacedPath`] with its contents as sequences.
pub struct PlacedPathView {
    pub path: PathSpecView,
    pub spots: Seq<SpotView>,
    pub mesh: MeshView,
}

impl View for PlacedPath {
    type V = PlacedPathView;

    closed spec fn view(&self) -> PlacedPathView {
        PlacedPathView { path: self.path@, spots: spots(self.spots@), mesh: self.mesh@ }
    }
}

impl PlacedPath {
    #[verifier::type_invariant]
    spec fn wf(self) -> bool {
        self.spots@.len() == self.path.points@.len()
    }

    /// A path with its spots and its mesh, unless the spots are not as many as
    /// the points of the path.
    pub fn new(path: PathSpec, spots: Vec<Spot>, mesh: Mesh) -> (r: Option<PlacedPath>)
        ensures
            r is Some <==> spots@.len() == path@.points.len(),
            r matches Some(p) ==> p@ == (PlacedPathView {
                path: path@,
                spots: self::spots(spots@),
                mesh: mesh@,
            }),
    {
        if spots.len() == path.points.len() {
            Some(PlacedPath { path, spots, mesh })
        } else {
            None
        }
    }
}

/// A triangle.
pub open spec fn triangle(a: SpotView, b: SpotView, c: SpotView, color: Seq<char>) -> Seq<char> {
    "<polygon"@ + markup::attribute(
        " points="@,
        markup::pair_text(a.x, a.y) + " "@ + markup::pair_text(b.x, b.y) + " "@ + markup::pair_text(
            c.x,
            c.y,
        ),
    ) + markup::attribute(" fill="@, color) + " />\n"@
}

/// The first `n` triangles of a mesh.
pub open spec fn triangles(m: MeshView, n: int, color: Seq<char>) -> Seq<char>
    decreases n,
{
    if n <= 0 {
        Seq::empty()
    } else {
        triangles(m, n - 1, color) + triangle(
            m.vertices[m.indices[3 * (n - 1)] as int],
            m.vertices[m.indices[3 * (n - 1) + 1] as int],
            m.vertices[m.indices[3 * (n - 1) + 2] as int],
            color,
        )
    }
}

/// The area that a path encloses, in its fill color.
pub open spec fn path_fill(p: PlacedPathView) -> Seq<char> {
    match p.path.fillcolor {
        Some(c) => "<path"@ + markup::attribute(" d="@, line_data(p.spots) + "Z"@)
            + markup::attribute(" fill="@, xml::escaped(c)) + markup::attribute(
            " stroke="@,
            "none"@,
        ) + " />\n"@,
        None => Seq::empty(),
    }
}

/// A path: the area it encloses, if it has a fill color, and then its stroke,
/// as triangles. Indexes that are left over make no triangle.
pub open spec fn path_markup(p: PlacedPathView) -> Seq<char> {
    path_fill(p) + triangles(
        p.mesh,
        p.mesh.indices.len() as int / 3,
        xml::escaped(p.path.color),
    )
}

fn write_pair(p: &Spot) -> (r: String)
    ensures
        r@ == markup::pair_text(p@.x, p@.y),
{
    let mut r = p.x.clone();
    r.append(",");
    r.append(p.y.as_str());
    r
}

fn write_triangle(a: &Spot, b: &Spot, c: &Spot, color: &str) -> (r: String)
    ensures
        r@ == triangle(a@, b@, c@, color@),
{
    let mut points = write_pair(a);
    points.append(" ");
    let e = write_pair(b);
    points.append(e.as_str());
    points.append(" ");
    let e = write_pair(c);
    points.append(e.as_str());
    let mut r = "<polygon".to_owned();
    markup::push_attribute(&mut r, " points=", points.as_str());
    markup::push_attribute(&mut r, " fill=", color);
    r.append(" />\n");
    r
}

/// Writes the triangles of a mesh.
fn write_mesh(m: &Mesh, color: &str) -> (r: String)
    ensures
        r@ == triangles(m@, m@.indices.len() as int / 3, color@),
{
    proof {
        use_type_invariant(&*m);
    }
    let len: usize = m.indices.len();
    let count: usize = len / 3;
    let mut r = String::new();
    let mut n: usize = 0;
    while n < count
        invariant
            n <= count,
            3 * count <= len == m.indices@.len(),
            indices_valid(m.vertices@.len(), m.indices@),
            r@ == triangles(m@, n as int, color@),
        decreases count - n,
    {
        let i: usize = 3 * n;
        assert(m.indices@[i as int] < m.vertices@.len());
        assert(m.indices@[i + 1] < m.vertices@.len());
        assert(m.indices@[i + 2] < m.vertices@.len());
        let a = &m.vertices[m.indices[i] as usize];
        let b = &m.vertices[m.indices[i + 1] as usize];
        let c = &m.vertices[m.indices[i + 2] as usize];
        let e = write_triangle(a, b, c, color);
        r.append(e.as_str());
        n += 1;
    }
    r
}

/// Draws a path.
pub fn render_path(p: &PlacedPath) -> (r: String)
    ensures
        r@ == path_markup(p@),
{
    let color = xml::xml_escape(p.path.color.as_str());
    let mut out = String::new();
    if let Some(fill) = &p.path.fillcolor {
        let fill = xml::xml_escape(fill.as_str());
        let mut d = String::new();
        append_line(&mut d, p.spots.as_slice());
        d.append("Z");
        assert(d@ =~= line_data(spots(p.spots@)) + "Z"@);
        let mut e = "<path".to_owned();
        markup::push_attribute(&mut e, " d=", d.as_str());
        markup::push_attribute(&mut e, " fill=", fill.as_str());
        markup::push_attribute(&mut e, " stroke=", "none");
        e.append(" />\n");
        out = e;
    }
    assert(out@ =~= path_fill(p@));
    let stroke = write_mesh(&p.mesh, color.as_str());
    out.append(stroke.as_str());
    out
}

// ---------------------------------------------------------------------------
// The document
// ---------------------------------------------------------------------------

/// The views of paths.
pub open spec fn placed_paths(paths: Seq<PlacedPath>) -> Seq<PlacedPathView> {
    paths.map_values(|p: PlacedPath| p@)
}

/// The views of marker groups.
pub open spec fn placed_markers(groups: Seq<PlacedMarkers>) -> Seq<PlacedMarkersView> {
    groups.map_values(|m: PlacedMarkers| m@)
}

/// The paths with at least two points, in order.
pub open spec fn paths_markup(paths: Seq<PlacedPathView>) -> Seq<char>
    decreases paths.len(),
{
    if paths.len() == 0 {
        Seq::empty()
    } else if paths.last().path.points.len() >= 2 {
        paths_markup(paths.drop_last()) + path_markup(paths.last())
    } else {
        paths_markup(paths.drop_last())
    }
}

/// The marker groups, in order.
pub open spec fn groups_markup(groups: Seq<PlacedMarkersView>) -> Seq<char>
    decreases groups.len(),
{
    if groups.len() == 0 {
        Seq::empty()
    } else {
        groups_markup(groups.drop_last()) + markers(groups.last().spots, groups.last().group)
    }
}

/// What a map shows, bottom to top: the levels of its layers, the paths, the
/// markers, and the labels of places.
pub open spec fn body(
    layers: Seq<PlacedLayerView>,
    overrides: Map<Seq<char>, StyleOverrideView>,
    groups: Seq<PlacedMarkersView>,
    paths: Seq<PlacedPathView>,
) -> Seq<char> {
    levels_markup(layers, overrides, Z_LEVELS as int) + paths_markup(paths) + groups_markup(groups)
        + labels_markup(first_labels(all_labels(layers)))
}

/// The start of a document of the given size in pixels, whose coordinates go up
/// to `w` and `h`.
pub open spec fn root_start(
    out_width: Seq<char>,
    out_height: Seq<char>,
    w: Seq<char>,
    h: Seq<char>,
) -> Seq<char> {
    "<svg"@ + markup::attribute(" xmlns="@, "http://www.w3.org/2000/svg"@) + markup::attribute(
        " width="@,
        out_width,
    ) + markup::attribute(" height="@, out_height) + markup::attribute(
        " viewBox="@,
        "0 0 "@ + w + " "@ + h,
    )
}

/// The background.
pub open spec fn background(w: Seq<char>, h: Seq<char>) -> Seq<char> {
    "<rect"@ + markup::attribute(" width="@, w) + markup::attribute(" height="@, h)
        + markup::attribute(" fill="@, "#f5f4f4"@) + " />\n"@
}

/// A document of the given size in pixels, whose coordinates go up to `w` and
/// `h`, with a background.
pub open spec fn document(
    out_width: Seq<char>,
    out_height: Seq<char>,
    w: Seq<char>,
    h: Seq<char>,
    body: Seq<char>,
) -> Seq<char> {
    root_start(out_width, out_height, w, h) + ">\n"@ + (background(w, h) + body) + "</svg>"@
}

fn write_paths(paths: &[PlacedPath]) -> (r: String)
    ensures
        r@ == paths_markup(placed_paths(paths@)),
        meshes_valid(placed_paths(paths@)),
{
    let ghost all = placed_paths(paths@);
    let mut r = String::new();
    let mut i: usize = 0;
    assert(all.take(0) =~= Seq::empty());
    while i < paths.len()
        invariant
            i <= paths@.len(),
            all == placed_paths(paths@),
            r@ == paths_markup(all.take(i as int)),
            meshes_valid(all.take(i as int)),
        decreases paths@.len() - i,
    {
        let mesh = &paths[i].mesh;
        proof {
            use_type_invariant(&*mesh);
        }
        assert(all.take(i + 1).drop_last() =~= all.take(i as int));
        assert(all.take(i + 1).last() == paths@[i as int]@);
        if paths[i].path.points.len() >= 2 {
            let e = render_path(&paths[i]);
            r.append(e.as_str());
        }
        i += 1;
    }
    assert(all.take(i as int) =~= all);
    r
}

fn write_groups(groups: &[PlacedMarkers]) -> (r: String)
    ensures
        r@ == groups_markup(placed_markers(groups@)),
{
    let ghost all = placed_markers(groups@);
    let mut r = String::new();
    let mut i: usize = 0;
    assert(all.take(0) =~= Seq::empty());
    while i < groups.len()
        invariant
            i <= groups@.len(),
            all == placed_markers(groups@),
            r@ == groups_markup(all.take(i as int)),
        decreases groups@.len() - i,
    {
        assert(all.take(i + 1).drop_last() =~= all.take(i as int));
        assert(all.take(i + 1).last() == groups@[i as int]@);
        let e = render_marker_group(&groups[i]);
        r.append(e.as_str());
        i += 1;
    }
    assert(all.take(i as int) =~= all);
    r
}

// ---------------------------------------------------------------------------
// Drawable documents
// ---------------------------------------------------------------------------

/// Whether a position is two numbers.
pub open spec fn spot_on_map(p: SpotView) -> bool {
    markup::number_text(p.x) && markup::number_text(p.y)
}

/// Whether all positions are numbers.
pub open spec fn line_on_map(list: Seq<SpotView>) -> bool {
    forall|i: int| 0 <= i < list.len() ==> spot_on_map(#[trigger] list[i])
}

/// Whether all positions of several lines are numbers.
pub open spec fn lines_on_map(lines: Seq<Seq<SpotView>>) -> bool {
    forall|i: int| 0 <= i < lines.len() ==> line_on_map(#[trigger] lines[i])
}

/// Whether all positions of a geometry are numbers.
pub open spec fn shape_on_map(shape: PlacedShapeView) -> bool {
    match shape {
        PlacedShapeView::Points(p) => line_on_map(p),
        PlacedShapeView::Lines(l) => lines_on_map(l),
        PlacedShapeView::Polygons(p) => forall|i: int|
            0 <= i < p.len() ==> lines_on_map(#[trigger] p[i]),
        PlacedShapeView::Other => true,
    }
}

/// Whether all positions of features are numbers.
pub open spec fn features_on_map(features: Seq<PlacedFeatureView>) -> bool {
    forall|i: int| 0 <= i < features.len() ==> shape_on_map((#[trigger] features[i]).shape)
}

/// Whether all positions of layers are numbers.
pub open spec fn layers_on_map(layers: Seq<PlacedLayerView>) -> bool {
    forall|i: int| 0 <= i < layers.len() ==> features_on_map((#[trigger] layers[i]).features)
}

/// Whether all positions of markers are numbers.
pub open spec fn groups_on_map(groups: Seq<PlacedMarkersView>) -> bool {
    forall|i: int| 0 <= i < groups.len() ==> line_on_map((#[trigger] groups[i]).spots)
}

/// Whether all positions of paths are numbers.
pub open spec fn paths_on_map(paths: Seq<PlacedPathView>) -> bool {
    forall|i: int|
        0 <= i < paths.len() ==> line_on_map((#[trigger] paths[i]).spots) && line_on_map(
            paths[i].mesh.vertices,
        )
}

/// Whether every index of every mesh is that of a vertex.
pub open spec fn meshes_valid(paths: Seq<PlacedPathView>) -> bool {
    forall|i: int|
        0 <= i < paths.len() ==> indices_valid(
            (#[trigger] paths[i]).mesh.vertices.len(),
            paths[i].mesh.indices,
        )
}

/// Whether the texts of a width are numbers.
pub open spec fn width_shown(w: params::WidthView) -> bool {
    markup::number_text(w.shown) && markup::number_text(w.outline)
}

/// Whether the texts of the widths of overrides are numbers.
pub open spec fn widths_shown(overrides: Map<Seq<char>, StyleOverrideView>) -> bool {
    forall|k: Seq<char>|
        overrides.contains_key(k) ==> ((#[trigger] overrides[k]).weight matches Some(w)
            ==> width_shown(w))
}

/// Whether the texts that show the widths of a table are numbers, for those
/// widths that a request may have.
pub open spec fn table_shows_widths(n: params::NumberTable) -> bool {
    forall|t: Seq<char>|
        n.singles.contains_key(t) && number::single_up_to(n.singles[t].bits, 1000) ==> width_shown(
            #[trigger] n.singles[t],
        )
}

/// The widths of accepted `style` values can be drawn where the table shows
/// them as numbers.
pub proof fn accepted_widths_are_shown(
    raw: Seq<Seq<char>>,
    n: params::NumberTable,
    map: Map<Seq<char>, StyleOverrideView>,
)
    requires
        table_shows_widths(n),
        params::style_overrides(raw, n) == Ok::<_, Fault>(map),
    ensures
        widths_shown(map),
    decreases raw.len(),
{
    if raw.len() > 0 {
        let front = raw.drop_last();
        if let (Ok(before), Ok((feature, over))) = (
            params::style_overrides(front, n),
            params::style_override(raw.last(), n),
        ) {
            accepted_widths_are_shown(front, n, before);
            accepted_width_is_shown(text::split(raw.last(), '|'), n, feature, over);
        }
    }
}

proof fn accepted_width_is_shown(
    tokens: Seq<Seq<char>>,
    n: params::NumberTable,
    feature: Seq<char>,
    over: StyleOverrideView,
)
    requires
        table_shows_widths(n),
        params::each(tokens, ("all"@, params::no_override()), params::style_step(n)) == Ok::<
            _,
            Fault,
        >((feature, over)),
    ensures
        over.weight matches Some(w) ==> width_shown(w),
    decreases tokens.len(),
{
    if tokens.len() > 0 {
        let start = ("all"@, params::no_override());
        if let Ok((f, o)) = params::each(tokens.drop_last(), start, params::style_step(n)) {
            accepted_width_is_shown(tokens.drop_last(), n, f, o);
            if let Some((key, value)) = text::split_once(tokens.last(), ':') {
                assert(n.singles.contains_key(value) && number::single_up_to(
                    n.singles[value].bits,
                    1000,
                ) ==> width_shown(n.singles[value]));
            }
        }
    }
}

proof fn pointed_number(s: Seq<char>, whole: char, part: char)
    requires
        s == seq![whole, '.', part],
        number::is_digit(whole),
        number::is_digit(part),
    ensures
        markup::number_text(s),
{
    let (a, b) = (seq![whole], seq![part]);
    assert(s =~= a.push('.') + b);
    text::split_once_is(a, '.', b);
}

/// The numbers of fixed texts and widths.
proof fn fixed_numbers()
    ensures
        markup::number_text("0"@) && markup::number_text("1"@) && markup::number_text("2"@),
        markup::number_text("3"@) && markup::number_text("4"@) && markup::number_text("6"@),
        markup::number_text("8"@) && markup::number_text("12"@),
        markup::number_text("0.5"@) && markup::number_text("1.5"@) && markup::number_text("2.5"@),
        markup::number_text("4.4"@) && markup::number_text("6.6"@) && markup::number_text("8.8"@),
{
    reveal_strlit("0");
    reveal_strlit("1");
    reveal_strlit("2");
    reveal_strlit("3");
    reveal_strlit("4");
    reveal_strlit("6");
    reveal_strlit("8");
    reveal_strlit("12");
    markup::digits_are_number("0"@);
    markup::digits_are_number("1"@);
    markup::digits_are_number("2"@);
    markup::digits_are_number("3"@);
    markup::digits_are_number("4"@);
    markup::digits_are_number("6"@);
    markup::digits_are_number("8"@);
    markup::digits_are_number("12"@);
    reveal_strlit("0.5");
    reveal_strlit("1.5");
    reveal_strlit("2.5");
    reveal_strlit("4.4");
    reveal_strlit("6.6");
    reveal_strlit("8.8");
    assert("0.5"@ =~= seq!['0', '.', '5']);
    assert("1.5"@ =~= seq!['1', '.', '5']);
    assert("2.5"@ =~= seq!['2', '.', '5']);
    assert("4.4"@ =~= seq!['4', '.', '4']);
    assert("6.6"@ =~= seq!['6', '.', '6']);
    assert("8.8"@ =~= seq!['8', '.', '8']);
    pointed_number("0.5"@, '0', '5');
    pointed_number("1.5"@, '1', '5');
    pointed_number("2.5"@, '2', '5');
    pointed_number("4.4"@, '4', '4');
    pointed_number("6.6"@, '6', '6');
    pointed_number("8.8"@, '8', '8');
}

proof fn command_is_path_data(d: Seq<char>, first: bool, p: SpotView)
    requires
        markup::path_data(d),
        spot_on_map(p),
    ensures
        markup::path_data(d + command(first, p)),
{
    reveal_strlit("M ");
    reveal_strlit("L ");
    reveal_strlit("M");
    reveal_strlit("L");
    reveal_strlit(" ");
    let name = if first {
        "M"@
    } else {
        "L"@
    };
    markup::number_is_word(p.x);
    markup::number_is_word(p.y);
    markup::more_path_data(d, name);
    let d1 = d + name + " "@;
    markup::more_path_data(d1, p.x);
    let d2 = d1 + p.x + " "@;
    markup::more_path_data(d2, p.y);
    assert(d + command(first, p) =~= d2 + p.y + " "@);
}

proof fn line_is_path_data(d: Seq<char>, line: Seq<SpotView>)
    requires
        markup::path_data(d),
        line_on_map(line),
    ensures
        markup::path_data(d + line_data(line)),
    decreases line.len(),
{
    if line.len() == 0 {
        assert(d + line_data(line) =~= d);
    } else {
        line_is_path_data(d, line.drop_last());
        let front = d + line_data(line.drop_last());
        assert(spot_on_map(line[line.len() - 1]));
        command_is_path_data(front, line.len() == 1, line.last());
        assert(d + line_data(line) =~= front + command(line.len() == 1, line.last()));
    }
}

proof fn close_is_path_data(d: Seq<char>)
    requires
        markup::path_data(d),
    ensures
        markup::path_data(d + "Z "@),
        markup::numeric(d + "Z"@),
        markup::plain(d + "Z"@),
{
    reveal_strlit("Z ");
    reveal_strlit("Z");
    reveal_strlit(" ");
    markup::more_path_data(d, "Z"@);
    assert(d + "Z "@ =~= d + "Z"@ + " "@);
}

proof fn empty_is_path_data()
    ensures
        markup::path_data(Seq::empty()),
{
    let none = Seq::<char>::empty();
    assert(text::split(none, ' ') =~= seq![none]);
    assert(text::split(none, ',') =~= seq![none]);
}

proof fn lines_are_path_data(lines: Seq<Seq<SpotView>>)
    requires
        lines_on_map(lines),
    ensures
        markup::path_data(lines_data(lines)),
    decreases lines.len(),
{
    if lines.len() == 0 {
        empty_is_path_data();
    } else {
        lines_are_path_data(lines.drop_last());
        assert(line_on_map(lines[lines.len() - 1]));
        line_is_path_data(lines_data(lines.drop_last()), lines.last());
    }
}

proof fn rings_are_path_data(d: Seq<char>, rings: Seq<Seq<SpotView>>)
    requires
        markup::path_data(d),
        lines_on_map(rings),
    ensures
        markup::path_data(d + rings_data(rings)),
    decreases rings.len(),
{
    if rings.len() == 0 {
        assert(d + rings_data(rings) =~= d);
    } else {
        rings_are_path_data(d, rings.drop_last());
        let front = d + rings_data(rings.drop_last());
        assert(line_on_map(rings[rings.len() - 1]));
        line_is_path_data(front, rings.last());
        close_is_path_data(front + line_data(rings.last()));
        assert(d + rings_data(rings) =~= front + line_data(rings.last()) + "Z "@);
    }
}

proof fn polygons_are_path_data(polygons: Seq<Seq<Seq<SpotView>>>)
    requires
        forall|i: int| 0 <= i < polygons.len() ==> lines_on_map(#[trigger] polygons[i]),
    ensures
        markup::path_data(polygons_data(polygons)),
    decreases polygons.len(),
{
    if polygons.len() == 0 {
        empty_is_path_data();
    } else {
        polygons_are_path_data(polygons.drop_last());
        assert(lines_on_map(polygons[polygons.len() - 1]));
        rings_are_path_data(polygons_data(polygons.drop_last()), polygons.last());
    }
}

proof fn shape_is_path_data(shape: PlacedShapeView)
    requires
        shape_on_map(shape),
    ensures
        shape_data(shape) matches Some(d) ==> markup::path_data(d),
{
    match shape {
        PlacedShapeView::Lines(lines) => lines_are_path_data(lines),
        PlacedShapeView::Polygons(polygons) => polygons_are_path_data(polygons),
        _ => {},
    }
}

proof fn path_is_fragment(
    d: Seq<char>,
    fill: Seq<char>,
    stroke: Seq<char>,
    width: Seq<char>,
    dash: Option<Seq<char>>,
)
    requires
        markup::numeric(d),
        markup::plain(d),
        markup::plain(fill),
        markup::plain(stroke),
        markup::number_text(width),
        dash matches Some(v) ==> v == "5,3"@ || v == "4,2"@,
    ensures
        markup::fragment(path_element(d, fill, stroke, width, dash)),
{
    markup::labels_are_plain();
    markup::names_are_plain();
    markup::number_is_numeric(width);
    let e = "path"@;
    markup::first_attribute(false, e, "<path"@, " d="@, d);
    let s1 = "<path"@ + markup::attribute(" d="@, d);
    markup::next_attribute(false, e, s1, " fill="@, fill);
    let s2 = s1 + markup::attribute(" fill="@, fill);
    markup::next_attribute(false, e, s2, " stroke="@, stroke);
    let s3 = s2 + markup::attribute(" stroke="@, stroke);
    markup::next_attribute(false, e, s3, " stroke-width="@, width);
    let s4 = s3 + markup::attribute(" stroke-width="@, width);
    match dash {
        Some(v) => {
            reveal_strlit("5,3");
            reveal_strlit("4,2");
            markup::next_attribute(false, e, s4, " stroke-dasharray="@, v);
        },
        None => {
            assert(s4 + dash_attribute(dash) =~= s4);
        },
    }
    markup::end_shape(e, s4 + dash_attribute(dash));
}

/// Whether a style can be drawn: the texts of its width are numbers, and its
/// dashes are one of the two patterns.
pub open spec fn style_shown(s: LayerStyleView) -> bool {
    &&& width_shown(s.stroke_width)
    &&& s.dash matches Some(d) ==> d == "5,3"@ || d == "4,2"@
}

proof fn layer_style_shown(n: Seq<char>, overrides: Map<Seq<char>, StyleOverrideView>)
    requires
        widths_shown(overrides),
    ensures
        style_shown(style::layer_style(n, overrides)),
{
    fixed_numbers();
    let b = style::bucket_of(n);
    assert(style_shown(style::default_style(b)));
    if overrides.contains_key("all"@) {
        assert(overrides["all"@].weight matches Some(w) ==> width_shown(w));
    }
    if overrides.contains_key(b.key()) {
        assert(overrides[b.key()].weight matches Some(w) ==> width_shown(w));
    }
}

proof fn feature_is_fragment(f: PlacedFeatureView, s: LayerStyleView, level: int)
    requires
        shape_on_map(f.shape),
        style_shown(s),
    ensures
        markup::fragment(feature_at(f, s, level)),
{
    markup::empty_fragment();
    fixed_numbers();
    shape_is_path_data(f.shape);
    reveal_strlit("none");
    if let Some(d) = shape_data(f.shape) {
        if let Some(c) = s.stroke {
            markup::escaped_is_plain(c);
            path_is_fragment(d, "none"@, xml::escaped(c), s.stroke_width.shown, s.dash);
        }
        if let Some(c) = s.fill {
            markup::escaped_is_plain(c);
            let e = xml::escaped(c);
            path_is_fragment(d, e, e, seal_width(s.stroke_width), None);
            let line = match s.stroke {
                Some(c) => path_element(
                    d,
                    "none"@,
                    xml::escaped(c),
                    s.stroke_width.shown,
                    s.dash,
                ),
                None => Seq::empty(),
            };
            markup::fragment_concat(
                path_element(d, e, e, seal_width(s.stroke_width), None),
                line,
            );
        }
        if let Some(c) = s.casing {
            markup::escaped_is_plain(c);
            path_is_fragment(d, "none"@, xml::escaped(c), s.stroke_width.outline, None);
        }
    }
}

proof fn features_are_fragment(features: Seq<PlacedFeatureView>, s: LayerStyleView, level: int)
    requires
        features_on_map(features),
        style_shown(s),
    ensures
        markup::fragment(features_at(features, s, level)),
    decreases features.len(),
{
    if features.len() == 0 {
        markup::empty_fragment();
    } else {
        features_are_fragment(features.drop_last(), s, level);
        assert(shape_on_map(features[features.len() - 1].shape));
        feature_is_fragment(features.last(), s, level);
        markup::fragment_concat(
            features_at(features.drop_last(), s, level),
            feature_at(features.last(), s, level),
        );
    }
}

proof fn level_is_fragment(
    layers: Seq<PlacedLayerView>,
    overrides: Map<Seq<char>, StyleOverrideView>,
    level: int,
)
    requires
        layers_on_map(layers),
        widths_shown(overrides),
    ensures
        markup::fragment(level_markup(layers, overrides, level)),
    decreases layers.len(),
{
    if layers.len() == 0 {
        markup::empty_fragment();
    } else {
        level_is_fragment(layers.drop_last(), overrides, level);
        let layer = layers.last();
        assert(features_on_map(layers[layers.len() - 1].features));
        markup::empty_fragment();
        layer_style_shown(layer.lower_name, overrides);
        features_are_fragment(
            layer.features,
            style::layer_style(layer.lower_name, overrides),
            level,
        );
        markup::fragment_concat(
            level_markup(layers.drop_last(), overrides, level),
            layer_at(layer, overrides, level),
        );
    }
}

proof fn levels_are_fragment(
    layers: Seq<PlacedLayerView>,
    overrides: Map<Seq<char>, StyleOverrideView>,
    end: int,
)
    requires
        layers_on_map(layers),
        widths_shown(overrides),
    ensures
        markup::fragment(levels_markup(layers, overrides, end)),
    decreases end,
{
    if end <= 0 {
        markup::empty_fragment();
    } else {
        levels_are_fragment(layers, overrides, end - 1);
        level_is_fragment(layers, overrides, end - 1);
        markup::fragment_concat(
            levels_markup(layers, overrides, end - 1),
            level_markup(layers, overrides, end - 1),
        );
    }
}

proof fn label_is_fragment(p: SpotView, name: Seq<char>)
    requires
        spot_on_map(p),
    ensures
        markup::fragment(label_markup(p, name)),
{
    markup::labels_are_plain();
    markup::names_are_plain();
    markup::number_is_numeric(p.x);
    markup::number_is_numeric(p.y);
    fixed_numbers();
    markup::number_is_numeric("12"@);
    markup::number_is_numeric("3"@);
    reveal_strlit("sans-serif");
    reveal_strlit("600");
    reveal_strlit("middle");
    reveal_strlit("none");
    reveal_strlit("stroke");
    reveal_strlit("#ffffff");
    reveal_strlit("#333333");
    let e = "text"@;
    markup::first_attribute(false, e, "<text"@, " x="@, p.x);
    let s1 = "<text"@ + markup::attribute(" x="@, p.x);
    markup::next_attribute(false, e, s1, " y="@, p.y);
    let s2 = s1 + markup::attribute(" y="@, p.y);
    markup::next_attribute(false, e, s2, " font-size="@, "12"@);
    let s3 = s2 + markup::attribute(" font-size="@, "12"@);
    markup::next_attribute(false, e, s3, " font-family="@, "sans-serif"@);
    let s4 = s3 + markup::attribute(" font-family="@, "sans-serif"@);
    markup::next_attribute(false, e, s4, " font-weight="@, "600"@);
    let s5 = s4 + markup::attribute(" font-weight="@, "600"@);
    markup::next_attribute(false, e, s5, " text-anchor="@, "middle"@);
    let start = label_start(p);
    markup::next_attribute(false, e, start, " fill="@, "#333333"@);
    markup::next_attribute(false, e, start, " fill="@, "none"@);
    let h1 = start + markup::attribute(" fill="@, "none"@);
    markup::next_attribute(false, e, h1, " stroke="@, "#ffffff"@);
    let h2 = h1 + markup::attribute(" stroke="@, "#ffffff"@);
    markup::next_attribute(false, e, h2, " stroke-width="@, "3"@);
    let h3 = h2 + markup::attribute(" stroke-width="@, "3"@);
    markup::next_attribute(false, e, h3, " paint-order="@, "stroke"@);
    markup::escaped_is_plain(name);
    markup::end_text(halo_start(p), xml::escaped(name));
    markup::end_text(name_start(p), xml::escaped(name));
    markup::fragment_concat(
        markup::text_element(halo_start(p), xml::escaped(name)),
        markup::text_element(name_start(p), xml::escaped(name)),
    );
}

/// Whether the markup of every label is a fragment.
spec fn labels_written(labels: Seq<(Seq<char>, Seq<char>)>) -> bool {
    forall|i: int| 0 <= i < labels.len() ==> markup::fragment((#[trigger] labels[i]).1)
}

proof fn labels_of_written(features: Seq<PlacedFeatureView>)
    requires
        features_on_map(features),
    ensures
        labels_written(labels_of(features)),
    decreases features.len(),
{
    if features.len() > 0 {
        labels_of_written(features.drop_last());
        let f = features.last();
        assert(shape_on_map(features[features.len() - 1].shape));
        if let (Some(name), Some(p)) = (feature_name(f), label_spot(f.shape)) {
            label_is_fragment(p, name);
        }
    }
}

proof fn all_labels_written(layers: Seq<PlacedLayerView>)
    requires
        layers_on_map(layers),
    ensures
        labels_written(all_labels(layers)),
    decreases layers.len(),
{
    if layers.len() > 0 {
        all_labels_written(layers.drop_last());
        assert(features_on_map(layers[layers.len() - 1].features));
        labels_of_written(layers.last().features);
    }
}

proof fn first_labels_written(labels: Seq<(Seq<char>, Seq<char>)>)
    requires
        labels_written(labels),
    ensures
        labels_written(first_labels(labels)),
    decreases labels.len(),
{
    if labels.len() > 0 {
        assert(markup::fragment(labels[labels.len() - 1].1));
        first_labels_written(labels.drop_last());
    }
}

proof fn labels_are_fragment(labels: Seq<(Seq<char>, Seq<char>)>)
    requires
        labels_written(labels),
    ensures
        markup::fragment(labels_markup(labels)),
    decreases labels.len(),
{
    if labels.len() == 0 {
        markup::empty_fragment();
    } else {
        labels_are_fragment(labels.drop_last());
        assert(markup::fragment(labels[labels.len() - 1].1));
        markup::fragment_concat(labels_markup(labels.drop_last()), labels.last().1);
    }
}

proof fn circle_is_fragment(p: SpotView, radius: Seq<char>, color: Seq<char>)
    requires
        spot_on_map(p),
        markup::number_text(radius),
        markup::plain(color),
    ensures
        markup::fragment(circle(p, radius, color)),
{
    markup::labels_are_plain();
    markup::names_are_plain();
    fixed_numbers();
    markup::number_is_numeric(p.x);
    markup::number_is_numeric(p.y);
    markup::number_is_numeric(radius);
    markup::number_is_numeric("2"@);
    reveal_strlit("#ffffff");
    let e = "circle"@;
    markup::first_attribute(false, e, "<circle"@, " cx="@, p.x);
    let s1 = "<circle"@ + markup::attribute(" cx="@, p.x);
    markup::next_attribute(false, e, s1, " cy="@, p.y);
    let s2 = s1 + markup::attribute(" cy="@, p.y);
    markup::next_attribute(false, e, s2, " r="@, radius);
    let s3 = s2 + markup::attribute(" r="@, radius);
    markup::next_attribute(false, e, s3, " fill="@, color);
    let s4 = s3 + markup::attribute(" fill="@, color);
    markup::next_attribute(false, e, s4, " stroke="@, "#ffffff"@);
    let s5 = s4 + markup::attribute(" stroke="@, "#ffffff"@);
    markup::next_attribute(false, e, s5, " stroke-width="@, "2"@);
    markup::end_shape(e, s5 + markup::attribute(" stroke-width="@, "2"@));
}

proof fn marker_label_is_fragment(p: SpotView, font_size: Seq<char>, label: Seq<char>)
    requires
        spot_on_map(p),
        markup::number_text(font_size),
        markup::plain(label),
    ensures
        markup::fragment(marker_label(p, font_size, label)),
{
    markup::labels_are_plain();
    markup::names_are_plain();
    markup::number_is_numeric(p.x);
    markup::number_is_numeric(p.y);
    markup::number_is_numeric(font_size);
    reveal_strlit("sans-serif");
    reveal_strlit("700");
    reveal_strlit("middle");
    reveal_strlit("central");
    reveal_strlit("#ffffff");
    let e = "text"@;
    markup::first_attribute(false, e, "<text"@, " x="@, p.x);
    let s1 = "<text"@ + markup::attribute(" x="@, p.x);
    markup::next_attribute(false, e, s1, " y="@, p.y);
    let s2 = s1 + markup::attribute(" y="@, p.y);
    markup::next_attribute(false, e, s2, " font-size="@, font_size);
    let s3 = s2 + markup::attribute(" font-size="@, font_size);
    markup::next_attribute(false, e, s3, " font-family="@, "sans-serif"@);
    let s4 = s3 + markup::attribute(" font-family="@, "sans-serif"@);
    markup::next_attribute(false, e, s4, " font-weight="@, "700"@);
    let s5 = s4 + markup::attribute(" font-weight="@, "700"@);
    markup::next_attribute(false, e, s5, " text-anchor="@, "middle"@);
    let s6 = s5 + markup::attribute(" text-anchor="@, "middle"@);
    markup::next_attribute(false, e, s6, " dominant-baseline="@, "central"@);
    let s7 = s6 + markup::attribute(" dominant-baseline="@, "central"@);
    markup::next_attribute(false, e, s7, " fill="@, "#ffffff"@);
    markup::end_text(marker_label_start(p, font_size), label);
}

proof fn markers_are_fragment(list: Seq<SpotView>, g: MarkerGroupView)
    requires
        line_on_map(list),
    ensures
        markup::fragment(markers(list, g)),
    decreases list.len(),
{
    if list.len() == 0 {
        markup::empty_fragment();
    } else {
        markers_are_fragment(list.drop_last(), g);
        let p = list.last();
        assert(spot_on_map(list[list.len() - 1]));
        fixed_numbers();
        markup::escaped_is_plain(g.color);
        let c = circle(p, radius_text(g.size), xml::escaped(g.color));
        circle_is_fragment(p, radius_text(g.size), xml::escaped(g.color));
        if let Some(l) = g.label {
            let e = xml::escaped(seq![l]);
            markup::escaped_is_plain(seq![l]);
            marker_label_is_fragment(p, font_size_text(g.size), e);
            markup::fragment_concat(c, marker_label(p, font_size_text(g.size), e));
        }
        markup::fragment_concat(markers(list.drop_last(), g), marker(p, g));
    }
}

proof fn groups_are_fragment(groups: Seq<PlacedMarkersView>)
    requires
        groups_on_map(groups),
    ensures
        markup::fragment(groups_markup(groups)),
    decreases groups.len(),
{
    if groups.len() == 0 {
        markup::empty_fragment();
    } else {
        groups_are_fragment(groups.drop_last());
        let m = groups.last();
        assert(line_on_map(groups[groups.len() - 1].spots));
        markers_are_fragment(m.spots, m.group);
        markup::fragment_concat(groups_markup(groups.drop_last()), markers(m.spots, m.group));
    }
}

proof fn triangle_is_fragment(a: SpotView, b: SpotView, c: SpotView, color: Seq<char>)
    requires
        spot_on_map(a),
        spot_on_map(b),
        spot_on_map(c),
        markup::plain(color),
    ensures
        markup::fragment(triangle(a, b, c, color)),
{
    markup::labels_are_plain();
    markup::names_are_plain();
    let p1 = markup::pair_text(a.x, a.y);
    markup::pair_is_numeric(a.x, a.y);
    markup::another_pair(p1, b.x, b.y);
    let p2 = p1 + " "@ + markup::pair_text(b.x, b.y);
    markup::another_pair(p2, c.x, c.y);
    let p3 = p2 + " "@ + markup::pair_text(c.x, c.y);
    let e = "polygon"@;
    markup::first_attribute(false, e, "<polygon"@, " points="@, p3);
    let s1 = "<polygon"@ + markup::attribute(" points="@, p3);
    markup::next_attribute(false, e, s1, " fill="@, color);
    markup::end_shape(e, s1 + markup::attribute(" fill="@, color));
}

proof fn triangles_are_fragment(m: MeshView, n: int, color: Seq<char>)
    requires
        line_on_map(m.vertices),
        indices_valid(m.vertices.len(), m.indices),
        3 * n <= m.indices.len(),
        markup::plain(color),
    ensures
        markup::fragment(triangles(m, n, color)),
    decreases n,
{
    if n <= 0 {
        markup::empty_fragment();
    } else {
        triangles_are_fragment(m, n - 1, color);
        let i = 3 * (n - 1);
        assert(m.indices[i] < m.vertices.len());
        assert(m.indices[i + 1] < m.vertices.len());
        assert(m.indices[i + 2] < m.vertices.len());
        let a = m.vertices[m.indices[i] as int];
        let b = m.vertices[m.indices[i + 1] as int];
        let c = m.vertices[m.indices[i + 2] as int];
        triangle_is_fragment(a, b, c, color);
        markup::fragment_concat(triangles(m, n - 1, color), triangle(a, b, c, color));
    }
}

proof fn path_markup_is_fragment(p: PlacedPathView)
    requires
        line_on_map(p.spots),
        line_on_map(p.mesh.vertices),
        indices_valid(p.mesh.vertices.len(), p.mesh.indices),
    ensures
        markup::fragment(path_markup(p)),
{
    markup::labels_are_plain();
    markup::names_are_plain();
    markup::empty_fragment();
    markup::escaped_is_plain(p.path.color);
    let n = p.mesh.indices.len() as int / 3;
    triangles_are_fragment(p.mesh, n, xml::escaped(p.path.color));
    if let Some(c) = p.path.fillcolor {
        reveal_strlit("none");
        markup::escaped_is_plain(c);
        empty_is_path_data();
        line_is_path_data(Seq::empty(), p.spots);
        assert(Seq::<char>::empty() + line_data(p.spots) =~= line_data(p.spots));
        close_is_path_data(line_data(p.spots));
        let d = line_data(p.spots) + "Z"@;
        let e = "path"@;
        markup::first_attribute(false, e, "<path"@, " d="@, d);
        let s1 = "<path"@ + markup::attribute(" d="@, d);
        markup::next_attribute(false, e, s1, " fill="@, xml::escaped(c));
        let s2 = s1 + markup::attribute(" fill="@, xml::escaped(c));
        markup::next_attribute(false, e, s2, " stroke="@, "none"@);
        markup::end_shape(e, s2 + markup::attribute(" stroke="@, "none"@));
    }
    markup::fragment_concat(path_fill(p), triangles(p.mesh, n, xml::escaped(p.path.color)));
}

proof fn paths_are_fragment(paths: Seq<PlacedPathView>)
    requires
        paths_on_map(paths),
        meshes_valid(paths),
    ensures
        markup::fragment(paths_markup(paths)),
    decreases paths.len(),
{
    if paths.len() == 0 {
        markup::empty_fragment();
    } else {
        paths_are_fragment(paths.drop_last());
        let p = paths.last();
        assert(p == paths[paths.len() - 1]);
        path_markup_is_fragment(p);
        markup::fragment_concat(paths_markup(paths.drop_last()), path_markup(p));
    }
}

proof fn root_is_begun(ow: Seq<char>, oh: Seq<char>, w: Seq<char>, h: Seq<char>)
    requires
        markup::size_text(ow) && markup::plain(ow),
        markup::size_text(oh) && markup::plain(oh),
        markup::size_text(w),
        markup::size_text(h),
    ensures
        markup::begun(true, "svg"@, root_start(ow, oh, w, h)),
{
    markup::labels_are_plain();
    markup::names_are_plain();
    reveal_strlit("http://www.w3.org/2000/svg");
    let ns = "http://www.w3.org/2000/svg"@;
    let e = "svg"@;
    markup::first_attribute(true, e, "<svg"@, " xmlns="@, ns);
    let s1 = "<svg"@ + markup::attribute(" xmlns="@, ns);
    markup::next_attribute(true, e, s1, " width="@, ow);
    let s2 = s1 + markup::attribute(" width="@, ow);
    markup::next_attribute(true, e, s2, " height="@, oh);
    let s3 = s2 + markup::attribute(" height="@, oh);
    markup::sizes_make_box(w, h);
    markup::next_attribute(true, e, s3, " viewBox="@, "0 0 "@ + w + " "@ + h);
}

proof fn background_is_fragment(w: Seq<char>, h: Seq<char>)
    requires
        markup::numeric(w) && markup::plain(w),
        markup::numeric(h) && markup::plain(h),
    ensures
        markup::fragment(background(w, h)),
{
    markup::labels_are_plain();
    markup::names_are_plain();
    reveal_strlit("#f5f4f4");
    let e = "rect"@;
    markup::first_attribute(false, e, "<rect"@, " width="@, w);
    let s1 = "<rect"@ + markup::attribute(" width="@, w);
    markup::next_attribute(false, e, s1, " height="@, h);
    let s2 = s1 + markup::attribute(" height="@, h);
    markup::next_attribute(false, e, s2, " fill="@, "#f5f4f4"@);
    markup::end_shape(e, s2 + markup::attribute(" fill="@, "#f5f4f4"@));
}

/// Where the positions and widths are numbers, the document of a map is one
/// that can be drawn, whatever its colors, names and labels are.
pub proof fn map_is_drawable(
    out_width: nat,
    out_height: nat,
    w: nat,
    h: nat,
    layers: Seq<PlacedLayerView>,
    overrides: Map<Seq<char>, StyleOverrideView>,
    groups: Seq<PlacedMarkersView>,
    paths: Seq<PlacedPathView>,
)
    requires
        1 <= out_width < 100000 && 1 <= out_height < 100000,
        1 <= w < 100000 && 1 <= h < 100000,
        layers_on_map(layers),
        widths_shown(overrides),
        groups_on_map(groups),
        paths_on_map(paths),
        meshes_valid(paths),
    ensures
        markup::drawable(
            document(
                number::decimal(out_width),
                number::decimal(out_height),
                number::decimal(w),
                number::decimal(h),
                body(layers, overrides, groups, paths),
            ),
        ),
{
    levels_are_fragment(layers, overrides, Z_LEVELS as int);
    paths_are_fragment(paths);
    groups_are_fragment(groups);
    all_labels_written(layers);
    first_labels_written(all_labels(layers));
    labels_are_fragment(first_labels(all_labels(layers)));
    let b1 = levels_markup(layers, overrides, Z_LEVELS as int);
    markup::fragment_concat(b1, paths_markup(paths));
    let b2 = b1 + paths_markup(paths);
    markup::fragment_concat(b2, groups_markup(groups));
    let b3 = b2 + groups_markup(groups);
    markup::fragment_concat(b3, labels_markup(first_labels(all_labels(layers))));
    let b = body(layers, overrides, groups, paths);
    markup::decimal_is_size(out_width);
    markup::decimal_is_size(out_height);
    markup::decimal_is_size(w);
    markup::decimal_is_size(h);
    let (ow, oh) = (number::decimal(out_width), number::decimal(out_height));
    let (w, h) = (number::decimal(w), number::decimal(h));
    root_is_begun(ow, oh, w, h);
    background_is_fragment(w, h);
    markup::fragment_concat(background(w, h), b);
    markup::end_root(root_start(ow, oh, w, h), background(w, h) + b);
}

/// Writes the SVG document of a map. `layers` are the layers of all tiles,
/// tile by tile. Where the positions and the widths are numbers, and the sizes
/// below a hundred thousand, it can be drawn.
pub fn render_svg(
    viewport: &Viewport,
    layers: &[PlacedLayer],
    overrides: &StringHashMap<StyleOverride>,
    marker_groups: &[PlacedMarkers],
    paths: &[PlacedPath],
    out_width: u32,
    out_height: u32,
) -> (r: String)
    ensures
        r@ == document(
            number::decimal(out_width as nat),
            number::decimal(out_height as nat),
            number::decimal(viewport.width as nat),
            number::decimal(viewport.height as nat),
            body(
                layer_views(layers@),
                params::override_views(overrides@),
                placed_markers(marker_groups@),
                placed_paths(paths@),
            ),
        ),
        ({
            &&& 1 <= out_width < 100000 && 1 <= out_height < 100000
            &&& 1 <= viewport.width < 100000 && 1 <= viewport.height < 100000
            &&& layers_on_map(layer_views(layers@))
            &&& widths_shown(params::override_views(overrides@))
            &&& groups_on_map(placed_markers(marker_groups@))
            &&& paths_on_map(placed_paths(paths@))
        }) ==> markup::drawable(r@),
{
    let mut content = write_levels(layers, overrides);
    let e = write_paths(paths);
    content.append(e.as_str());
    let e = write_groups(marker_groups);
    content.append(e.as_str());
    let e = write_labels(layers);
    content.append(e.as_str());

    let ow = number::to_decimal(out_width as u64);
    let oh = number::to_decimal(out_height as u64);
    let w = number::to_decimal(viewport.width as u64);
    let h = number::to_decimal(viewport.height as u64);
    let mut view_box = "0 0 ".to_owned();
    view_box.append(w.as_str());
    view_box.append(" ");
    view_box.append(h.as_str());
    let mut inner = "<rect".to_owned();
    markup::push_attribute(&mut inner, " width=", w.as_str());
    markup::push_attribute(&mut inner, " height=", h.as_str());
    markup::push_attribute(&mut inner, " fill=", style::palette().background);
    inner.append(" />\n");
    inner.append(content.as_str());
    let mut r = "<svg".to_owned();
    markup::push_attribute(&mut r, " xmlns=", "http://www.w3.org/2000/svg");
    markup::push_attribute(&mut r, " width=", ow.as_str());
    markup::push_attribute(&mut r, " height=", oh.as_str());
    markup::push_attribute(&mut r, " viewBox=", view_box.as_str());
    r.append(">\n");
    r.append(inner.as_str());
    r.append("</svg>");
    proof {
        let (ow, oh) = (out_width as nat, out_height as nat);
        let (w, h) = (viewport.width as nat, viewport.height as nat);
        let (l, o) = (layer_views(layers@), params::override_views(overrides@));
        let (g, p) = (placed_markers(marker_groups@), placed_paths(paths@));
        if 1 <= ow < 100000 && 1 <= oh < 100000 && 1 <= w < 100000 && 1 <= h < 100000
            && layers_on_map(l) && widths_shown(o) && groups_on_map(g) && paths_on_map(p) {
            map_is_drawable(ow, oh, w, h, l, o, g, p);
        }
    }
    r
}

} // verus!
