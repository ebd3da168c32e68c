//! What holds of every document that [`crate::render`] writes: what is drawn,
//! where, and in which order.

use crate::markup;
use crate::params::{MarkerGroupView, MarkerSize, StyleOverrideView};
use crate::number;
use crate::render;
use crate::render::{
    MeshView, PlacedFeature, PlacedFeatureView, PlacedLayer, PlacedLayerView, PlacedMarkersView,
    PlacedPathView, PlacedShapeView, Spot, SpotView,
};
use crate::style;
use crate::style::LayerStyleView;
use crate::text;
use crate::tiles;
use crate::tiles::PropertyView;
use crate::xml;
use vstd::prelude::*;

verus! {

// ---------------------------------------------------------------------------
// Path data
// ---------------------------------------------------------------------------

/// A line starts with a move to its first position and goes on with a line to
/// each of the others, each position with its `x` before its `y`.
pub proof fn line_moves_once(line: Seq<SpotView>, p: SpotView)
    ensures
        render::line_data(Seq::empty()) == Seq::<char>::empty(),
        render::line_data(seq![p]) == "M "@ + p.x + " "@ + p.y + " "@,
        line.len() > 0 ==> render::line_data(line.push(p)) == render::line_data(line) + ("L "@ + p.x
            + " "@ + p.y + " "@),
{
    let one = seq![p];
    assert(one.drop_last() =~= Seq::empty());
    assert(render::line_data(one.drop_last()) =~= Seq::empty());
    assert(render::line_data(one) =~= "M "@ + p.x + " "@ + p.y + " "@);
    assert(line.push(p).drop_last() =~= line);
}

/// A line to `q` from the end of another: every position but the first of the
/// whole has an `L`, wherever the line is cut in two.
pub proof fn line_goes_on(a: Seq<SpotView>, b: Seq<SpotView>, k: int)
    requires
        a.len() > 0,
        0 <= k < b.len(),
    ensures
        render::line_data(a + b.take(k + 1)) == render::line_data(a + b.take(k)) + ("L "@ + b[k].x
            + " "@ + b[k].y + " "@),
{
    assert((a + b.take(k)).push(b[k]) =~= a + b.take(k + 1));
    line_moves_once(a + b.take(k), b[k]);
}

proof fn line_is_not_empty(line: Seq<SpotView>)
    ensures
        render::line_data(line).len() == 0 <==> line.len() == 0,
{
    reveal_strlit("M ");
    reveal_strlit("L ");
}

/// Lines are drawn each from its own start, in order, and polygons ring by
/// ring, each ring closed.
pub proof fn lines_and_rings_follow(
    lines: Seq<Seq<SpotView>>,
    line: Seq<SpotView>,
    polygons: Seq<Seq<Seq<SpotView>>>,
    polygon: Seq<Seq<SpotView>>,
)
    ensures
        render::lines_data(Seq::empty()) == Seq::<char>::empty(),
        render::lines_data(lines.push(line)) == render::lines_data(lines) + render::line_data(line),
        render::rings_data(Seq::empty()) == Seq::<char>::empty(),
        render::rings_data(lines.push(line)) == render::rings_data(lines) + (render::line_data(line)
            + "Z "@),
        render::polygons_data(Seq::empty()) == Seq::<char>::empty(),
        render::polygons_data(polygons.push(polygon)) == render::polygons_data(polygons)
            + render::rings_data(polygon),
{
    assert(lines.push(line).drop_last() =~= lines);
    assert(polygons.push(polygon).drop_last() =~= polygons);
}

/// Lines have path data unless none of them has a position, polygons unless
/// none of them has a ring; points have none.
pub proof fn shapes_with_data(
    lines: Seq<Seq<SpotView>>,
    polygons: Seq<Seq<Seq<SpotView>>>,
    points: Seq<SpotView>,
)
    ensures
        render::shape_data(PlacedShapeView::Points(points)) is None,
        render::shape_data(PlacedShapeView::Other) is None,
        render::shape_data(PlacedShapeView::Lines(lines)) is None <==> forall|i: int|
            0 <= i < lines.len() ==> (#[trigger] lines[i]).len() == 0,
        render::shape_data(PlacedShapeView::Polygons(polygons)) is None <==> forall|i: int|
            0 <= i < polygons.len() ==> (#[trigger] polygons[i]).len() == 0,
        render::shape_data(PlacedShapeView::Lines(lines)) matches Some(d) ==> d
            == render::lines_data(lines),
        render::shape_data(PlacedShapeView::Polygons(polygons)) matches Some(d) ==> d
            == render::polygons_data(polygons),
{
    lines_without_positions(lines);
    polygons_without_rings(polygons);
}

proof fn lines_without_positions(lines: Seq<Seq<SpotView>>)
    ensures
        render::lines_data(lines).len() == 0 <==> forall|i: int|
            0 <= i < lines.len() ==> (#[trigger] lines[i]).len() == 0,
    decreases lines.len(),
{
    if lines.len() > 0 {
        let front = lines.drop_last();
        lines_without_positions(front);
        line_is_not_empty(lines.last());
        assert(lines[lines.len() - 1] == lines.last());
        assert(forall|i: int| 0 <= i < front.len() ==> #[trigger] lines[i] == front[i]);
        if forall|i: int| 0 <= i < lines.len() ==> (#[trigger] lines[i]).len() == 0 {
            assert forall|i: int| 0 <= i < front.len() implies (#[trigger] front[i]).len() == 0 by {
                assert(lines[i] == front[i]);
            }
        }
    }
}

proof fn rings_are_not_empty(rings: Seq<Seq<SpotView>>)
    ensures
        render::rings_data(rings).len() == 0 <==> rings.len() == 0,
{
    reveal_strlit("Z ");
}

proof fn polygons_without_rings(polygons: Seq<Seq<Seq<SpotView>>>)
    ensures
        render::polygons_data(polygons).len() == 0 <==> forall|i: int|
            0 <= i < polygons.len() ==> (#[trigger] polygons[i]).len() == 0,
    decreases polygons.len(),
{
    if polygons.len() > 0 {
        let front = polygons.drop_last();
        polygons_without_rings(front);
        rings_are_not_empty(polygons.last());
        assert(polygons[polygons.len() - 1] == polygons.last());
        assert(forall|i: int| 0 <= i < front.len() ==> #[trigger] polygons[i] == front[i]);
        if forall|i: int| 0 <= i < polygons.len() ==> (#[trigger] polygons[i]).len() == 0 {
            assert forall|i: int| 0 <= i < front.len() implies (#[trigger] front[i]).len() == 0 by {
                assert(polygons[i] == front[i]);
            }
        }
    }
}

/// The views of positions keep every position, its coordinates and its place.
pub proof fn positions_are_kept(list: Seq<Spot>, lines: Seq<Vec<Spot>>, polygons: Seq<Vec<Vec<Spot>>>)
    ensures
        render::spots(list).len() == list.len(),
        forall|i: int|
            0 <= i < list.len() ==> (#[trigger] render::spots(list)[i]).x == list[i].x@
                && render::spots(list)[i].y == list[i].y@,
        render::spot_lines(lines).len() == lines.len(),
        forall|i: int|
            0 <= i < lines.len() ==> #[trigger] render::spot_lines(lines)[i] == render::spots(
                lines[i]@,
            ),
        render::spot_polygons(polygons).len() == polygons.len(),
        forall|i: int|
            0 <= i < polygons.len() ==> #[trigger] render::spot_polygons(polygons)[i]
                == render::spot_lines(polygons[i]@),
{
}

/// The views of features and layers keep every feature with its shape and its
/// names, and every layer with its name.
pub proof fn features_are_kept(features: Seq<PlacedFeature>, layers: Seq<PlacedLayer>)
    ensures
        render::feature_views(features).len() == features.len(),
        forall|i: int|
            0 <= i < features.len() ==> {
                let f = #[trigger] render::feature_views(features)[i];
                &&& f.shape == features[i].shape@
                &&& f.name == tiles::opt_property(features[i].name)
                &&& f.name_en == tiles::opt_property(features[i].name_en)
            },
        render::layer_views(layers).len() == layers.len(),
        forall|i: int|
            0 <= i < layers.len() ==> {
                let l = #[trigger] render::layer_views(layers)[i];
                &&& l.lower_name == layers[i].lower_name@
                &&& l.features == render::feature_views(layers[i].features@)
            },
{
}

// ---------------------------------------------------------------------------
// Paths
// ---------------------------------------------------------------------------

proof fn paths_split(a: Seq<PlacedPathView>, b: Seq<PlacedPathView>)
    ensures
        render::paths_markup(a + b) == render::paths_markup(a) + render::paths_markup(b),
    decreases b.len(),
{
    if b.len() == 0 {
        assert(a + b =~= a);
        assert(render::paths_markup(b) =~= Seq::empty());
        assert(render::paths_markup(a) + render::paths_markup(b) =~= render::paths_markup(a));
    } else {
        assert((a + b).drop_last() =~= a + b.drop_last());
        assert((a + b).last() == b.last());
        paths_split(a, b.drop_last());
        assert(render::paths_markup(a + b) =~= render::paths_markup(a) + render::paths_markup(b));
    }
}

/// Every path with two points or more is drawn, whole and in its place among
/// the others; a path with fewer is not drawn and takes nothing from the rest.
pub proof fn every_path_is_drawn(
    before: Seq<PlacedPathView>,
    path: PlacedPathView,
    after: Seq<PlacedPathView>,
)
    ensures
        path.path.points.len() >= 2 ==> render::paths_markup(before.push(path) + after)
            == render::paths_markup(before) + render::path_markup(path) + render::paths_markup(after),
        path.path.points.len() < 2 ==> render::paths_markup(before.push(path) + after)
            == render::paths_markup(before) + render::paths_markup(after),
        render::paths_markup(Seq::empty()) == Seq::<char>::empty(),
{
    paths_split(before.push(path), after);
    assert(before.push(path).drop_last() =~= before);
}

/// Every path with two points or more stands in the body of the map, by its
/// index among the paths.
pub proof fn body_holds_every_path(
    layers: Seq<PlacedLayerView>,
    overrides: Map<Seq<char>, StyleOverrideView>,
    groups: Seq<PlacedMarkersView>,
    paths: Seq<PlacedPathView>,
    i: int,
)
    requires
        0 <= i < paths.len(),
        paths[i].path.points.len() >= 2,
    ensures
        exists|a: Seq<char>, b: Seq<char>| #[trigger]
            render::body(layers, overrides, groups, paths) == #[trigger] (a + render::path_markup(
                paths[i],
            ) + b),
{
    let (before, path, after) = (paths.take(i), paths[i], paths.skip(i + 1));
    assert(before.push(path) + after =~= paths);
    every_path_is_drawn(before, path, after);
    let levels = render::levels_markup(layers, overrides, style::Z_LEVELS as int);
    let a = levels + render::paths_markup(before);
    let b = render::paths_markup(after) + render::groups_markup(groups) + render::labels_markup(
        render::first_labels(render::all_labels(layers)),
    );
    assert(render::body(layers, overrides, groups, paths) =~= a + render::path_markup(path) + b);
}

/// A path is its triangles in its color; one with a fill color has first the
/// closed area that its positions enclose.
pub proof fn path_is_its_stroke(p: PlacedPathView)
    ensures
        ({
            let stroke = render::triangles(
                p.mesh,
                p.mesh.indices.len() as int / 3,
                xml::escaped(p.path.color),
            );
            match p.path.fillcolor {
                None => render::path_markup(p) == stroke,
                Some(c) => render::path_markup(p) == ("<path"@ + (" d="@ + "\""@ + (
                render::line_data(p.spots) + "Z"@) + "\""@) + (" fill="@ + "\""@ + xml::escaped(c)
                    + "\""@) + (" stroke="@ + "\""@ + "none"@ + "\""@) + " />\n"@) + stroke,
            }
        }),
{
    if p.path.fillcolor is None {
        let stroke = render::triangles(
            p.mesh,
            p.mesh.indices.len() as int / 3,
            xml::escaped(p.path.color),
        );
        assert(render::path_markup(p) =~= stroke);
    }
}

/// Three indexes of a mesh after the other are the corners of a triangle.
pub proof fn triangle_of_three_indexes(m: MeshView, k: int, color: Seq<char>)
    requires
        0 <= k,
    ensures
        render::triangles(m, 0, color) == Seq::<char>::empty(),
        ({
            let (a, b, c) = (
                m.vertices[m.indices[3 * k] as int],
                m.vertices[m.indices[3 * k + 1] as int],
                m.vertices[m.indices[3 * k + 2] as int],
            );
            render::triangles(m, k + 1, color) == render::triangles(m, k, color) + ("<polygon"@ + (
            " points="@ + "\""@ + ((a.x + ","@ + a.y) + " "@ + (b.x + ","@ + b.y) + " "@ + (c.x
                + ","@ + c.y)) + "\""@) + (" fill="@ + "\""@ + color + "\""@) + " />\n"@)
        }),
{
}

// ---------------------------------------------------------------------------
// Markers
// ---------------------------------------------------------------------------

proof fn groups_split(a: Seq<PlacedMarkersView>, b: Seq<PlacedMarkersView>)
    ensures
        render::groups_markup(a + b) == render::groups_markup(a) + render::groups_markup(b),
    decreases b.len(),
{
    if b.len() == 0 {
        assert(a + b =~= a);
        assert(render::groups_markup(a) + render::groups_markup(b) =~= render::groups_markup(a));
    } else {
        assert((a + b).drop_last() =~= a + b.drop_last());
        groups_split(a, b.drop_last());
        assert(render::groups_markup(a + b) =~= render::groups_markup(a) + render::groups_markup(b));
    }
}

proof fn markers_split(a: Seq<SpotView>, b: Seq<SpotView>, g: MarkerGroupView)
    ensures
        render::markers(a + b, g) == render::markers(a, g) + render::markers(b, g),
    decreases b.len(),
{
    if b.len() == 0 {
        assert(a + b =~= a);
        assert(render::markers(a, g) + render::markers(b, g) =~= render::markers(a, g));
    } else {
        assert((a + b).drop_last() =~= a + b.drop_last());
        markers_split(a, b.drop_last(), g);
        assert(render::markers(a + b, g) =~= render::markers(a, g) + render::markers(b, g));
    }
}

/// Every group of markers is drawn in its place among the others, and every
/// marker in its place in the group.
pub proof fn every_marker_is_drawn(
    before: Seq<PlacedMarkersView>,
    group: PlacedMarkersView,
    after: Seq<PlacedMarkersView>,
    a: Seq<SpotView>,
    p: SpotView,
    b: Seq<SpotView>,
)
    requires
        group.spots == a.push(p) + b,
    ensures
        render::groups_markup(before.push(group) + after) == render::groups_markup(before) + (
        render::markers(a, group.group) + render::marker(p, group.group) + render::markers(
            b,
            group.group,
        )) + render::groups_markup(after),
        render::groups_markup(Seq::empty()) == Seq::<char>::empty(),
        render::markers(Seq::empty(), group.group) == Seq::<char>::empty(),
{
    groups_split(before.push(group), after);
    assert(before.push(group).drop_last() =~= before);
    markers_split(a.push(p), b, group.group);
    assert(a.push(p).drop_last() =~= a);
}

/// Every marker of every group stands in the body of the map.
pub proof fn body_holds_every_marker(
    layers: Seq<PlacedLayerView>,
    overrides: Map<Seq<char>, StyleOverrideView>,
    groups: Seq<PlacedMarkersView>,
    paths: Seq<PlacedPathView>,
    i: int,
    j: int,
)
    requires
        0 <= i < groups.len(),
        0 <= j < groups[i].spots.len(),
    ensures
        exists|a: Seq<char>, b: Seq<char>| #[trigger]
            render::body(layers, overrides, groups, paths) == #[trigger] (a + render::marker(
                groups[i].spots[j],
                groups[i].group,
            ) + b),
{
    let (before, group, after) = (groups.take(i), groups[i], groups.skip(i + 1));
    assert(before.push(group) + after =~= groups);
    let (left, p, right) = (group.spots.take(j), group.spots[j], group.spots.skip(j + 1));
    assert(left.push(p) + right =~= group.spots);
    every_marker_is_drawn(before, group, after, left, p, right);
    let below = render::levels_markup(layers, overrides, style::Z_LEVELS as int)
        + render::paths_markup(paths);
    let labels = render::labels_markup(render::first_labels(render::all_labels(layers)));
    regrouped(
        below,
        render::groups_markup(before),
        render::markers(left, group.group),
        render::marker(p, group.group),
        render::markers(right, group.group),
        render::groups_markup(after),
        labels,
    );
}

proof fn regrouped(
    a: Seq<char>,
    b: Seq<char>,
    c: Seq<char>,
    d: Seq<char>,
    e: Seq<char>,
    f: Seq<char>,
    g: Seq<char>,
)
    ensures
        a + (b + (c + d + e) + f) + g == #[trigger] ((a + b + c) + d + (e + f + g)),
{
    assert(a + (b + (c + d + e) + f) + g =~= (a + b + c) + d + (e + f + g));
}

/// A marker is a circle in the color of its group, with a radius of 4, 6 or 8
/// pixels; a label stands in it, at the same position and in letters 1.1 times
/// as high as the radius.
pub proof fn marker_is_a_circle(p: SpotView, g: MarkerGroupView)
    ensures
        ({
            let (radius, font) = match g.size {
                MarkerSize::Tiny => ("4"@, "4.4"@),
                MarkerSize::Small => ("6"@, "6.6"@),
                MarkerSize::Mid => ("8"@, "8.8"@),
            };
            let circle = "<circle"@ + (" cx="@ + "\""@ + p.x + "\""@) + (" cy="@ + "\""@ + p.y
                + "\""@) + (" r="@ + "\""@ + radius + "\""@) + (" fill="@ + "\""@ + xml::escaped(
                g.color,
            ) + "\""@) + (" stroke="@ + "\""@ + "#ffffff"@ + "\""@) + (" stroke-width="@ + "\""@
                + "2"@ + "\""@) + " />\n"@;
            match g.label {
                None => render::marker(p, g) == circle,
                Some(c) => render::marker(p, g) == circle + markup::text_element(
                    "<text"@ + (" x="@ + "\""@ + p.x + "\""@) + (" y="@ + "\""@ + p.y + "\""@) + (
                    " font-size="@ + "\""@ + font + "\""@) + (" font-family="@ + "\""@
                        + "sans-serif"@ + "\""@) + (" font-weight="@ + "\""@ + "700"@ + "\""@) + (
                    " text-anchor="@ + "\""@ + "middle"@ + "\""@) + (" dominant-baseline="@ + "\""@
                        + "central"@ + "\""@) + (" fill="@ + "\""@ + "#ffffff"@ + "\""@),
                    xml::escaped(seq![c]),
                ),
            }
        }),
{
}

// ---------------------------------------------------------------------------
// Labels
// ---------------------------------------------------------------------------

/// A feature is named by its `name`, or by its `name:en` where it has no
/// `name` at all; a name that is empty or no text names nothing.
pub proof fn feature_is_named(f: PlacedFeatureView, s: Seq<char>)
    ensures
        f.name == Some(PropertyView::Text(s)) && s.len() > 0 ==> render::feature_name(f) == Some(s),
        f.name == Some(PropertyView::Text(Seq::empty())) ==> render::feature_name(f) is None,
        f.name == Some(PropertyView::Other) ==> render::feature_name(f) is None,
        f.name is None && f.name_en == Some(PropertyView::Text(s)) && s.len() > 0
            ==> render::feature_name(f) == Some(s),
        f.name is None && f.name_en == Some(PropertyView::Text(Seq::empty()))
            ==> render::feature_name(f) is None,
        f.name is None && f.name_en == Some(PropertyView::Other) ==> render::feature_name(f) is None,
        f.name is None && f.name_en is None ==> render::feature_name(f) is None,
{
}

/// A feature has a label where it has a name and a point. The label stands at
/// the first point, and holds the name twice: in white outlines, and over them.
pub proof fn label_names_the_feature(f: PlacedFeatureView, points: Seq<SpotView>, name: Seq<char>)
    ensures
        !(f.shape is Points) ==> render::feature_label(f) is None,
        render::feature_name(f) is None ==> render::feature_label(f) is None,
        f.shape == PlacedShapeView::Points(Seq::empty()) ==> render::feature_label(f) is None,
        f.shape == PlacedShapeView::Points(points) && points.len() > 0 && render::feature_name(f)
            == Some(name) ==> {
            let start = "<text"@ + (" x="@ + "\""@ + points[0].x + "\""@) + (" y="@ + "\""@
                + points[0].y + "\""@) + (" font-size="@ + "\""@ + "12"@ + "\""@) + (
            " font-family="@ + "\""@ + "sans-serif"@ + "\""@) + (" font-weight="@ + "\""@ + "600"@
                + "\""@) + (" text-anchor="@ + "\""@ + "middle"@ + "\""@);
            let halo = start + (" fill="@ + "\""@ + "none"@ + "\""@) + (" stroke="@ + "\""@
                + "#ffffff"@ + "\""@) + (" stroke-width="@ + "\""@ + "3"@ + "\""@) + (
            " paint-order="@ + "\""@ + "stroke"@ + "\""@);
            let over = start + (" fill="@ + "\""@ + "#333333"@ + "\""@);
            render::feature_label(f) == Some(
                (
                    name,
                    markup::text_element(halo, xml::escaped(name)) + markup::text_element(
                        over,
                        xml::escaped(name),
                    ),
                ),
            )
        },
{
}

/// A layer holds places exactly where `place` occurs in its name.
pub proof fn place_layers(layer: PlacedLayerView, a: Seq<char>, b: Seq<char>)
    ensures
        layer.lower_name == a + "place"@ + b ==> render::is_label_layer(layer),
        render::is_label_layer(layer) ==> exists|k: int|
            0 <= k && k + 5 <= layer.lower_name.len() && #[trigger] layer.lower_name.subrange(k, k + 5)
                == "place"@,
{
    reveal_strlit("place");
    let s = layer.lower_name;
    if s == a + "place"@ + b {
        let k = a.len() as int;
        assert(s.subrange(k, k + 5) =~= "place"@);
        assert(text::occurs_at(s, "place"@, k));
    }
    if render::is_label_layer(layer) {
        let k = choose|k: int| text::occurs_at(s, "place"@, k);
        assert(s.subrange(k, k + 5) == "place"@);
    }
}

proof fn labels_of_has(features: Seq<PlacedFeatureView>, j: int)
    requires
        0 <= j < features.len(),
        render::feature_label(features[j]) is Some,
    ensures
        render::labels_of(features).contains(render::feature_label(features[j])->0),
    decreases features.len(),
{
    let front = features.drop_last();
    let l = render::feature_label(features[j])->0;
    let all = render::labels_of(features);
    if j < front.len() {
        assert(front[j] == features[j]);
        labels_of_has(front, j);
        let k = choose|k: int| 0 <= k < render::labels_of(front).len() && render::labels_of(front)[k] == l;
        assert(all[k] == l);
    } else {
        assert(all[all.len() - 1] == l);
    }
}

proof fn labels_of_only(features: Seq<PlacedFeatureView>, k: int)
    requires
        0 <= k < render::labels_of(features).len(),
    ensures
        exists|j: int|
            0 <= j < features.len() && render::feature_label(#[trigger] features[j]) == Some(
                render::labels_of(features)[k],
            ),
    decreases features.len(),
{
    let front = features.drop_last();
    let rest = render::labels_of(front);
    assert(features[features.len() - 1] == features.last());
    if k < rest.len() {
        labels_of_only(front, k);
        let j = choose|j: int|
            0 <= j < front.len() && render::feature_label(#[trigger] front[j]) == Some(rest[k]);
        assert(features[j] == front[j]);
    }
}

/// Every feature of a place layer that has a label has it among the labels of
/// the map.
pub proof fn every_place_has_its_label(layers: Seq<PlacedLayerView>, k: int, j: int)
    requires
        0 <= k < layers.len(),
        render::is_label_layer(layers[k]),
        0 <= j < layers[k].features.len(),
        render::feature_label(layers[k].features[j]) is Some,
    ensures
        render::all_labels(layers).contains(render::feature_label(layers[k].features[j])->0),
        render::has_label(
            render::first_labels(render::all_labels(layers)),
            (render::feature_label(layers[k].features[j])->0).0,
        ),
    decreases layers.len(),
{
    let front = layers.drop_last();
    let l = render::feature_label(layers[k].features[j])->0;
    let all = render::all_labels(layers);
    let before = render::all_labels(front);
    if k < front.len() {
        assert(front[k] == layers[k]);
        every_place_has_its_label(front, k, j);
        let i = choose|i: int| 0 <= i < before.len() && before[i] == l;
        assert(all[i] == l);
    } else {
        let own = render::labels_of(layers.last().features);
        labels_of_has(layers.last().features, j);
        let i = choose|i: int| 0 <= i < own.len() && own[i] == l;
        assert(all[before.len() + i] == l);
    }
    let i = choose|i: int| 0 <= i < all.len() && all[i] == l;
    assert(all[i].0 == l.0);
    assert(render::has_label(all, l.0));
    render::labels_shown_once(all);
}

/// No label is shown but that of a feature of a place layer.
pub proof fn labels_come_from_places(layers: Seq<PlacedLayerView>, i: int)
    requires
        0 <= i < render::all_labels(layers).len(),
    ensures
        exists|k: int, j: int|
            0 <= k < layers.len() && render::is_label_layer(layers[k]) && 0 <= j
                < layers[k].features.len() && render::feature_label(
                #[trigger] layers[k].features[j],
            ) == Some(render::all_labels(layers)[i]),
    decreases layers.len(),
{
    let front = layers.drop_last();
    let before = render::all_labels(front);
    let all = render::all_labels(layers);
    if i < before.len() {
        labels_come_from_places(front, i);
        let (k, j) = choose|k: int, j: int|
            0 <= k < front.len() && render::is_label_layer(front[k]) && 0 <= j
                < front[k].features.len() && render::feature_label(#[trigger] front[k].features[j])
                == Some(before[i]);
        assert(layers[k] == front[k]);
        assert(render::feature_label(layers[k].features[j]) == Some(all[i]));
    } else {
        let own = layers.last().features;
        labels_of_only(own, i - before.len());
        let j = choose|j: int|
            0 <= j < own.len() && render::feature_label(#[trigger] own[j]) == Some(
                render::labels_of(own)[i - before.len()],
            );
        let k = layers.len() - 1;
        assert(render::feature_label(layers[k].features[j]) == Some(all[i]));
    }
}

/// The labels that are shown are written whole, in order.
pub proof fn every_label_is_written(
    before: Seq<(Seq<char>, Seq<char>)>,
    label: (Seq<char>, Seq<char>),
    after: Seq<(Seq<char>, Seq<char>)>,
)
    ensures
        render::labels_markup(Seq::empty()) == Seq::<char>::empty(),
        render::labels_markup(before.push(label) + after) == render::labels_markup(before) + label.1
            + render::labels_markup(after),
    decreases after.len(),
{
    if after.len() == 0 {
        assert(before.push(label) + after =~= before.push(label));
        assert(before.push(label).drop_last() =~= before);
        assert(render::labels_markup(before) + label.1 + render::labels_markup(after)
            =~= render::labels_markup(before) + label.1);
    } else {
        let all = before.push(label) + after;
        assert(all.drop_last() =~= before.push(label) + after.drop_last());
        assert(all.last() == after.last());
        every_label_is_written(before, label, after.drop_last());
        assert(render::labels_markup(all) =~= render::labels_markup(before) + label.1
            + render::labels_markup(after));
    }
}

// ---------------------------------------------------------------------------
// Layers
// ---------------------------------------------------------------------------

/// A feature is drawn at the level of its style and outlined one level below,
/// and adds nothing to any other level.
pub proof fn feature_has_its_level(
    f: PlacedFeatureView,
    s: LayerStyleView,
    d: Seq<char>,
    level: int,
)
    requires
        render::shape_data(f.shape) == Some(d),
    ensures
        render::feature_at(f, s, s.z as int) == render::drawn(d, s),
        render::feature_at(f, s, s.z - 1) == render::outlined(d, s),
        level != s.z && level != s.z - 1 ==> render::feature_at(f, s, level) == Seq::<char>::empty(),
{
}

/// A feature without path data adds nothing.
pub proof fn feature_without_data(f: PlacedFeatureView, s: LayerStyleView, level: int)
    requires
        render::shape_data(f.shape) is None,
    ensures
        render::feature_at(f, s, level) == Seq::<char>::empty(),
{
}

/// A style with a fill fills the path and seals it with a stroke of the same
/// color, at least one pixel wide; a style with a stroke draws it over the fill,
/// in its own color, width and dashes; an outline is a stroke in the color of
/// the outline, at its width. Nothing else is drawn.
pub proof fn style_is_drawn(d: Seq<char>, s: LayerStyleView)
    ensures
        ({
            let dashes = match s.dash {
                Some(v) => " stroke-dasharray="@ + "\""@ + v + "\""@,
                None => Seq::empty(),
            };
            let line = match s.stroke {
                Some(c) => "<path"@ + (" d="@ + "\""@ + d + "\""@) + (" fill="@ + "\""@ + "none"@
                    + "\""@) + (" stroke="@ + "\""@ + xml::escaped(c) + "\""@) + (" stroke-width="@
                    + "\""@ + s.stroke_width.shown + "\""@) + dashes + " />\n"@,
                None => Seq::empty(),
            };
            let seal = if number::single_over_one(s.stroke_width.bits) {
                s.stroke_width.shown
            } else {
                "1"@
            };
            let fill = match s.fill {
                Some(c) => "<path"@ + (" d="@ + "\""@ + d + "\""@) + (" fill="@ + "\""@
                    + xml::escaped(c) + "\""@) + (" stroke="@ + "\""@ + xml::escaped(c) + "\""@) + (
                " stroke-width="@ + "\""@ + seal + "\""@) + " />\n"@,
                None => Seq::empty(),
            };
            let outline = match s.casing {
                Some(c) => "<path"@ + (" d="@ + "\""@ + d + "\""@) + (" fill="@ + "\""@ + "none"@
                    + "\""@) + (" stroke="@ + "\""@ + xml::escaped(c) + "\""@) + (" stroke-width="@
                    + "\""@ + s.stroke_width.outline + "\""@) + " />\n"@,
                None => Seq::empty(),
            };
            &&& render::drawn(d, s) == fill + line
            &&& render::outlined(d, s) == outline
        }),
{
    if let Some(c) = s.fill {
        let x = xml::escaped(c);
        let w = render::seal_width(s.stroke_width);
        plain_path(d, x, x, w);
    }
    if let Some(c) = s.casing {
        plain_path(d, "none"@, xml::escaped(c), s.stroke_width.outline);
    }
}

proof fn plain_path(d: Seq<char>, fill: Seq<char>, stroke: Seq<char>, width: Seq<char>)
    ensures
        render::path_element(d, fill, stroke, width, None) == "<path"@ + (" d="@ + "\""@ + d
            + "\""@) + (" fill="@ + "\""@ + fill + "\""@) + (" stroke="@ + "\""@ + stroke + "\""@)
            + (" stroke-width="@ + "\""@ + width + "\""@) + " />\n"@,
{
    let start = "<path"@ + (" d="@ + "\""@ + d + "\""@) + (" fill="@ + "\""@ + fill + "\""@) + (
    " stroke="@ + "\""@ + stroke + "\""@) + (" stroke-width="@ + "\""@ + width + "\""@);
    assert(start + Seq::<char>::empty() =~= start);
}

proof fn features_split(
    a: Seq<PlacedFeatureView>,
    b: Seq<PlacedFeatureView>,
    s: LayerStyleView,
    level: int,
)
    ensures
        render::features_at(a + b, s, level) == render::features_at(a, s, level)
            + render::features_at(b, s, level),
    decreases b.len(),
{
    if b.len() == 0 {
        assert(a + b =~= a);
        assert(render::features_at(a, s, level) + render::features_at(b, s, level)
            =~= render::features_at(a, s, level));
    } else {
        assert((a + b).drop_last() =~= a + b.drop_last());
        features_split(a, b.drop_last(), s, level);
        assert(render::features_at(a + b, s, level) =~= render::features_at(a, s, level)
            + render::features_at(b, s, level));
    }
}

/// Every feature of a layer is drawn in its place among the others, in the
/// style of the layer; a place layer is not drawn.
pub proof fn every_feature_is_drawn(
    name: Seq<char>,
    before: Seq<PlacedFeatureView>,
    f: PlacedFeatureView,
    after: Seq<PlacedFeatureView>,
    overrides: Map<Seq<char>, StyleOverrideView>,
    level: int,
)
    ensures
        ({
            let layer = PlacedLayerView { lower_name: name, features: before.push(f) + after };
            let s = style::layer_style(name, overrides);
            if render::is_label_layer(layer) {
                render::level_markup(seq![layer], overrides, level) == Seq::<char>::empty()
            } else {
                render::level_markup(seq![layer], overrides, level) == render::features_at(
                    before,
                    s,
                    level,
                ) + render::feature_at(f, s, level) + render::features_at(after, s, level)
            }
        }),
        ({
            let s = style::layer_style(name, overrides);
            render::features_at(Seq::empty(), s, level) == Seq::<char>::empty()
        }),
{
    let layer = PlacedLayerView { lower_name: name, features: before.push(f) + after };
    let s = style::layer_style(name, overrides);
    let one = seq![layer];
    assert(one.drop_last() =~= Seq::empty());
    assert(render::level_markup(one.drop_last(), overrides, level) =~= Seq::empty());
    assert(render::level_markup(one, overrides, level) =~= render::layer_at(layer, overrides, level));
    features_split(before.push(f), after, s, level);
    assert(before.push(f).drop_last() =~= before);
}

/// A map shows, bottom to top, the ten levels of its layers, its paths, its
/// markers and its labels.
pub proof fn body_is_levels_and_overlay(
    layers: Seq<PlacedLayerView>,
    overrides: Map<Seq<char>, StyleOverrideView>,
    groups: Seq<PlacedMarkersView>,
    paths: Seq<PlacedPathView>,
)
    ensures
        ({
            let at = |level: int| render::level_markup(layers, overrides, level);
            render::body(layers, overrides, groups, paths) == (at(0) + at(1) + at(2) + at(3) + at(4)
                + at(5) + at(6) + at(7) + at(8) + at(9)) + render::paths_markup(paths)
                + render::groups_markup(groups) + render::labels_markup(
                render::first_labels(render::all_labels(layers)),
            )
        }),
{
    reveal_with_fuel(render::levels_markup, 11);
    let none = Seq::<char>::empty();
    let first = render::level_markup(layers, overrides, 0);
    assert(none + first =~= first);
    assert(render::levels_markup(layers, overrides, 0) =~= none);
}

/// A document has the given size in pixels and coordinates up to `w` and `h`;
/// a background covers these, and the body lies over it.
pub proof fn document_frames_its_body(
    out_width: Seq<char>,
    out_height: Seq<char>,
    w: Seq<char>,
    h: Seq<char>,
    body: Seq<char>,
)
    ensures
        render::document(out_width, out_height, w, h, body) == ("<svg"@ + (" xmlns="@ + "\""@
            + "http://www.w3.org/2000/svg"@ + "\""@) + (" width="@ + "\""@ + out_width + "\""@) + (
        " height="@ + "\""@ + out_height + "\""@) + (" viewBox="@ + "\""@ + ("0 0 "@ + w + " "@ + h)
            + "\""@)) + ">\n"@ + (("<rect"@ + (" width="@ + "\""@ + w + "\""@) + (" height="@
            + "\""@ + h + "\""@) + (" fill="@ + "\""@ + "#f5f4f4"@ + "\""@) + " />\n"@) + body)
            + "</svg>"@,
{
}

} // verus!
