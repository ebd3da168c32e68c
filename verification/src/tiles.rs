//! Vector tiles: what kinds there are, where one stands, and what is in one.

use crate::config;
use crate::geo_util;
use crate::geo_util::Viewport;
use crate::text;
use geo_types::Geometry;
use mvt_reader::error::ParserError;
use mvt_reader::feature::Value;
use mvt_reader::Reader;
use pmtiles::{PmtError, TileCoord};
use vstd::arithmetic::power2::*;
use vstd::prelude::*;
use vstd::string::*;

verus! {

// ---------------------------------------------------------------------------
// Kinds of tiles
// ---------------------------------------------------------------------------

/// What the tiles of an archive are.
#[derive(Clone, Copy, Debug, PartialEq, Eq, Structural)]
pub enum TileType {
    Unknown,
    Mvt,
    Png,
    Jpeg,
    Webp,
    Avif,
    Mlt,
}

/// The HTTP `Content-Type` of a tile.
pub open spec fn content_type(t: TileType) -> Seq<char> {
    match t {
        TileType::Mvt => "application/x-protobuf"@,
        TileType::Png => "image/png"@,
        TileType::Jpeg => "image/jpeg"@,
        TileType::Webp => "image/webp"@,
        _ => "application/octet-stream"@,
    }
}

/// The HTTP `Content-Type` for a kind of tiles.
pub fn tile_content_type(t: TileType) -> (r: &'static str)
    ensures
        r@ == content_type(t),
{
    match t {
        TileType::Mvt => "application/x-protobuf",
        TileType::Png => "image/png",
        TileType::Jpeg => "image/jpeg",
        TileType::Webp => "image/webp",
        _ => "application/octet-stream",
    }
}

/// The file extension of a kind of tiles; empty where there is none.
pub open spec fn extension(t: TileType) -> Seq<char> {
    match t {
        TileType::Mvt => "mvt"@,
        TileType::Png => "png"@,
        TileType::Jpeg => "jpg"@,
        TileType::Webp => "webp"@,
        _ => ""@,
    }
}

/// The canonical file extension for a kind of tiles (empty if unknown).
pub fn tile_extension(t: TileType) -> (r: &'static str)
    ensures
        r@ == extension(t),
{
    match t {
        TileType::Mvt => "mvt",
        TileType::Png => "png",
        TileType::Jpeg => "jpg",
        TileType::Webp => "webp",
        _ => "",
    }
}

/// The kind of tiles that a file extension stands for.
pub open spec fn type_of_extension(ext: Seq<char>) -> Option<TileType> {
    if ext == "mvt"@ || ext == "pbf"@ {
        Some(TileType::Mvt)
    } else if ext == "png"@ {
        Some(TileType::Png)
    } else if ext == "jpg"@ || ext == "jpeg"@ {
        Some(TileType::Jpeg)
    } else if ext == "webp"@ {
        Some(TileType::Webp)
    } else {
        None
    }
}

/// The kind of tiles that a requested extension implies, if any.
pub fn ext_to_type(ext: &str) -> (r: Option<TileType>)
    ensures
        r == type_of_extension(ext@),
{
    let chars = text::to_chars(ext);
    let ext = chars.as_slice();
    if text::is_text(ext, "mvt") || text::is_text(ext, "pbf") {
        Some(TileType::Mvt)
    } else if text::is_text(ext, "png") {
        Some(TileType::Png)
    } else if text::is_text(ext, "jpg") || text::is_text(ext, "jpeg") {
        Some(TileType::Jpeg)
    } else if text::is_text(ext, "webp") {
        Some(TileType::Webp)
    } else {
        None
    }
}

/// The canonical extension of a kind of tiles stands for that kind.
pub proof fn extension_reads_back(t: TileType)
    requires
        extension(t).len() > 0,
    ensures
        type_of_extension(extension(t)) == Some(t),
{
    reveal_strlit("mvt");
    reveal_strlit("pbf");
    reveal_strlit("png");
    reveal_strlit("jpg");
    reveal_strlit("jpeg");
    reveal_strlit("webp");
    reveal_strlit("");
    assert("png"@[0] != "mvt"@[0]);
    assert("jpg"@[0] != "mvt"@[0]);
    assert("webp"@[0] != "mvt"@[0]);
    assert("png"@[1] != "pbf"@[1]);
    assert("jpg"@[0] != "pbf"@[0]);
    assert("webp"@[0] != "pbf"@[0]);
    assert("jpg"@[0] != "png"@[0]);
    assert("webp"@[0] != "png"@[0]);
    assert("webp"@[0] != "jpg"@[0]);
    assert("webp"@[0] != "jpeg"@[0]);
}

/// Where an archive is read from.
#[derive(Clone, Copy, Debug, PartialEq, Eq, Structural)]
pub enum Place {
    /// A local file.
    Path,
    /// An `http(s)` URL.
    Url,
}

/// Tells a remote archive from a local one.
pub fn place_of(source: &str) -> (r: Place)
    ensures
        r == if config::is_url(source@) {
            Place::Url
        } else {
            Place::Path
        },
{
    let chars = text::to_chars(source);
    if config::has_url_scheme(chars.as_slice()) {
        Place::Url
    } else {
        Place::Path
    }
}

// ---------------------------------------------------------------------------
// Tile coordinates
// ---------------------------------------------------------------------------

/// `pmtiles::TileCoord`, by which an archive finds a tile.
#[verifier::external_type_specification]
#[verifier::external_body]
pub struct ExTileCoord(TileCoord);

/// `pmtiles::PmtError`, of which nothing is used.
#[verifier::external_type_specification]
#[verifier::external_body]
pub struct ExPmtError(PmtError);

/// The zoom, the column and the row that a tile coordinate holds.
pub uninterp spec fn coord_parts(c: TileCoord) -> Seq<u32>;

/// Whether a tile exists in an archive's scheme: archives are at most 31 zoom
/// levels deep, and a level has two to the power of its zoom columns and rows.
pub open spec fn coord_exists(z: u8, x: u32, y: u32) -> bool {
    z <= 31 && x < pow2(z as nat) && y < pow2(z as nat)
}

/// `pmtiles::TileCoord::new`: it accepts exactly the tiles that exist, and the
/// coordinate holds what it was made of.
#[verifier::external_body]
fn new_coord(z: u8, x: u32, y: u32) -> (r: Result<TileCoord, PmtError>)
    ensures
        r is Ok <==> coord_exists(z, x, y),
        r matches Ok(c) ==> coord_parts(c) == seq![z as u32, x, y],
{
    TileCoord::new(z, x, y)
}

/// There is no tile with these coordinates.
#[derive(Clone, Copy, Debug, PartialEq, Eq, Structural)]
pub struct NoSuchTile {
    pub z: u8,
    pub x: u32,
    pub y: u32,
}

/// The coordinate by which an archive finds a tile.
pub fn tile_coord(z: u8, x: u32, y: u32) -> (r: Result<TileCoord, NoSuchTile>)
    ensures
        match r {
            Ok(c) => coord_exists(z, x, y) && coord_parts(c) == seq![z as u32, x, y],
            Err(e) => !coord_exists(z, x, y) && e == (NoSuchTile { z, x, y }),
        },
{
    match new_coord(z, x, y) {
        Ok(c) => Ok(c),
        Err(_) => Err(NoSuchTile { z, x, y }),
    }
}

/// Every tile that covers a viewport can be looked up in an archive.
pub proof fn covering_tiles_have_coordinates(v: Viewport, k: int)
    requires
        v.zoom <= 31,
        0 <= k < v.covering().len(),
    ensures
        ({
            let (z, x, y) = v.covering()[k];
            coord_exists(z, x, y)
        }),
{
    geo_util::covering_tiles_exist(v, k);
}

// ---------------------------------------------------------------------------
// What is in a tile
// ---------------------------------------------------------------------------

/// The geometry of a feature, in the tile's own coordinates.
#[derive(Debug)]
pub enum Shape {
    Points(Vec<(i32, i32)>),
    Lines(Vec<Vec<(i32, i32)>>),
    /// Polygons, each with its outer ring first and then its holes.
    Polygons(Vec<Vec<Vec<(i32, i32)>>>),
    Other,
}

/// A [`Shape`] with its contents as sequences.
pub enum ShapeView {
    Points(Seq<(i32, i32)>),
    Lines(Seq<Seq<(i32, i32)>>),
    Polygons(Seq<Seq<Seq<(i32, i32)>>>),
    Other,
}

/// The views of lines.
pub open spec fn line_views(lines: Seq<Vec<(i32, i32)>>) -> Seq<Seq<(i32, i32)>> {
    lines.map_values(|l: Vec<(i32, i32)>| l@)
}

/// The views of polygons.
pub open spec fn polygon_views(polygons: Seq<Vec<Vec<(i32, i32)>>>) -> Seq<
    Seq<Seq<(i32, i32)>>,
> {
    polygons.map_values(|p: Vec<Vec<(i32, i32)>>| line_views(p@))
}

impl View for Shape {
    type V = ShapeView;

    open spec fn view(&self) -> ShapeView {
        match *self {
            Shape::Points(points) => ShapeView::Points(points@),
            Shape::Lines(lines) => ShapeView::Lines(line_views(lines@)),
            Shape::Polygons(polygons) => ShapeView::Polygons(polygon_views(polygons@)),
            Shape::Other => ShapeView::Other,
        }
    }
}

/// The value of a property: a text, or anything else.
#[derive(Debug)]
pub enum Property {
    Text(String),
    Other,
}

/// A [`Property`] with its text as a character sequence.
pub enum PropertyView {
    Text(Seq<char>),
    Other,
}

impl View for Property {
    type V = PropertyView;

    open spec fn view(&self) -> PropertyView {
        match *self {
            Property::Text(s) => PropertyView::Text(s@),
            Property::Other => PropertyView::Other,
        }
    }
}

/// The view of an optional property.
pub open spec fn opt_property(p: Option<Property>) -> Option<PropertyView> {
    match p {
        Some(p) => Some(p@),
        None => None,
    }
}

/// A feature of a tile as the reader gives it: its geometry, and its
/// properties by name.
pub struct RawFeature {
    pub shape: ShapeView,
    pub properties: Map<Seq<char>, PropertyView>,
}

/// `mvt_reader::Reader`, which holds a parsed tile.
#[verifier::external_type_specification]
#[verifier::external_body]
pub struct ExReader(Reader);

/// `mvt_reader::error::ParserError`, of which nothing is used.
#[verifier::external_type_specification]
#[verifier::external_body]
pub struct ExParserError(ParserError);

/// The features of one layer, as `mvt_reader` parsed them. The reader's own
/// feature type has a parameter whose bound is a trait of another crate, so
/// the list is held in a field of its own.
#[verifier::external_body]
pub struct LayerFeatures {
    list: Vec<mvt_reader::feature::Feature<i32>>,
}

/// The reader of a vector tile; `None` where the bytes are no vector tile.
pub uninterp spec fn reader_of(bytes: Seq<u8>) -> Option<Reader>;

/// The layers that a reader holds, each with its index, name and extent;
/// `None` where a layer's version is not supported.
pub uninterp spec fn reader_layers(reader: Reader) -> Option<Seq<(usize, Seq<char>, u32)>>;

/// The features of a layer that a reader holds; `None` where one is malformed.
pub uninterp spec fn reader_features(reader: Reader, layer: usize) -> Option<Seq<RawFeature>>;

/// The features in a list of features.
pub uninterp spec fn features_of(list: LayerFeatures) -> Seq<RawFeature>;

/// The views of the layers of a tile.
pub open spec fn meta_views(metas: Seq<(usize, String, u32)>) -> Seq<(usize, Seq<char>, u32)> {
    metas.map_values(|m: (usize, String, u32)| (m.0, m.1@, m.2))
}

/// `mvt_reader::Reader::new`. Its result is a function of the bytes, which is
/// named and not spelled out.
#[verifier::external_body]
fn new_reader(bytes: Vec<u8>) -> (r: Result<Reader, ParserError>)
    ensures
        match r {
            Ok(reader) => reader_of(bytes@) == Some(reader),
            Err(_) => reader_of(bytes@) is None,
        },
{
    Reader::new(bytes)
}

/// `mvt_reader::Reader::get_layer_metadata`: the index, the name and the
/// extent of each layer. They are a function of the reader, which is named and
/// not spelled out.
#[verifier::external_body]
fn layer_metadata(reader: &Reader) -> (r: Result<Vec<(usize, String, u32)>, ParserError>)
    ensures
        match r {
            Ok(metas) => reader_layers(*reader) == Some(meta_views(metas@)),
            Err(_) => reader_layers(*reader) is None,
        },
{
    let metas = reader.get_layer_metadata()?;
    Ok(metas.into_iter().map(|m| (m.layer_index, m.name, m.extent)).collect())
}

/// `mvt_reader::Reader::get_features_as`, with the whole coordinates that
/// tiles hold: the features of a layer. They are a function of the reader and
/// the index of the layer, which is named and not spelled out.
#[verifier::external_body]
fn read_features(reader: &Reader, layer: usize) -> (r: Result<LayerFeatures, ParserError>)
    ensures
        match r {
            Ok(list) => reader_features(*reader, layer) == Some(features_of(list)),
            Err(_) => reader_features(*reader, layer) is None,
        },
{
    Ok(LayerFeatures { list: reader.get_features_as::<i32>(layer)? })
}

/// How many features `mvt_reader` returned.
#[verifier::external_body]
fn feature_count(features: &LayerFeatures) -> (r: usize)
    ensures
        r == features_of(*features).len(),
{
    features.list.len()
}

/// A property of an `mvt_reader::feature::Feature`, by name.
#[verifier::external_body]
fn feature_property(features: &LayerFeatures, i: usize, name: &str) -> (r: Option<Property>)
    requires
        i < features_of(*features).len(),
    ensures
        match r {
            Some(p) => features_of(*features)[i as int].properties.contains_key(name@)
                && features_of(*features)[i as int].properties[name@] == p@,
            None => !features_of(*features)[i as int].properties.contains_key(name@),
        },
{
    match features.list[i].properties.as_ref()?.get(name)? {
        Value::String(s) => Some(Property::Text(s.clone())),
        _ => Some(Property::Other),
    }
}

/// The points of an `mvt_reader::feature::Feature` whose geometry is a point
/// or several.
#[verifier::external_body]
fn feature_points(features: &LayerFeatures, i: usize) -> (r: Option<Vec<(i32, i32)>>)
    requires
        i < features_of(*features).len(),
    ensures
        match r {
            Some(points) => features_of(*features)[i as int].shape == ShapeView::Points(points@),
            None => !(features_of(*features)[i as int].shape is Points),
        },
{
    match &features.list[i].geometry {
        Geometry::Point(p) => Some(vec![p.x_y()]),
        Geometry::MultiPoint(points) => Some(points.iter().map(|p| p.x_y()).collect()),
        _ => None,
    }
}

/// The lines of an `mvt_reader::feature::Feature` whose geometry is a line or
/// several.
#[verifier::external_body]
fn feature_lines(features: &LayerFeatures, i: usize) -> (r: Option<Vec<Vec<(i32, i32)>>>)
    requires
        i < features_of(*features).len(),
    ensures
        match r {
            Some(lines) => features_of(*features)[i as int].shape == ShapeView::Lines(
                line_views(lines@),
            ),
            None => !(features_of(*features)[i as int].shape is Lines),
        },
{
    match &features.list[i].geometry {
        Geometry::LineString(l) => Some(vec![l.coords().map(|c| c.x_y()).collect()]),
        Geometry::MultiLineString(lines) => Some(
            lines.iter().map(|l| l.coords().map(|c| c.x_y()).collect()).collect(),
        ),
        _ => None,
    }
}

/// The polygons of an `mvt_reader::feature::Feature` whose geometry is a
/// polygon or several, each with its exterior ring before its interior ones.
#[verifier::external_body]
fn feature_polygons(features: &LayerFeatures, i: usize) -> (r: Option<Vec<Vec<Vec<(i32, i32)>>>>)
    requires
        i < features_of(*features).len(),
    ensures
        match r {
            Some(polygons) => features_of(*features)[i as int].shape == ShapeView::Polygons(
                polygon_views(polygons@),
            ),
            None => !(features_of(*features)[i as int].shape is Polygons),
        },
{
    let polygons = match &features.list[i].geometry {
        Geometry::Polygon(p) => std::slice::from_ref(p),
        Geometry::MultiPolygon(polygons) => polygons.0.as_slice(),
        _ => return None,
    };
    let rings = |p: &geo_types::Polygon<i32>| {
        let all = std::iter::once(p.exterior()).chain(p.interiors());
        all.map(|ring| ring.coords().map(|c| c.x_y()).collect()).collect()
    };
    Some(polygons.iter().map(rings).collect())
}

/// A feature of a tile: its geometry, and the two properties that name it.
#[derive(Debug)]
pub struct Feature {
    pub shape: Shape,
    pub name: Option<Property>,
    pub name_en: Option<Property>,
}

/// A [`Feature`] with its contents as sequences.
pub struct FeatureView {
    pub shape: ShapeView,
    pub name: Option<PropertyView>,
    pub name_en: Option<PropertyView>,
}

impl View for Feature {
    type V = FeatureView;

    open spec fn view(&self) -> FeatureView {
        FeatureView {
            shape: self.shape@,
            name: opt_property(self.name),
            name_en: opt_property(self.name_en),
        }
    }
}

/// A property of a raw feature, if it has it.
pub open spec fn property(f: RawFeature, name: Seq<char>) -> Option<PropertyView> {
    if f.properties.contains_key(name) {
        Some(f.properties[name])
    } else {
        None
    }
}

/// What is kept of a raw feature.
pub open spec fn kept(f: RawFeature) -> FeatureView {
    FeatureView {
        shape: f.shape,
        name: property(f, "name"@),
        name_en: property(f, "name:en"@),
    }
}

/// The views of features.
pub open spec fn feature_views(features: Seq<Feature>) -> Seq<FeatureView> {
    features.map_values(|f: Feature| f@)
}

/// What is kept of several features.
pub open spec fn all_kept(features: Seq<RawFeature>) -> Seq<FeatureView> {
    features.map_values(|f: RawFeature| kept(f))
}

/// The geometry of the `i`-th feature.
fn shape_of(features: &LayerFeatures, i: usize) -> (r: Shape)
    requires
        i < features_of(*features).len(),
    ensures
        r@ == features_of(*features)[i as int].shape,
{
    if let Some(points) = feature_points(features, i) {
        return Shape::Points(points);
    }
    if let Some(lines) = feature_lines(features, i) {
        return Shape::Lines(lines);
    }
    match feature_polygons(features, i) {
        Some(polygons) => Shape::Polygons(polygons),
        None => Shape::Other,
    }
}

/// Keeps what is needed of the features of a layer.
fn keep_features(features: &LayerFeatures) -> (r: Vec<Feature>)
    ensures
        feature_views(r@) == all_kept(features_of(*features)),
{
    let ghost all = all_kept(features_of(*features));
    let n = feature_count(features);
    let mut r: Vec<Feature> = Vec::new();
    assert(feature_views(r@) =~= all.take(0));
    let mut i: usize = 0;
    while i < n
        invariant
            i <= n == features_of(*features).len(),
            all == all_kept(features_of(*features)),
            feature_views(r@) == all.take(i as int),
        decreases n - i,
    {
        let ghost before = feature_views(r@);
        let f = Feature {
            shape: shape_of(features, i),
            name: feature_property(features, i, "name"),
            name_en: feature_property(features, i, "name:en"),
        };
        assert(f@ == all[i as int]);
        r.push(f);
        assert(feature_views(r@) =~= before.push(f@));
        assert(all.take(i + 1) =~= all.take(i as int).push(all[i as int]));
        i += 1;
    }
    assert(all.take(i as int) =~= all);
    r
}

/// A layer of a tile.
#[derive(Debug)]
pub struct DecodedLayer {
    pub name: String,
    /// How many of the tile's own units a side of the tile has, mostly 4096.
    pub extent: u32,
    pub features: Vec<Feature>,
}

/// A [`DecodedLayer`] with its contents as sequences.
pub struct DecodedLayerView {
    pub name: Seq<char>,
    pub extent: u32,
    pub features: Seq<FeatureView>,
}

impl View for DecodedLayer {
    type V = DecodedLayerView;

    open spec fn view(&self) -> DecodedLayerView {
        DecodedLayerView {
            name: self.name@,
            extent: self.extent,
            features: feature_views(self.features@),
        }
    }
}

/// The views of layers.
pub open spec fn layer_views(layers: Seq<DecodedLayer>) -> Seq<DecodedLayerView> {
    layers.map_values(|l: DecodedLayer| l@)
}

/// Why a tile cannot be decoded.
#[derive(Clone, Copy, Debug, PartialEq, Eq, Structural)]
pub enum DecodeError {
    /// The bytes are not a vector tile.
    Tile,
    /// The version of a layer is not supported.
    Layers,
    /// The features of the layer with this index are malformed.
    Features(usize),
}

/// The views of lists of features, `None` where a list is malformed.
pub open spec fn list_views(lists: Seq<Option<Vec<Feature>>>) -> Seq<Option<Seq<FeatureView>>> {
    lists.map_values(
        |l: Option<Vec<Feature>>|
            match l {
                Some(features) => Some(feature_views(features@)),
                None => None,
            },
    )
}

/// Layers put together from their indexes, names and extents and their lists
/// of features; the first malformed list makes the tile undecodable.
pub open spec fn assembled(
    metas: Seq<(usize, Seq<char>, u32)>,
    lists: Seq<Option<Seq<FeatureView>>>,
) -> Result<Seq<DecodedLayerView>, DecodeError>
    decreases metas.len(),
{
    if metas.len() == 0 {
        Ok(Seq::empty())
    } else {
        let (index, name, extent) = metas.last();
        match assembled(metas.drop_last(), lists.drop_last()) {
            Err(e) => Err(e),
            Ok(front) => match lists.last() {
                Some(features) => Ok(front.push(DecodedLayerView { name, extent, features })),
                None => Err(DecodeError::Features(index)),
            },
        }
    }
}

/// What is kept of the features of a layer, `None` where they are malformed.
pub open spec fn kept_features(reader: Reader, layer: usize) -> Option<Seq<FeatureView>> {
    match reader_features(reader, layer) {
        Some(features) => Some(all_kept(features)),
        None => None,
    }
}

/// What is kept of the features of each layer.
pub open spec fn kept_lists(reader: Reader, metas: Seq<(usize, Seq<char>, u32)>) -> Seq<
    Option<Seq<FeatureView>>,
> {
    metas.map_values(|m: (usize, Seq<char>, u32)| kept_features(reader, m.0))
}

/// What a tile decodes to: all of its layers, in order, each with all of its
/// features.
pub open spec fn decoded(bytes: Seq<u8>) -> Result<Seq<DecodedLayerView>, DecodeError> {
    match reader_of(bytes) {
        None => Err(DecodeError::Tile),
        Some(reader) => match reader_layers(reader) {
            Some(metas) => assembled(metas, kept_lists(reader, metas)),
            None => Err(DecodeError::Layers),
        },
    }
}

proof fn assembled_stops(
    metas: Seq<(usize, Seq<char>, u32)>,
    lists: Seq<Option<Seq<FeatureView>>>,
    n: int,
)
    requires
        metas.len() == lists.len(),
        0 <= n <= metas.len(),
        assembled(metas.take(n), lists.take(n)) is Err,
    ensures
        assembled(metas, lists) == assembled(metas.take(n), lists.take(n)),
    decreases metas.len(),
{
    if n < metas.len() {
        assert(metas.drop_last().take(n) =~= metas.take(n));
        assert(lists.drop_last().take(n) =~= lists.take(n));
        assembled_stops(metas.drop_last(), lists.drop_last(), n);
    } else {
        assert(metas.take(n) =~= metas);
        assert(lists.take(n) =~= lists);
    }
}

/// Puts layers together from their indexes, names and extents and their lists
/// of features, of which there is one for each layer.
pub fn assemble_layers(
    metas: Vec<(usize, String, u32)>,
    lists: Vec<Option<Vec<Feature>>>,
) -> (r: Result<Vec<DecodedLayer>, DecodeError>)
    requires
        metas@.len() == lists@.len(),
    ensures
        match r {
            Ok(layers) => assembled(meta_views(metas@), list_views(lists@)) == Ok::<_, DecodeError>(
                layer_views(layers@),
            ),
            Err(e) => assembled(meta_views(metas@), list_views(lists@)) == Err::<
                Seq<DecodedLayerView>,
                _,
            >(e),
        },
{
    let ghost ms = meta_views(metas@);
    let ghost ls = list_views(lists@);
    let mut layers: Vec<DecodedLayer> = Vec::new();
    let mut i: usize = 0;
    assert(ms.take(0) =~= Seq::empty());
    assert(layer_views(layers@) =~= Seq::empty());
    for list in it: lists
        invariant
            it.seq() == lists@,
            i == it.index(),
            metas@.len() == lists@.len(),
            ms == meta_views(metas@),
            ls == list_views(lists@),
            assembled(ms.take(i as int), ls.take(i as int)) == Ok::<_, DecodeError>(
                layer_views(layers@),
            ),
    {
        let ghost before = layer_views(layers@);
        assert(ms.take(i + 1).drop_last() =~= ms.take(i as int));
        assert(ls.take(i + 1).drop_last() =~= ls.take(i as int));
        assert(ms.take(i + 1).last() == ms[i as int]);
        assert(ls.take(i + 1).last() == ls[i as int]);
        match list {
            Some(features) => {
                let layer = DecodedLayer {
                    name: metas[i].1.clone(),
                    extent: metas[i].2,
                    features,
                };
                layers.push(layer);
                assert(layer_views(layers@) =~= before.push(layer@));
            },
            None => {
                proof {
                    assembled_stops(ms, ls, i + 1);
                }
                return Err(DecodeError::Features(metas[i].0));
            },
        }
        i += 1;
    }
    assert(ms.take(i as int) =~= ms);
    assert(ls.take(i as int) =~= ls);
    Ok(layers)
}

/// Reads the features of the given layers.
fn read_lists(reader: &Reader, metas: &Vec<(usize, String, u32)>) -> (r: Vec<Option<Vec<Feature>>>)
    ensures
        list_views(r@) == kept_lists(*reader, meta_views(metas@)),
{
    let ghost all = kept_lists(*reader, meta_views(metas@));
    let mut lists: Vec<Option<Vec<Feature>>> = Vec::new();
    let mut i: usize = 0;
    assert(list_views(lists@) =~= all.take(0));
    while i < metas.len()
        invariant
            i <= metas@.len(),
            all == kept_lists(*reader, meta_views(metas@)),
            list_views(lists@) == all.take(i as int),
        decreases metas@.len() - i,
    {
        let ghost before = list_views(lists@);
        let list = match read_features(reader, metas[i].0) {
            Ok(list) => Some(keep_features(&list)),
            Err(_) => None,
        };
        lists.push(list);
        assert(list_views(lists@) =~= before.push(all[i as int]));
        assert(all.take(i + 1) =~= all.take(i as int).push(all[i as int]));
        i += 1;
    }
    assert(all.take(i as int) =~= all);
    lists
}

/// Decodes a vector tile into its layers.
pub fn decode_tile(bytes: Vec<u8>) -> (r: Result<Vec<DecodedLayer>, DecodeError>)
    ensures
        match r {
            Ok(layers) => decoded(bytes@) == Ok::<_, DecodeError>(layer_views(layers@)),
            Err(e) => decoded(bytes@) == Err::<Seq<DecodedLayerView>, _>(e),
        },
{
    let reader = match new_reader(bytes) {
        Ok(reader) => reader,
        Err(_) => {
            return Err(DecodeError::Tile);
        },
    };
    match layer_metadata(&reader) {
        Ok(metas) => {
            let lists = read_lists(&reader, &metas);
            assert(list_views(lists@).len() == metas@.len());
            assemble_layers(metas, lists)
        },
        Err(_) => Err(DecodeError::Layers),
    }
}

// ---------------------------------------------------------------------------
// What holds of every tile
// ---------------------------------------------------------------------------

/// The kinds of tiles have their extensions and content types.
pub proof fn kinds_of_tiles(t: TileType)
    ensures
        content_type(t) == (match t {
            TileType::Mvt => "application/x-protobuf"@,
            TileType::Png => "image/png"@,
            TileType::Jpeg => "image/jpeg"@,
            TileType::Webp => "image/webp"@,
            _ => "application/octet-stream"@,
        }),
        extension(t) == (match t {
            TileType::Mvt => "mvt"@,
            TileType::Png => "png"@,
            TileType::Jpeg => "jpg"@,
            TileType::Webp => "webp"@,
            _ => ""@,
        }),
        type_of_extension("pbf"@) == Some(TileType::Mvt),
        type_of_extension("jpeg"@) == Some(TileType::Jpeg),
{
    reveal_strlit("mvt");
    reveal_strlit("pbf");
    reveal_strlit("png");
    reveal_strlit("jpg");
    reveal_strlit("jpeg");
    assert("jpeg"@.len() == 4 && "png"@.len() == 3 && "mvt"@.len() == 3 && "pbf"@.len() == 3);
}

/// An extension stands for no kind of tiles but its own.
pub proof fn extension_has_one_kind(ext: Seq<char>)
    ensures
        match type_of_extension(ext) {
            Some(TileType::Mvt) => ext == "mvt"@ || ext == "pbf"@,
            Some(TileType::Png) => ext == "png"@,
            Some(TileType::Jpeg) => ext == "jpg"@ || ext == "jpeg"@,
            Some(TileType::Webp) => ext == "webp"@,
            Some(_) => false,
            None => ext != "mvt"@ && ext != "pbf"@ && ext != "png"@ && ext != "jpg"@ && ext
                != "jpeg"@ && ext != "webp"@,
        },
{
}

/// Every layer of a tile is decoded, in its place: it has the name and the
/// extent of its layer and the features of its list. Where a list is malformed
/// the tile is refused, for the first that is.
pub proof fn every_layer_is_assembled(
    metas: Seq<(usize, Seq<char>, u32)>,
    lists: Seq<Option<Seq<FeatureView>>>,
)
    requires
        metas.len() == lists.len(),
    ensures
        match assembled(metas, lists) {
            Ok(layers) => layers.len() == metas.len() && forall|i: int|
                0 <= i < metas.len() ==> {
                    let layer = #[trigger] layers[i];
                    &&& layer.name == metas[i].1
                    &&& layer.extent == metas[i].2
                    &&& lists[i] == Some(layer.features)
                },
            Err(e) => exists|i: int|
                0 <= i < metas.len() && (#[trigger] lists[i]) is None && e == DecodeError::Features(
                    metas[i].0,
                ) && forall|j: int| 0 <= j < i ==> (#[trigger] lists[j]) is Some,
        },
    decreases metas.len(),
{
    if metas.len() > 0 {
        let (m, l) = (metas.drop_last(), lists.drop_last());
        every_layer_is_assembled(m, l);
        match assembled(m, l) {
            Ok(front) => {
                if let Ok(layers) = assembled(metas, lists) {
                    assert forall|i: int| 0 <= i < metas.len() implies {
                        let layer = #[trigger] layers[i];
                        &&& layer.name == metas[i].1
                        &&& layer.extent == metas[i].2
                        &&& lists[i] == Some(layer.features)
                    } by {
                        if i < front.len() {
                            assert(layers[i] == front[i]);
                            assert(metas[i] == m[i] && lists[i] == l[i]);
                        }
                    }
                } else {
                    let i = metas.len() - 1;
                    assert(lists[i] is None);
                    assert forall|j: int| 0 <= j < i implies (#[trigger] lists[j]) is Some by {
                        assert(l[j] == Some(front[j].features));
                    }
                }
            },
            Err(e) => {
                let i = choose|i: int|
                    0 <= i < m.len() && (#[trigger] l[i]) is None && e == DecodeError::Features(
                        m[i].0,
                    ) && forall|j: int| 0 <= j < i ==> (#[trigger] l[j]) is Some;
                assert(lists[i] is None);
                assert(metas[i] == m[i]);
                assert forall|j: int| 0 <= j < i implies (#[trigger] lists[j]) is Some by {
                    assert(l[j] is Some);
                }
            },
        }
    }
}

/// A tile decodes to all of its layers, in order, each with all of its features,
/// and each feature with its own shape and names.
pub proof fn decoded_tile_is_whole(
    bytes: Seq<u8>,
    layers: Seq<DecodedLayerView>,
    reader: Reader,
    metas: Seq<(usize, Seq<char>, u32)>,
    i: int,
)
    requires
        decoded(bytes) == Ok::<_, DecodeError>(layers),
        reader_of(bytes) == Some(reader),
        reader_layers(reader) == Some(metas),
        0 <= i < metas.len(),
    ensures
        layers.len() == metas.len(),
        layers[i].name == metas[i].1,
        layers[i].extent == metas[i].2,
        reader_features(reader, metas[i].0) matches Some(raw) && raw.len()
            == layers[i].features.len() && forall|j: int|
            0 <= j < raw.len() ==> {
                let f = #[trigger] layers[i].features[j];
                &&& f.shape == raw[j].shape
                &&& raw[j].properties.contains_key("name"@) ==> f.name == Some(
                    raw[j].properties["name"@],
                )
                &&& !raw[j].properties.contains_key("name"@) ==> f.name is None
                &&& raw[j].properties.contains_key("name:en"@) ==> f.name_en == Some(
                    raw[j].properties["name:en"@],
                )
                &&& !raw[j].properties.contains_key("name:en"@) ==> f.name_en is None
            },
{
    let lists = kept_lists(reader, metas);
    every_layer_is_assembled(metas, lists);
    assert(lists[i] == kept_features(reader, metas[i].0));
    assert(lists[i] == Some(layers[i].features));
}

/// A tile that cannot be read as one is refused as a whole.
pub proof fn unreadable_tiles_are_refused(bytes: Seq<u8>)
    ensures
        decoded(bytes) == Err::<Seq<DecodedLayerView>, _>(DecodeError::Tile) <==> reader_of(
            bytes,
        ) is None,
        decoded(bytes) == Err::<Seq<DecodedLayerView>, _>(DecodeError::Layers) <==> (reader_of(
            bytes,
        ) matches Some(reader) && reader_layers(reader) is None),
{
    if let Some(reader) = reader_of(bytes) {
        if let Some(metas) = reader_layers(reader) {
            every_layer_is_assembled(metas, kept_lists(reader, metas));
        }
    }
}

/// The views of what is in a tile keep everything.
pub proof fn layers_are_kept(
    layers: Seq<DecodedLayer>,
    features: Seq<Feature>,
    lines: Seq<Vec<(i32, i32)>>,
    polygons: Seq<Vec<Vec<(i32, i32)>>>,
)
    ensures
        layer_views(layers).len() == layers.len(),
        forall|i: int|
            0 <= i < layers.len() ==> {
                let l = #[trigger] layer_views(layers)[i];
                &&& l.name == layers[i].name@
                &&& l.extent == layers[i].extent
                &&& l.features == feature_views(layers[i].features@)
            },
        feature_views(features).len() == features.len(),
        forall|i: int|
            0 <= i < features.len() ==> {
                let f = #[trigger] feature_views(features)[i];
                &&& f.shape == features[i].shape@
                &&& f.name == opt_property(features[i].name)
                &&& f.name_en == opt_property(features[i].name_en)
            },
        line_views(lines).len() == lines.len(),
        forall|i: int| 0 <= i < lines.len() ==> #[trigger] line_views(lines)[i] == lines[i]@,
        polygon_views(polygons).len() == polygons.len(),
        forall|i: int|
            0 <= i < polygons.len() ==> #[trigger] polygon_views(polygons)[i] == line_views(
                polygons[i]@,
            ),
{
}

} // verus!
