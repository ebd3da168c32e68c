//! The static map: what a request asks for, and how it is answered.

use crate::error::{Fault, ParamError};
use crate::etag;
use crate::number;
use crate::params;
use crate::params::{
    LatLon, MarkerGroup, MarkerGroupView, NumberTable, Numbers, PathSpec, PathSpecView,
    StyleOverride, StyleOverrideView,
};
use crate::query::QueryMap;
use crate::reply::{Body, BodyView, Reply, ReplyView};
use crate::text;
use vstd::hash_map::StringHashMap;
use vstd::prelude::*;
use vstd::string::*;

verus! {

// ---------------------------------------------------------------------------
// Size, scale, format and zoom
// ---------------------------------------------------------------------------

/// The greatest width and height of a map, before it is scaled.
pub const MAX_SIZE: u32 = 4096;

/// The greatest width and height of the image, so that it fits in memory.
pub const MAX_OUTPUT_DIM: u32 = 8192;

/// The greatest zoom that a request may ask for.
pub const MAX_ZOOM: u8 = 24;

/// The first value of a parameter.
pub open spec fn first_value(q: QueryMap, key: Seq<char>) -> Option<Seq<char>> {
    if q.values(key).len() > 0 {
        Some(q.values(key)[0])
    } else {
        None
    }
}

/// The width and height that a `WxH` text stands for. Further parts are
/// ignored.
pub open spec fn size(s: Seq<char>) -> Result<(u32, u32), Fault> {
    let parts = text::split(s, 'x');
    match number::unsigned(text::trim(parts[0]), u32::MAX as nat) {
        Err(cause) => Err(Fault::InvalidWidth { cause }),
        Ok(w) => if parts.len() < 2 {
            Err(Fault::MissingHeight)
        } else {
            match number::unsigned(text::trim(parts[1]), u32::MAX as nat) {
                Err(cause) => Err(Fault::InvalidHeight { cause }),
                Ok(h) => Ok((w as u32, h as u32)),
            }
        },
    }
}

/// Parses a `WxH` text.
pub fn parse_size(s: &str) -> (r: Result<(u32, u32), ParamError>)
    ensures
        match r {
            Ok(wh) => size(s@) == Ok::<_, Fault>(wh),
            Err(e) => size(s@) == Err::<(u32, u32), _>(e@),
        },
{
    let chars = text::to_chars(s);
    let parts = text::split_at_each(chars.as_slice(), 'x');
    proof {
        text::split_characterized(s@, 'x');
        assert(text::views(parts@)[0] == parts@[0]@);
        if parts@.len() > 1 {
            assert(text::views(parts@)[1] == parts@[1]@);
        }
    }
    let w = match number::parse_unsigned(text::trimmed(parts[0]), u32::MAX as u64) {
        Ok(w) => w as u32,
        Err(cause) => {
            return Err(ParamError::InvalidWidth { cause });
        },
    };
    if parts.len() < 2 {
        return Err(ParamError::MissingHeight);
    }
    match number::parse_unsigned(text::trimmed(parts[1]), u32::MAX as u64) {
        Ok(h) => Ok((w, h as u32)),
        Err(cause) => Err(ParamError::InvalidHeight { cause }),
    }
}

/// What an image is encoded as.
#[derive(Clone, Copy, Debug, PartialEq, Eq, Structural)]
pub enum Format {
    Png,
    Svg,
    Jpeg,
}

/// The format that a text names.
pub open spec fn format_named(s: Seq<char>) -> Result<Format, Fault> {
    if s == "png"@ {
        Ok(Format::Png)
    } else if s == "svg"@ {
        Ok(Format::Svg)
    } else if s == "jpeg"@ || s == "jpg"@ {
        Ok(Format::Jpeg)
    } else {
        Err(Fault::InvalidFormat { text: s })
    }
}

impl Format {
    /// The HTTP `Content-Type` of an image.
    pub fn content_type(self) -> (r: &'static str)
        ensures
            r@ == match self {
                Format::Png => "image/png"@,
                Format::Svg => "image/svg+xml"@,
                Format::Jpeg => "image/jpeg"@,
            },
    {
        match self {
            Format::Png => "image/png",
            Format::Svg => "image/svg+xml",
            Format::Jpeg => "image/jpeg",
        }
    }
}

/// The size of a map, and of the image that shows it.
#[derive(Clone, Copy, Debug, PartialEq, Eq, Structural)]
pub struct Dimensions {
    pub width: u32,
    pub height: u32,
    pub out_width: u32,
    pub out_height: u32,
}

impl Dimensions {
    /// Whether the sizes are in range, and the image is not smaller than the
    /// map.
    pub open spec fn valid(self) -> bool {
        &&& 1 <= self.width <= MAX_SIZE
        &&& 1 <= self.height <= MAX_SIZE
        &&& self.width <= self.out_width <= MAX_OUTPUT_DIM
        &&& self.height <= self.out_height <= MAX_OUTPUT_DIM
    }
}

/// The size of the map that a request asks for.
pub open spec fn map_size(q: QueryMap) -> Result<(u32, u32), Fault> {
    match first_value(q, "size"@) {
        None => Err(Fault::MissingSize),
        Some(s) => match size(s) {
            Err(e) => Err(e),
            Ok((w, h)) => if w == 0 || h == 0 || w > MAX_SIZE || h > MAX_SIZE {
                Err(Fault::SizeOutOfRange)
            } else {
                Ok((w, h))
            },
        },
    }
}

/// The scale that a request asks for: 1, 2 or 4, and 1 if it does not say.
pub open spec fn scale(q: QueryMap) -> Result<nat, Fault> {
    match first_value(q, "scale"@) {
        None => Ok(1),
        Some(s) => match number::unsigned(s, u32::MAX as nat) {
            Err(cause) => Err(Fault::InvalidScale { cause }),
            Ok(n) => if n == 1 || n == 2 || n == 4 {
                Ok(n)
            } else {
                Err(Fault::ScaleNotAllowed)
            },
        },
    }
}

/// The dimensions that a request asks for.
pub open spec fn dimensions(q: QueryMap) -> Result<Dimensions, Fault> {
    match map_size(q) {
        Err(e) => Err(e),
        Ok((width, height)) => match scale(q) {
            Err(e) => Err(e),
            Ok(n) => if width * n > MAX_OUTPUT_DIM || height * n > MAX_OUTPUT_DIM {
                Err(
                    Fault::OutputTooLarge {
                        width: (width * n) as u32,
                        height: (height * n) as u32,
                    },
                )
            } else {
                Ok(
                    Dimensions {
                        width,
                        height,
                        out_width: (width * n) as u32,
                        out_height: (height * n) as u32,
                    },
                )
            },
        },
    }
}

/// Reads the dimensions that a request asks for.
pub fn parse_dimensions(q: &QueryMap) -> (r: Result<Dimensions, ParamError>)
    ensures
        match r {
            Ok(d) => dimensions(*q) == Ok::<_, Fault>(d) && d.valid(),
            Err(e) => dimensions(*q) == Err::<Dimensions, _>(e@),
        },
{
    let (width, height) = match q.get_one("size") {
        None => {
            return Err(ParamError::MissingSize);
        },
        Some(s) => match parse_size(s) {
            Ok(wh) => wh,
            Err(e) => {
                return Err(e);
            },
        },
    };
    if width == 0 || height == 0 || width > MAX_SIZE || height > MAX_SIZE {
        return Err(ParamError::SizeOutOfRange);
    }
    let scale: u32 = match q.get_one("scale") {
        None => 1,
        Some(s) => {
            let chars = text::to_chars(s);
            match number::parse_unsigned(chars.as_slice(), u32::MAX as u64) {
                Ok(n) => n as u32,
                Err(cause) => {
                    return Err(ParamError::InvalidScale { cause });
                },
            }
        },
    };
    if scale != 1 && scale != 2 && scale != 4 {
        return Err(ParamError::ScaleNotAllowed);
    }
    assert(width <= width * scale <= 4 * 4096 && height <= height * scale <= 4 * 4096)
        by (nonlinear_arith)
        requires
            width <= 4096,
            height <= 4096,
            1 <= scale <= 4,
    ;
    let out_width: u32 = width * scale;
    let out_height: u32 = height * scale;
    if out_width > MAX_OUTPUT_DIM || out_height > MAX_OUTPUT_DIM {
        return Err(ParamError::OutputTooLarge { width: out_width, height: out_height });
    }
    Ok(Dimensions { width, height, out_width, out_height })
}

/// The format that a request asks for, PNG if it does not say.
pub open spec fn format(q: QueryMap) -> Result<Format, Fault> {
    match first_value(q, "format"@) {
        None => Ok(Format::Png),
        Some(s) => format_named(s),
    }
}

/// Reads the format that a request asks for.
pub fn parse_format(q: &QueryMap) -> (r: Result<Format, ParamError>)
    ensures
        match r {
            Ok(f) => format(*q) == Ok::<_, Fault>(f),
            Err(e) => format(*q) == Err::<Format, _>(e@),
        },
{
    match q.get_one("format") {
        None => Ok(Format::Png),
        Some(s) => {
            let chars = text::to_chars(s);
            let name = chars.as_slice();
            if text::is_text(name, "png") {
                Ok(Format::Png)
            } else if text::is_text(name, "svg") {
                Ok(Format::Svg)
            } else if text::is_text(name, "jpeg") || text::is_text(name, "jpg") {
                Ok(Format::Jpeg)
            } else {
                Err(ParamError::InvalidFormat { text: s.to_owned() })
            }
        },
    }
}

/// The center that a request asks for, if it does.
pub open spec fn center(q: QueryMap, n: NumberTable) -> Result<Option<LatLon>, Fault> {
    match first_value(q, "center"@) {
        None => Ok(None),
        Some(s) => match params::latlon(s, n) {
            Ok(p) => Ok(Some(p)),
            Err(e) => Err(e),
        },
    }
}

/// Reads the center that a request asks for.
pub fn parse_center(q: &QueryMap, numbers: &Numbers) -> (r: Result<Option<LatLon>, ParamError>)
    ensures
        match r {
            Ok(c) => center(*q, numbers@) == Ok::<_, Fault>(c) && (c matches Some(p)
                ==> p.valid()),
            Err(e) => center(*q, numbers@) == Err::<Option<LatLon>, _>(e@),
        },
{
    match q.get_one("center") {
        None => Ok(None),
        Some(s) => match params::parse_latlon(s, numbers) {
            Ok(p) => Ok(Some(p)),
            Err(e) => Err(e),
        },
    }
}

/// The zoom that a request asks for, if it does.
pub open spec fn zoom(q: QueryMap) -> Result<Option<u8>, Fault> {
    match first_value(q, "zoom"@) {
        None => Ok(None),
        Some(s) => match number::unsigned(s, u8::MAX as nat) {
            Err(cause) => Err(Fault::InvalidZoom { cause }),
            Ok(z) => if z > MAX_ZOOM {
                Err(Fault::ZoomTooLarge)
            } else {
                Ok(Some(z as u8))
            },
        },
    }
}

/// Reads the zoom that a request asks for.
pub fn parse_zoom(q: &QueryMap) -> (r: Result<Option<u8>, ParamError>)
    ensures
        match r {
            Ok(z) => zoom(*q) == Ok::<_, Fault>(z) && (z matches Some(z) ==> z <= MAX_ZOOM),
            Err(e) => zoom(*q) == Err::<Option<u8>, _>(e@),
        },
{
    match q.get_one("zoom") {
        None => Ok(None),
        Some(s) => {
            let chars = text::to_chars(s);
            match number::parse_unsigned(chars.as_slice(), u8::MAX as u64) {
                Err(cause) => Err(ParamError::InvalidZoom { cause }),
                Ok(z) => if z > MAX_ZOOM as u64 {
                    Err(ParamError::ZoomTooLarge)
                } else {
                    Ok(Some(z as u8))
                },
            }
        },
    }
}

// ---------------------------------------------------------------------------
// The request
// ---------------------------------------------------------------------------

/// Which part of the world a map shows.
pub enum Plan {
    /// The given center at the given zoom.
    At { center: LatLon, zoom: u8 },
    /// The given zoom, centered on points.
    CenterOn { points: Vec<LatLon>, zoom: u8 },
    /// The given center, at the greatest zoom at which all points show.
    FitAt { center: LatLon, points: Vec<LatLon> },
    /// All points.
    Fit { points: Vec<LatLon> },
}

/// A [`Plan`] with its points as a sequence.
pub enum PlanView {
    At { center: LatLon, zoom: u8 },
    CenterOn { points: Seq<LatLon>, zoom: u8 },
    FitAt { center: LatLon, points: Seq<LatLon> },
    Fit { points: Seq<LatLon> },
}

impl View for Plan {
    type V = PlanView;

    open spec fn view(&self) -> PlanView {
        match *self {
            Plan::At { center, zoom } => PlanView::At { center, zoom },
            Plan::CenterOn { points, zoom } => PlanView::CenterOn { points: points@, zoom },
            Plan::FitAt { center, points } => PlanView::FitAt { center, points: points@ },
            Plan::Fit { points } => PlanView::Fit { points: points@ },
        }
    }
}

impl PlanView {
    /// Whether all points are on the map, there is a point to fit, and the
    /// zoom is not too great.
    pub open spec fn valid(self) -> bool {
        match self {
            PlanView::At { center, zoom } => center.valid() && zoom <= MAX_ZOOM,
            PlanView::CenterOn { points, zoom } => points.len() > 0 && params::all_valid(points)
                && zoom <= MAX_ZOOM,
            PlanView::FitAt { center, points } => center.valid() && points.len() > 0
                && params::all_valid(points),
            PlanView::Fit { points } => points.len() > 0 && params::all_valid(points),
        }
    }
}

/// The points of all marker groups.
pub open spec fn marker_points(groups: Seq<MarkerGroupView>) -> Seq<LatLon>
    decreases groups.len(),
{
    if groups.len() == 0 {
        Seq::empty()
    } else {
        marker_points(groups.drop_last()) + groups.last().points
    }
}

/// The points of all paths.
pub open spec fn path_points(paths: Seq<PathSpecView>) -> Seq<LatLon>
    decreases paths.len(),
{
    if paths.len() == 0 {
        Seq::empty()
    } else {
        path_points(paths.drop_last()) + paths.last().points
    }
}

/// An optional point as a list.
pub open spec fn opt_point(p: Option<LatLon>) -> Seq<LatLon> {
    match p {
        Some(p) => seq![p],
        None => Seq::empty(),
    }
}

/// The points that a map without a fixed viewport has to show: those to keep
/// visible, the center, the markers and the paths.
pub open spec fn fit_points(
    visible: Seq<LatLon>,
    center: Option<LatLon>,
    groups: Seq<MarkerGroupView>,
    paths: Seq<PathSpecView>,
) -> Seq<LatLon> {
    visible + opt_point(center) + marker_points(groups) + path_points(paths)
}

/// A viewport that is fit is fit to everything that the request shows: each
/// visible point, the center, and each point of a marker group and of a path.
pub proof fn every_point_is_fit(
    visible: Seq<LatLon>,
    center: Option<LatLon>,
    groups: Seq<MarkerGroupView>,
    paths: Seq<PathSpecView>,
)
    ensures
        ({
            let all = fit_points(visible, center, groups, paths);
            &&& forall|i: int| 0 <= i < visible.len() ==> all.contains(#[trigger] visible[i])
            &&& center matches Some(c) ==> all.contains(c)
            &&& forall|i: int, j: int|
                0 <= i < groups.len() && 0 <= j < groups[i].points.len() ==> all.contains(
                    #[trigger] groups[i].points[j],
                )
            &&& forall|i: int, j: int|
                0 <= i < paths.len() && 0 <= j < paths[i].points.len() ==> all.contains(
                    #[trigger] paths[i].points[j],
                )
        }),
{
    let all = fit_points(visible, center, groups, paths);
    let m = (visible + opt_point(center)).len();
    let k = m + marker_points(groups).len();
    assert forall|i: int| 0 <= i < visible.len() implies all.contains(#[trigger] visible[i]) by {
        assert(all[i] == visible[i]);
    }
    if let Some(c) = center {
        assert(all[visible.len() as int] == c);
    }
    assert forall|i: int, j: int|
        0 <= i < groups.len() && 0 <= j < groups[i].points.len() implies all.contains(
        #[trigger] groups[i].points[j],
    ) by {
        let n = marker_point_at(groups, i, j);
        assert(all[m + n] == groups[i].points[j]);
    }
    assert forall|i: int, j: int|
        0 <= i < paths.len() && 0 <= j < paths[i].points.len() implies all.contains(
        #[trigger] paths[i].points[j],
    ) by {
        let n = path_point_at(paths, i, j);
        assert(all[k + n] == paths[i].points[j]);
    }
}

/// Where a point of a marker group stands among those of all.
proof fn marker_point_at(groups: Seq<MarkerGroupView>, i: int, j: int) -> (n: int)
    requires
        0 <= i < groups.len(),
        0 <= j < groups[i].points.len(),
    ensures
        0 <= n < marker_points(groups).len(),
        marker_points(groups)[n] == groups[i].points[j],
    decreases groups.len(),
{
    let front = marker_points(groups.drop_last());
    if i < groups.len() - 1 {
        assert(groups.drop_last()[i] == groups[i]);
        marker_point_at(groups.drop_last(), i, j)
    } else {
        front.len() + j
    }
}

/// Where a point of a path stands among those of all.
proof fn path_point_at(paths: Seq<PathSpecView>, i: int, j: int) -> (n: int)
    requires
        0 <= i < paths.len(),
        0 <= j < paths[i].points.len(),
    ensures
        0 <= n < path_points(paths).len(),
        path_points(paths)[n] == paths[i].points[j],
    decreases paths.len(),
{
    let front = path_points(paths.drop_last());
    if i < paths.len() - 1 {
        assert(paths.drop_last()[i] == paths[i]);
        path_point_at(paths.drop_last(), i, j)
    } else {
        front.len() + j
    }
}

/// Which part of the world a map shows: what the request says of the center
/// and of the zoom stands, and the rest is fit to the points. Without a point
/// there is nothing to fit.
pub open spec fn plan(
    center: Option<LatLon>,
    zoom: Option<u8>,
    points: Seq<LatLon>,
) -> Result<PlanView, Fault> {
    match (center, zoom) {
        (Some(center), Some(zoom)) => Ok(PlanView::At { center, zoom }),
        _ => if points.len() == 0 {
            Err(Fault::NothingToFit)
        } else {
            match (center, zoom) {
                (None, Some(zoom)) => Ok(PlanView::CenterOn { points, zoom }),
                (Some(center), None) => Ok(PlanView::FitAt { center, points }),
                _ => Ok(PlanView::Fit { points }),
            }
        },
    }
}

/// What a request says of the center and of the zoom stands, whatever the
/// points are.
pub proof fn given_viewport_stands(
    center: Option<LatLon>,
    zoom: Option<u8>,
    points: Seq<LatLon>,
    p: PlanView,
)
    requires
        plan(center, zoom, points) == Ok::<_, Fault>(p),
    ensures
        center is Some <==> p is At || p is FitAt,
        zoom is Some <==> p is At || p is CenterOn,
        match p {
            PlanView::At { center: c, zoom: z } => center == Some(c) && zoom == Some(z),
            PlanView::CenterOn { points: q, zoom: z } => zoom == Some(z) && q == points,
            PlanView::FitAt { center: c, points: q } => center == Some(c) && q == points,
            PlanView::Fit { points: q } => q == points,
        },
{
}

/// What a request asks for.
pub struct MapRequest {
    pub dimensions: Dimensions,
    pub format: Format,
    pub marker_groups: Vec<MarkerGroup>,
    pub paths: Vec<PathSpec>,
    pub overrides: StringHashMap<StyleOverride>,
    pub plan: Plan,
}

/// A [`MapRequest`] with its contents as sequences.
pub struct MapRequestView {
    pub dimensions: Dimensions,
    pub format: Format,
    pub marker_groups: Seq<MarkerGroupView>,
    pub paths: Seq<PathSpecView>,
    pub overrides: Map<Seq<char>, StyleOverrideView>,
    pub plan: PlanView,
}

impl View for MapRequest {
    type V = MapRequestView;

    open spec fn view(&self) -> MapRequestView {
        MapRequestView {
            dimensions: self.dimensions,
            format: self.format,
            marker_groups: params::group_views(self.marker_groups@),
            paths: params::path_views(self.paths@),
            overrides: params::override_views(self.overrides@),
            plan: self.plan@,
        }
    }
}

impl MapRequestView {
    /// Whether the sizes are in range, all coordinates are on the map, and all
    /// weights are finite numbers from 0 to 1000.
    pub open spec fn valid(self) -> bool {
        &&& self.dimensions.valid()
        &&& groups_valid(self.marker_groups)
        &&& paths_valid(self.paths)
        &&& overrides_valid(self.overrides)
        &&& self.plan.valid()
    }
}

/// Whether all markers are on the map.
pub open spec fn groups_valid(groups: Seq<MarkerGroupView>) -> bool {
    forall|i: int| 0 <= i < groups.len() ==> params::all_valid((#[trigger] groups[i]).points)
}

/// Whether all paths are on the map and have weights in range.
pub open spec fn paths_valid(paths: Seq<PathSpecView>) -> bool {
    forall|i: int| 0 <= i < paths.len() ==> (#[trigger] paths[i]).valid()
}

/// Whether all overrides have weights in range.
pub open spec fn overrides_valid(overrides: Map<Seq<char>, StyleOverrideView>) -> bool {
    forall|feature: Seq<char>| #[trigger]
        overrides.contains_key(feature) ==> overrides[feature].valid()
}

/// What a request draws over the map, and the points that it keeps visible.
struct Overlay {
    marker_groups: Vec<MarkerGroup>,
    paths: Vec<PathSpec>,
    overrides: StringHashMap<StyleOverride>,
    visible: Vec<LatLon>,
}

/// What a request draws over the map, and the points that it keeps visible.
pub struct OverlayView {
    pub marker_groups: Seq<MarkerGroupView>,
    pub paths: Seq<PathSpecView>,
    pub overrides: Map<Seq<char>, StyleOverrideView>,
    pub visible: Seq<LatLon>,
}

impl View for Overlay {
    type V = OverlayView;

    closed spec fn view(&self) -> OverlayView {
        OverlayView {
            marker_groups: params::group_views(self.marker_groups@),
            paths: params::path_views(self.paths@),
            overrides: params::override_views(self.overrides@),
            visible: self.visible@,
        }
    }
}

impl OverlayView {
    /// Whether all points are on the map and all weights are in range.
    pub open spec fn valid(self) -> bool {
        &&& groups_valid(self.marker_groups)
        &&& paths_valid(self.paths)
        &&& overrides_valid(self.overrides)
        &&& params::all_valid(self.visible)
    }
}

/// What a request draws over the map, and what it keeps visible. The markers
/// are read first, then the paths, the styles and the visible points; the
/// first error ends it.
pub open spec fn overlay(q: QueryMap, n: NumberTable) -> Result<OverlayView, Fault> {
    match params::marker_groups(q.values("markers"@), n) {
        Err(e) => Err(e),
        Ok(marker_groups) => match params::path_specs(q.values("path"@), n) {
            Err(e) => Err(e),
            Ok(paths) => match params::style_overrides(q.values("style"@), n) {
                Err(e) => Err(e),
                Ok(overrides) => match params::visible(q.values("visible"@), n) {
                    Err(e) => Err(e),
                    Ok(visible) => Ok(OverlayView { marker_groups, paths, overrides, visible }),
                },
            },
        },
    }
}

/// What a request asks for. Its parameters are read in a fixed order, and the
/// first error ends it.
pub open spec fn request(q: QueryMap, n: NumberTable) -> Result<MapRequestView, Fault> {
    match dimensions(q) {
        Err(e) => Err(e),
        Ok(dimensions) => match format(q) {
            Err(e) => Err(e),
            Ok(format) => match center(q, n) {
                Err(e) => Err(e),
                Ok(center) => match zoom(q) {
                    Err(e) => Err(e),
                    Ok(zoom) => match overlay(q, n) {
                        Err(e) => Err(e),
                        Ok(o) => match plan(
                            center,
                            zoom,
                            fit_points(o.visible, center, o.marker_groups, o.paths),
                        ) {
                            Err(e) => Err(e),
                            Ok(plan) => Ok(
                                MapRequestView {
                                    dimensions,
                                    format,
                                    marker_groups: o.marker_groups,
                                    paths: o.paths,
                                    overrides: o.overrides,
                                    plan,
                                },
                            ),
                        },
                    },
                },
            },
        },
    }
}

/// Appends points.
fn add_points(out: &mut Vec<LatLon>, points: &[LatLon])
    requires
        params::all_valid(old(out)@),
        params::all_valid(points@),
    ensures
        final(out)@ == old(out)@ + points@,
        params::all_valid(final(out)@),
{
    let ghost start = out@;
    let mut i: usize = 0;
    assert(start + points@.take(0) =~= start);
    while i < points.len()
        invariant
            i <= points@.len(),
            out@ == start + points@.take(i as int),
            params::all_valid(out@),
            params::all_valid(points@),
        decreases points@.len() - i,
    {
        out.push(points[i]);
        assert(points@.take(i + 1) =~= points@.take(i as int).push(points@[i as int]));
        assert(start + points@.take(i + 1) =~= (start + points@.take(i as int)).push(
            points@[i as int],
        ));
        i += 1;
    }
    assert(points@.take(i as int) =~= points@);
}

/// Collects the points that a map without a fixed viewport has to show.
fn collect_points(
    visible: Vec<LatLon>,
    center: Option<LatLon>,
    groups: &[MarkerGroup],
    paths: &[PathSpec],
) -> (r: Vec<LatLon>)
    requires
        params::all_valid(visible@),
        center matches Some(c) ==> c.valid(),
        groups_valid(params::group_views(groups@)),
        paths_valid(params::path_views(paths@)),
    ensures
        r@ == fit_points(
            visible@,
            center,
            params::group_views(groups@),
            params::path_views(paths@),
        ),
        params::all_valid(r@),
{
    let mut r = visible;
    if let Some(c) = center {
        r.push(c);
    }
    let ghost start = visible@ + opt_point(center);
    assert(r@ =~= start);
    let ghost all = params::group_views(groups@);
    let mut i: usize = 0;
    assert(all.take(0) =~= Seq::empty());
    assert(start + marker_points(all.take(0)) =~= start);
    while i < groups.len()
        invariant
            i <= groups@.len(),
            all == params::group_views(groups@),
            r@ == start + marker_points(all.take(i as int)),
            params::all_valid(r@),
            groups_valid(all),
        decreases groups@.len() - i,
    {
        assert(all.take(i + 1).drop_last() =~= all.take(i as int));
        assert(all.take(i + 1).last() == all[i as int]);
        add_points(&mut r, groups[i].points.as_slice());
        assert(r@ =~= start + marker_points(all.take(i + 1)));
        i += 1;
    }
    assert(all.take(i as int) =~= all);
    let ghost middle = r@;
    let ghost all = params::path_views(paths@);
    let mut i: usize = 0;
    assert(all.take(0) =~= Seq::empty());
    assert(middle + path_points(all.take(0)) =~= middle);
    while i < paths.len()
        invariant
            i <= paths@.len(),
            all == params::path_views(paths@),
            r@ == middle + path_points(all.take(i as int)),
            params::all_valid(r@),
            paths_valid(all),
        decreases paths@.len() - i,
    {
        assert(all.take(i + 1).drop_last() =~= all.take(i as int));
        assert(all.take(i + 1).last() == all[i as int]);
        add_points(&mut r, paths[i].points.as_slice());
        assert(r@ =~= middle + path_points(all.take(i + 1)));
        i += 1;
    }
    assert(all.take(i as int) =~= all);
    r
}

/// Chooses which part of the world a map shows.
pub fn choose_plan(center: Option<LatLon>, zoom: Option<u8>, points: Vec<LatLon>) -> (r: Result<
    Plan,
    ParamError,
>)
    ensures
        params::outcome(r) == plan(center, zoom, points@),
{
    match (center, zoom) {
        (Some(center), Some(zoom)) => Ok(Plan::At { center, zoom }),
        (c, z) => {
            if points.len() == 0 {
                return Err(ParamError::NothingToFit);
            }
            match (c, z) {
                (None, Some(zoom)) => Ok(Plan::CenterOn { points, zoom }),
                (Some(center), None) => Ok(Plan::FitAt { center, points }),
                _ => Ok(Plan::Fit { points }),
            }
        },
    }
}

/// Reads what a request draws over the map.
fn parse_overlay(q: &QueryMap, numbers: &Numbers) -> (r: Result<Overlay, ParamError>)
    ensures
        params::outcome(r) == overlay(*q, numbers@),
        r matches Ok(o) ==> o@.valid(),
{
    let marker_groups = match params::parse_marker_groups(q.get_all("markers"), numbers) {
        Ok(g) => g,
        Err(e) => {
            return Err(e);
        },
    };
    let paths = match params::parse_path_specs(q.get_all("path"), numbers) {
        Ok(p) => p,
        Err(e) => {
            return Err(e);
        },
    };
    let overrides = match params::parse_style_overrides(q.get_all("style"), numbers) {
        Ok(o) => o,
        Err(e) => {
            return Err(e);
        },
    };
    let visible = match params::parse_visible(q.get_all("visible"), numbers) {
        Ok(v) => v,
        Err(e) => {
            return Err(e);
        },
    };
    let o = Overlay { marker_groups, paths, overrides, visible };
    assert(o@.valid()) by {
        assert forall|i: int| 0 <= i < o@.marker_groups.len() implies params::all_valid(
            (#[trigger] o@.marker_groups[i]).points,
        ) by {
            assert(o@.marker_groups[i] == o.marker_groups@[i]@);
        }
        assert forall|i: int| 0 <= i < o@.paths.len() implies (#[trigger] o@.paths[i]).valid() by {
            assert(o@.paths[i] == o.paths@[i]@);
        }
        assert forall|feature: Seq<char>| #[trigger]
            o@.overrides.contains_key(feature) implies o@.overrides[feature].valid() by {
            assert(o.overrides@.contains_key(feature));
        }
    }
    Ok(o)
}

/// Reads what a request asks for.
pub fn parse_request(q: &QueryMap, numbers: &Numbers) -> (r: Result<MapRequest, ParamError>)
    ensures
        params::outcome(r) == request(*q, numbers@),
        r matches Ok(m) ==> m@.valid(),
{
    let dimensions = match parse_dimensions(q) {
        Ok(d) => d,
        Err(e) => {
            return Err(e);
        },
    };
    let format = match parse_format(q) {
        Ok(f) => f,
        Err(e) => {
            return Err(e);
        },
    };
    let center = match parse_center(q, numbers) {
        Ok(c) => c,
        Err(e) => {
            return Err(e);
        },
    };
    let zoom = match parse_zoom(q) {
        Ok(z) => z,
        Err(e) => {
            return Err(e);
        },
    };
    let o = match parse_overlay(q, numbers) {
        Ok(o) => o,
        Err(e) => {
            return Err(e);
        },
    };
    let points = collect_points(
        o.visible,
        center,
        o.marker_groups.as_slice(),
        o.paths.as_slice(),
    );
    match choose_plan(center, zoom, points) {
        Ok(plan) => Ok(
            MapRequest {
                dimensions,
                format,
                marker_groups: o.marker_groups,
                paths: o.paths,
                overrides: o.overrides,
                plan,
            },
        ),
        Err(e) => Err(e),
    }
}

// ---------------------------------------------------------------------------
// Caching
// ---------------------------------------------------------------------------

/// How long a complete image may be kept. It is determined by the request and
/// the tiles, which do not change.
pub open spec fn long_caching() -> Seq<char> {
    "public, max-age=86400, s-maxage=604800, immutable"@
}

/// Why a request has no source of tiles.
#[derive(Clone, Copy, Debug, PartialEq, Eq, Structural)]
pub enum SourceError {
    /// The request names a source, which it may not.
    ParamNotAllowed,
    /// The request names none, and no default is set.
    NotConfigured,
}

impl SourceError {
    /// The HTTP status of the response.
    pub fn status(self) -> (r: u16)
        ensures
            r == match self {
                SourceError::ParamNotAllowed => 403u16,
                SourceError::NotConfigured => 500u16,
            },
    {
        match self {
            SourceError::ParamNotAllowed => 403,
            SourceError::NotConfigured => 500,
        }
    }

    /// The body of the response.
    pub fn message(self) -> (r: &'static str)
        ensures
            r@ == match self {
                SourceError::ParamNotAllowed => "the 'pmtiles' parameter is not allowed"@,
                SourceError::NotConfigured => "PMTILES_URL is not configured"@,
            },
    {
        match self {
            SourceError::ParamNotAllowed => "the 'pmtiles' parameter is not allowed",
            SourceError::NotConfigured => "PMTILES_URL is not configured",
        }
    }
}

/// The source of tiles: the one that the request names, where it may, or else
/// the default.
pub open spec fn source_for(
    param: Option<Seq<char>>,
    default: Option<Seq<char>>,
    allowed: bool,
) -> Result<Seq<char>, SourceError> {
    match (param, default) {
        (Some(p), _) => if allowed {
            Ok(p)
        } else {
            Err(SourceError::ParamNotAllowed)
        },
        (None, Some(d)) => Ok(d),
        (None, None) => Err(SourceError::NotConfigured),
    }
}

/// The view of a chosen source.
pub open spec fn source_view(source: Result<&str, SourceError>) -> Result<Seq<char>, SourceError> {
    match source {
        Ok(s) => Ok(s@),
        Err(e) => Err(e),
    }
}

/// Chooses the source of tiles. A request may name one only where that is
/// allowed; it could be any file or address that the server can reach.
pub fn choose_source<'a>(param: Option<&'a str>, default: Option<&'a str>, allowed: bool) -> (r:
    Result<&'a str, SourceError>)
    ensures
        source_view(r) == source_for(text::opt_str(param), text::opt_str(default), allowed),
{
    match param {
        Some(p) => if allowed {
            Ok(p)
        } else {
            Err(SourceError::ParamNotAllowed)
        },
        None => match default {
            Some(d) => Ok(d),
            None => Err(SourceError::NotConfigured),
        },
    }
}

/// How a request begins.
#[derive(Debug)]
pub enum Opening {
    /// There is no source of tiles that it may use.
    NoSource { error: SourceError },
    /// The client has the image already.
    NotModified { reply: Reply },
    /// The image has to be made; it will have this entity tag.
    Render { source: String, etag: String },
}

/// An [`Opening`] with its texts as character sequences.
pub enum OpeningView {
    NoSource { error: SourceError },
    NotModified { reply: ReplyView },
    Render { source: Seq<char>, etag: Seq<char> },
}

impl View for Opening {
    type V = OpeningView;

    open spec fn view(&self) -> OpeningView {
        match *self {
            Opening::NoSource { error } => OpeningView::NoSource { error },
            Opening::NotModified { reply } => OpeningView::NotModified { reply: reply@ },
            Opening::Render { source, etag } => OpeningView::Render {
                source: source@,
                etag: etag@,
            },
        }
    }
}

/// The answer to a client that has the image already: no body, but the tag and
/// the caching that the image itself would have.
pub open spec fn not_modified(tag: Seq<char>) -> ReplyView {
    ReplyView {
        status: 304,
        content_type: None,
        cache_control: Some(long_caching()),
        etag: Some(tag),
        body: BodyView::Empty,
    }
}

/// How a request begins whose image would have the entity tag `tag`, given the
/// tag of the image that the client holds, if any.
pub open spec fn opening(
    source: Result<Seq<char>, SourceError>,
    tag: Seq<char>,
    held: Option<Seq<char>>,
) -> OpeningView {
    match source {
        Err(error) => OpeningView::NoSource { error },
        Ok(source) => if held == Some(tag) {
            OpeningView::NotModified { reply: not_modified(tag) }
        } else {
            OpeningView::Render { source, etag: tag }
        },
    }
}

/// The entity tag of the image that a query asks for, out of a source.
pub open spec fn image_tag(query: Seq<char>, source: Seq<char>) -> Seq<char> {
    etag::tag_of(etag::request_hash(query, source))
}

/// Begins a request whose image would have the entity tag `tag`.
pub fn open_with_tag(
    source: Result<&str, SourceError>,
    tag: String,
    held: Option<&str>,
) -> (r: Opening)
    ensures
        r@ == opening(source_view(source), tag@, text::opt_str(held)),
{
    let source = match source {
        Ok(s) => s,
        Err(error) => {
            return Opening::NoSource { error };
        },
    };
    if let Some(h) = held {
        let a = text::to_chars(h);
        if text::is_text(a.as_slice(), tag.as_str()) {
            return Opening::NotModified {
                reply: Reply {
                    status: 304,
                    content_type: None,
                    cache_control: Some(
                        "public, max-age=86400, s-maxage=604800, immutable".to_owned(),
                    ),
                    etag: Some(tag),
                    body: Body::Empty,
                },
            };
        }
    }
    Opening::Render { source: source.to_owned(), etag: tag }
}

/// Begins a request: without a source of tiles that it may use it fails, a
/// client that holds the image is told so, and otherwise the image has to be
/// made. `qm` holds the parameters of `query`.
pub fn begin(
    qm: &QueryMap,
    query: &str,
    default: Option<&str>,
    allowed: bool,
    held: Option<&str>,
) -> (r: Opening)
    ensures
        match source_for(first_value(*qm, "pmtiles"@), text::opt_str(default), allowed) {
            Ok(s) => r@ == opening(Ok(s), image_tag(query@, s), text::opt_str(held)),
            Err(error) => r@ == (OpeningView::NoSource { error }),
        },
{
    let source = choose_source(qm.get_one("pmtiles"), default, allowed);
    let tag = match source {
        Ok(s) => etag::etag_for_request(query, s),
        Err(_) => String::new(),
    };
    open_with_tag(source, tag, held)
}

/// Where requests may not name a source, one that does is refused, whatever
/// else it asks for; any other is served from the default.
pub proof fn source_is_fixed(
    param: Option<Seq<char>>,
    default: Seq<char>,
    tag: Seq<char>,
    held: Option<Seq<char>>,
)
    ensures
        param is Some ==> opening(source_for(param, Some(default), false), tag, held) == (
        OpeningView::NoSource { error: SourceError::ParamNotAllowed }),
        param is None ==> source_for(param, Some(default), false) == Ok::<_, SourceError>(default),
{
}

/// The answer with an image. If a tile could not be read the image may be
/// incomplete: then it has no tag and must not be stored.
pub open spec fn image_reply(
    format: Format,
    image: Seq<u8>,
    incomplete: bool,
    tag: Seq<char>,
) -> ReplyView {
    ReplyView {
        status: 200,
        content_type: Some(
            match format {
                Format::Png => "image/png"@,
                Format::Svg => "image/svg+xml"@,
                Format::Jpeg => "image/jpeg"@,
            },
        ),
        cache_control: Some(
            if incomplete {
                "no-store"@
            } else {
                long_caching()
            },
        ),
        etag: if incomplete {
            None
        } else {
            Some(tag)
        },
        body: BodyView::Bytes(image),
    }
}

/// Answers with an image.
pub fn reply_with_image(format: Format, image: Vec<u8>, incomplete: bool, tag: String) -> (r: Reply)
    ensures
        r@ == image_reply(format, image@, incomplete, tag@),
{
    Reply {
        status: 200,
        content_type: Some(format.content_type().to_owned()),
        cache_control: Some(
            if incomplete {
                "no-store".to_owned()
            } else {
                "public, max-age=86400, s-maxage=604800, immutable".to_owned()
            },
        ),
        etag: if incomplete {
            None
        } else {
            Some(tag)
        },
        body: Body::Bytes(image),
    }
}

/// A client that sends back the tag of a complete image, with the same query
/// to the same source, is told that it has not changed, and may keep it as long
/// as before.
pub proof fn tag_leads_to_not_modified(
    format: Format,
    image: Seq<u8>,
    query: Seq<char>,
    source: Seq<char>,
)
    ensures
        ({
            let tag = image_tag(query, source);
            let sent = image_reply(format, image, false, tag);
            &&& opening(Ok(source), tag, sent.etag) == (OpeningView::NotModified {
                reply: not_modified(tag),
            })
            &&& not_modified(tag).etag == sent.etag
            &&& not_modified(tag).cache_control == sent.cache_control
        }),
{
}

/// A client that holds an image with another tag gets the image made anew.
pub proof fn other_tag_leads_to_render(
    query: Seq<char>,
    source: Seq<char>,
    old_query: Seq<char>,
    old_source: Seq<char>,
)
    requires
        etag::request_hash(query, source) != etag::request_hash(old_query, old_source),
    ensures
        opening(Ok(source), image_tag(query, source), Some(image_tag(old_query, old_source))) == (
        OpeningView::Render { source, etag: image_tag(query, source) }),
{
    etag::tags_differ(
        etag::request_hash(query, source),
        etag::request_hash(old_query, old_source),
    );
}

/// An image that may be incomplete has no tag to send back, and is not stored.
pub proof fn incomplete_image_is_not_kept(format: Format, image: Seq<u8>, tag: Seq<char>)
    ensures
        image_reply(format, image, true, tag).etag is None,
        image_reply(format, image, true, tag).cache_control == Some("no-store"@),
{
}

/// An accepted image can be allocated: the bytes of its pixels can be counted
/// on every machine.
pub proof fn accepted_image_fits(d: Dimensions)
    requires
        d.valid(),
    ensures
        4 * d.out_width * d.out_height <= isize::MAX,
        crate::raster::pixmap_fits(d.out_width, d.out_height),
{
    assert(4 * d.out_width * d.out_height <= 4 * 8192 * 8192) by (nonlinear_arith)
        requires
            d.out_width <= 8192,
            d.out_height <= 8192,
    ;
}

/// Finds the length of the longest route, if there is a route: a path of two
/// points or more. `points` says how many points each path has, and `meters`
/// how long it is.
pub fn route_length(points: &[usize], meters: &[u64]) -> (r: Option<u64>)
    requires
        points@.len() == meters@.len(),
    ensures
        match r {
            Some(m) => {
                &&& exists|i: int| 0 <= i < points@.len() && points@[i] >= 2 && meters@[i] == m
                &&& forall|i: int|
                    0 <= i < points@.len() && points@[i] >= 2 ==> meters@[i] <= m
            },
            None => forall|i: int| 0 <= i < points@.len() ==> points@[i] < 2,
        },
{
    let mut longest: Option<u64> = None;
    let mut i: usize = 0;
    while i < points.len()
        invariant
            i <= points@.len() == meters@.len(),
            match longest {
                Some(m) => {
                    &&& exists|j: int| 0 <= j < i && points@[j] >= 2 && meters@[j] == m
                    &&& forall|j: int| 0 <= j < i && points@[j] >= 2 ==> meters@[j] <= m
                },
                None => forall|j: int| 0 <= j < i ==> points@[j] < 2,
            },
        decreases points@.len() - i,
    {
        if points[i] >= 2 {
            longest = match longest {
                Some(m) => if m < meters[i] {
                    Some(meters[i])
                } else {
                    Some(m)
                },
                None => Some(meters[i]),
            };
        }
        i += 1;
    }
    longest
}

// ---------------------------------------------------------------------------
// What holds of every request
// ---------------------------------------------------------------------------

/// The image is the map times the scale, in both directions. A request is
/// accepted exactly where its size and scale are and neither side of the image
/// has more than 8192 pixels.
pub proof fn image_is_map_times_scale(q: QueryMap)
    ensures
        dimensions(q) matches Ok(d) ==> {
            &&& map_size(q) == Ok::<_, Fault>((d.width, d.height))
            &&& scale(q) matches Ok(n)
            &&& n == 1 || n == 2 || n == 4
            &&& d.out_width == d.width * n
            &&& d.out_height == d.height * n
            &&& 1 <= d.width <= 4096
            &&& 1 <= d.height <= 4096
            &&& d.out_width <= 8192
            &&& d.out_height <= 8192
        },
        match (map_size(q), scale(q)) {
            (Ok((w, h)), Ok(n)) => if w * n <= 8192 && h * n <= 8192 {
                dimensions(q) is Ok
            } else {
                dimensions(q) matches Err(Fault::OutputTooLarge { width, height }) && width == w * n
                    && height == h * n
            },
            (Err(e), _) => dimensions(q) == Err::<Dimensions, Fault>(e),
            (_, Err(e)) => dimensions(q) == Err::<Dimensions, Fault>(e),
        },
{
    if let (Ok((w, h)), Ok(n)) = (map_size(q), scale(q)) {
        assert(w * n <= 4096 * 4 && h * n <= 4096 * 4) by (nonlinear_arith)
            requires
                0 <= w <= 4096,
                0 <= h <= 4096,
                0 <= n <= 4,
        ;
        assert(w <= w * n && h <= h * n) by (nonlinear_arith)
            requires
                0 <= w,
                0 <= h,
                1 <= n,
        ;
    }
}

/// A text without white space is not trimmed.
proof fn nothing_to_trim(s: Seq<char>)
    requires
        forall|i: int| 0 <= i < s.len() ==> number::is_digit(#[trigger] s[i]),
    ensures
        text::trim(s) == s,
{
    if s.len() > 0 {
        assert(number::is_digit(s[0]));
        assert(number::is_digit(s[s.len() - 1]));
        assert(!text::white_space(s[0]) && !text::white_space(s.last()));
        assert(text::trim_start(s) == s);
    }
}

proof fn digits_have_no(n: nat, c: char)
    requires
        !number::is_digit(c),
    ensures
        !number::decimal(n).contains(c),
{
    number::decimal_has_digits(n);
    let d = number::decimal(n);
    if d.contains(c) {
        let k = choose|k: int| 0 <= k < d.len() && d[k] == c;
        assert(number::is_digit(d[k]));
    }
}

/// A size is its width and its height, with an `x` between them. Each side has
/// from 1 to 4096 pixels.
pub proof fn size_reads_back(q: QueryMap, w: u32, h: u32)
    ensures
        size((number::decimal(w as nat).push('x') + number::decimal(h as nat))) == Ok::<_, Fault>(
            (w, h),
        ),
        first_value(q, "size"@) == Some(
            number::decimal(w as nat).push('x') + number::decimal(h as nat),
        ) ==> map_size(q) == if 1 <= w <= 4096 && 1 <= h <= 4096 {
            Ok::<_, Fault>((w, h))
        } else {
            Err(Fault::SizeOutOfRange)
        },
        first_value(q, "size"@) is None ==> map_size(q) == Err::<(u32, u32), Fault>(
            Fault::MissingSize,
        ),
{
    let (a, b) = (number::decimal(w as nat), number::decimal(h as nat));
    digits_have_no(w as nat, 'x');
    digits_have_no(h as nat, 'x');
    text::split_concat(a, b, 'x');
    text::split_whole(a, 'x');
    text::split_whole(b, 'x');
    assert(text::split(a.push('x') + b, 'x') =~= seq![a, b]);
    number::decimal_has_digits(w as nat);
    number::decimal_has_digits(h as nat);
    nothing_to_trim(a);
    nothing_to_trim(b);
    number::decimal_reads_back(w as nat, u32::MAX as nat);
    number::decimal_reads_back(h as nat, u32::MAX as nat);
}

/// A size is accepted only where both of its parts are numbers, white space
/// around them aside.
pub proof fn size_is_two_numbers(a: Seq<char>, b: Seq<char>)
    requires
        !a.contains('x'),
        !b.contains('x'),
    ensures
        size(a) is Err,
        match (
            number::unsigned(text::trim(a), u32::MAX as nat),
            number::unsigned(text::trim(b), u32::MAX as nat),
        ) {
            (Ok(w), Ok(h)) => size(a.push('x') + b) matches Ok(r) && r.0 == w && r.1 == h,
            (Err(e), _) => size(a.push('x') + b) == Err::<(u32, u32), Fault>(
                Fault::InvalidWidth { cause: e },
            ),
            (_, Err(e)) => size(a.push('x') + b) == Err::<(u32, u32), Fault>(
                Fault::InvalidHeight { cause: e },
            ),
        },
{
    text::split_concat(a, b, 'x');
    text::split_whole(a, 'x');
    text::split_whole(b, 'x');
    assert(text::split(a.push('x') + b, 'x') =~= seq![a, b]);
    number::unsigned_characterized(text::trim(a), u32::MAX as nat);
    number::unsigned_characterized(text::trim(b), u32::MAX as nat);
}

/// A scale is the number that is written, where that is 1, 2 or 4; a request
/// that does not say has the scale 1.
pub proof fn scale_reads_back(q: QueryMap, n: u32)
    ensures
        first_value(q, "scale"@) is None ==> scale(q) == Ok::<nat, Fault>(1),
        first_value(q, "scale"@) == Some(number::decimal(n as nat)) ==> scale(q) == if n == 1 || n
            == 2 || n == 4 {
            Ok::<nat, Fault>(n as nat)
        } else {
            Err(Fault::ScaleNotAllowed)
        },
{
    number::decimal_reads_back(n as nat, u32::MAX as nat);
}

/// A request for a size and a scale gets them: the image has each side of the
/// map as many times as the scale says.
pub proof fn requested_image_is_scaled(q: QueryMap, w: u32, h: u32, n: u32)
    requires
        1 <= w <= 4096,
        1 <= h <= 4096,
        n == 1 || n == 2 || n == 4,
        w * n <= 8192,
        h * n <= 8192,
        first_value(q, "size"@) == Some(
            number::decimal(w as nat).push('x') + number::decimal(h as nat),
        ),
        first_value(q, "scale"@) == Some(number::decimal(n as nat)),
    ensures
        dimensions(q) matches Ok(d) && d.width == w && d.height == h && d.out_width == w * n
            && d.out_height == h * n,
{
    size_reads_back(q, w, h);
    scale_reads_back(q, n);
    image_is_map_times_scale(q);
}

/// A zoom is the number that is written, up to 24; a request that does not say
/// has none.
pub proof fn zoom_reads_back(q: QueryMap, z: u8)
    ensures
        first_value(q, "zoom"@) is None ==> zoom(q) == Ok::<Option<u8>, Fault>(None),
        first_value(q, "zoom"@) == Some(number::decimal(z as nat)) ==> zoom(q) == if z <= 24 {
            Ok::<_, Fault>(Some(z))
        } else {
            Err(Fault::ZoomTooLarge)
        },
        zoom(q) matches Ok(Some(v)) ==> v <= 24 && (first_value(q, "zoom"@) matches Some(s)
            && number::unsigned(s, 255) == Ok::<nat, number::IntError>(v as nat)),
{
    number::decimal_reads_back(z as nat, u8::MAX as nat);
    if let Some(s) = first_value(q, "zoom"@) {
        number::unsigned_characterized(s, u8::MAX as nat);
    }
}

/// A format is named in lower case; a request that names none gets a PNG image,
/// and one that names another is told which.
pub proof fn formats_are_named(q: QueryMap, s: Seq<char>)
    ensures
        first_value(q, "format"@) is None ==> format(q) == Ok::<_, Fault>(Format::Png),
        first_value(q, "format"@) == Some(s) ==> match format(q) {
            Ok(Format::Png) => s == "png"@,
            Ok(Format::Svg) => s == "svg"@,
            Ok(Format::Jpeg) => s == "jpeg"@ || s == "jpg"@,
            Err(e) => e == (Fault::InvalidFormat { text: s }) && s != "png"@ && s != "svg"@ && s
                != "jpeg"@ && s != "jpg"@,
        },
{
}

/// The center is the point that is written; a request that gives none has none.
pub proof fn center_is_its_point(q: QueryMap, n: NumberTable, s: Seq<char>)
    ensures
        first_value(q, "center"@) is None ==> center(q, n) == Ok::<Option<LatLon>, Fault>(None),
        first_value(q, "center"@) == Some(s) ==> match params::latlon(s, n) {
            Ok(p) => center(q, n) == Ok::<_, Fault>(Some(p)),
            Err(e) => center(q, n) == Err::<Option<LatLon>, Fault>(e),
        },
{
}

/// A parameter has its first value, and no other.
pub proof fn first_value_is_first(q: QueryMap, key: Seq<char>)
    ensures
        q.values(key).len() == 0 ==> first_value(q, key) is None,
        q.values(key).len() > 0 ==> first_value(q, key) == Some(q.values(key)[0]),
{
}

/// There is nothing to fit exactly where the center and the zoom are not both
/// given and no point is.
pub proof fn nothing_to_fit(center: Option<LatLon>, zoom: Option<u8>, points: Seq<LatLon>)
    ensures
        plan(center, zoom, points) is Err <==> (center is None || zoom is None) && points.len()
            == 0,
        plan(center, zoom, points) matches Err(e) ==> e == Fault::NothingToFit,
{
}

/// A viewport is fit to nothing but what the request shows, and to each of its
/// points once: the visible points come first, then the center, the markers and
/// the paths, in their order.
pub proof fn nothing_else_is_fit(
    visible: Seq<LatLon>,
    center: Option<LatLon>,
    groups: Seq<MarkerGroupView>,
    group: MarkerGroupView,
    paths: Seq<PathSpecView>,
    path: PathSpecView,
)
    ensures
        fit_points(visible, None, Seq::empty(), Seq::empty()) == visible,
        center matches Some(c) ==> fit_points(visible, center, Seq::empty(), Seq::empty())
            == visible.push(c),
        fit_points(visible, center, groups.push(group), Seq::empty()) == fit_points(
            visible,
            center,
            groups,
            Seq::empty(),
        ) + group.points,
        fit_points(visible, center, groups, paths.push(path)) == fit_points(
            visible,
            center,
            groups,
            paths,
        ) + path.points,
{
    let none = Seq::<LatLon>::empty();
    assert(marker_points(Seq::empty()) =~= none);
    assert(path_points(Seq::empty()) =~= none);
    assert(fit_points(visible, None, Seq::empty(), Seq::empty()) =~= visible);
    if let Some(c) = center {
        assert(fit_points(visible, center, Seq::empty(), Seq::empty()) =~= visible.push(c));
    }
    assert(groups.push(group).drop_last() =~= groups);
    assert(paths.push(path).drop_last() =~= paths);
    assert(fit_points(visible, center, groups.push(group), Seq::empty()) =~= fit_points(
        visible,
        center,
        groups,
        Seq::empty(),
    ) + group.points);
    assert(fit_points(visible, center, groups, paths.push(path)) =~= fit_points(
        visible,
        center,
        groups,
        paths,
    ) + path.points);
}

/// What a request asks for is what its parameters say, each on its own: as many
/// marker groups as `markers` values and as many paths as `path` values, each
/// as its value describes it, and a viewport by the center, the zoom and all
/// points.
pub proof fn request_is_its_parameters(q: QueryMap, n: NumberTable, m: MapRequestView)
    requires
        request(q, n) == Ok::<_, Fault>(m),
    ensures
        dimensions(q) == Ok::<_, Fault>(m.dimensions),
        format(q) == Ok::<_, Fault>(m.format),
        m.marker_groups.len() == q.values("markers"@).len(),
        forall|i: int|
            0 <= i < m.marker_groups.len() ==> params::marker_group(
                #[trigger] q.values("markers"@)[i],
                n,
            ) == Ok::<_, Fault>(m.marker_groups[i]),
        m.paths.len() == q.values("path"@).len(),
        forall|i: int|
            0 <= i < m.paths.len() ==> params::path_spec(#[trigger] q.values("path"@)[i], n) == Ok::<
                _,
                Fault,
            >(m.paths[i]),
        params::style_overrides(q.values("style"@), n) == Ok::<_, Fault>(m.overrides),
        match (center(q, n), zoom(q), params::visible(q.values("visible"@), n)) {
            (Ok(c), Ok(z), Ok(v)) => plan(c, z, fit_points(v, c, m.marker_groups, m.paths)) == Ok::<
                _,
                Fault,
            >(m.plan),
            _ => false,
        },
{
    params::every_markers_value_is_a_group(q.values("markers"@), n);
    params::every_path_value_is_a_path(q.values("path"@), n);
}

/// A request is accepted where each of its parameters is and there is something
/// to show: a center with a zoom, or a point.
pub proof fn good_parameters_are_accepted(q: QueryMap, n: NumberTable)
    requires
        dimensions(q) is Ok,
        format(q) is Ok,
        center(q, n) is Ok,
        zoom(q) is Ok,
        forall|i: int|
            0 <= i < q.values("markers"@).len() ==> params::marker_group(
                #[trigger] q.values("markers"@)[i],
                n,
            ) is Ok,
        forall|i: int|
            0 <= i < q.values("path"@).len() ==> params::path_spec(
                #[trigger] q.values("path"@)[i],
                n,
            ) is Ok,
        forall|i: int|
            0 <= i < q.values("style"@).len() ==> params::style_override(
                #[trigger] q.values("style"@)[i],
                n,
            ) is Ok,
        params::visible(q.values("visible"@), n) is Ok,
    ensures
        request(q, n) matches Err(e) ==> e == Fault::NothingToFit && (center(q, n) == Ok::<
            Option<LatLon>,
            Fault,
        >(None) || zoom(q) == Ok::<Option<u8>, Fault>(None)),
        (center(q, n) matches Ok(Some(c))) ==> request(q, n) is Ok,
        (params::visible(q.values("visible"@), n) matches Ok(v) && v.len() > 0) ==> request(
            q,
            n,
        ) is Ok,
{
    params::every_markers_value_is_a_group(q.values("markers"@), n);
    params::every_path_value_is_a_path(q.values("path"@), n);
    params::refused_style_is_a_value(q.values("style"@), n);
}

/// The source is the one that a request names, where requests may name one, and
/// the default of a request that names none.
pub proof fn source_is_named_or_default(
    param: Option<Seq<char>>,
    default: Option<Seq<char>>,
    allowed: bool,
)
    ensures
        match source_for(param, default, allowed) {
            Ok(s) => (param == Some(s) && allowed) || (param is None && default == Some(s)),
            Err(SourceError::ParamNotAllowed) => param is Some && !allowed,
            Err(SourceError::NotConfigured) => param is None && default is None,
        },
{
}

/// A request is not modified exactly where it has a source and the client holds
/// the tag of the image; a request without a source is told why; any other is
/// rendered from its own source, under its own tag.
pub proof fn request_opens(
    source: Result<Seq<char>, SourceError>,
    tag: Seq<char>,
    held: Option<Seq<char>>,
)
    ensures
        match source {
            Err(e) => opening(source, tag, held) == (OpeningView::NoSource { error: e }),
            Ok(s) => if held == Some(tag) {
                opening(source, tag, held) matches OpeningView::NotModified { reply }
                    && reply.status == 304 && reply.body is Empty && reply.etag == Some(tag)
            } else {
                opening(source, tag, held) == (OpeningView::Render { source: s, etag: tag })
            },
        },
{
}

/// An image is answered whole, under the content type of its format. A complete
/// one has its tag and may be kept; an incomplete one has no tag and may not.
pub proof fn image_is_answered_whole(
    format: Format,
    image: Seq<u8>,
    incomplete: bool,
    tag: Seq<char>,
)
    ensures
        ({
            let r = image_reply(format, image, incomplete, tag);
            &&& r.status == 200
            &&& r.body == BodyView::Bytes(image)
            &&& r.content_type == Some(
                match format {
                    Format::Png => "image/png"@,
                    Format::Svg => "image/svg+xml"@,
                    Format::Jpeg => "image/jpeg"@,
                },
            )
            &&& incomplete ==> r.etag is None && r.cache_control == Some("no-store"@)
            &&& !incomplete ==> r.etag == Some(tag) && r.cache_control == Some(
                "public, max-age=86400, s-maxage=604800, immutable"@,
            )
        }),
{
}

/// The views of a request keep all that it holds.
pub proof fn requests_are_kept(m: MapRequest, plan: Plan)
    ensures
        m@.dimensions == m.dimensions,
        m@.format == m.format,
        m@.plan == m.plan@,
        m@.marker_groups == params::group_views(m.marker_groups@),
        m@.paths == params::path_views(m.paths@),
        m@.overrides == params::override_views(m.overrides@),
        match plan {
            Plan::At { center, zoom } => plan@ == (PlanView::At { center, zoom }),
            Plan::CenterOn { points, zoom } => plan@ == (PlanView::CenterOn {
                points: points@,
                zoom,
            }),
            Plan::FitAt { center, points } => plan@ == (PlanView::FitAt { center, points: points@ }),
            Plan::Fit { points } => plan@ == (PlanView::Fit { points: points@ }),
        },
{
}

} // verus!
