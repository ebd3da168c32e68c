use std::collections::hash_map::DefaultHasher;
use std::hash::{Hash, Hasher};
use tiler::error::ParamError;
use tiler::etag::{etag_for_request, tag_for_hash};
use tiler::lookup::numbers_needed;
use tiler::number::IntError;
use tiler::params::{Degrees, Double, LatLon, Numbers, Width};
use tiler::query::QueryMap;
use tiler::reply::{Body, Reply};
use tiler::staticmap::{
    begin, choose_source, open_with_tag, parse_request, parse_size, reply_with_image, route_length,
    Format, MapRequest, Opening, Plan, SourceError,
};

fn table(doubles: &[String], singles: &[String]) -> Numbers {
    let mut n = Numbers::new();
    for t in doubles {
        if let Ok(v) = t.parse::<f64>() {
            n.add_double(t.to_string(), Double { bits: v.to_bits(), shown: v.to_string() });
        }
    }
    for t in singles {
        if let Ok(v) = t.parse::<f32>() {
            n.add_single(
                t.to_string(),
                Width { bits: v.to_bits(), shown: v.to_string(), outline: (v + 1.0).to_string() },
            );
        }
    }
    n
}

fn request(query: &str) -> Result<MapRequest, ParamError> {
    let q = QueryMap::parse(query);
    let texts = numbers_needed(&q);
    parse_request(&q, &table(&texts.doubles, &texts.singles))
}

fn refusal(query: &str) -> String {
    match request(query) {
        Ok(_) => "accepted".to_string(),
        Err(e) => e.message(""),
    }
}

fn point(lat: f64, lon: f64) -> LatLon {
    LatLon { lat: Degrees::Double(lat.to_bits()), lon: Degrees::Double(lon.to_bits()) }
}

#[test]
fn sizes_are_width_and_height() {
    assert_eq!(parse_size("640x480").unwrap(), (640, 480));
    assert_eq!(parse_size(" 640 x 480 x9").unwrap(), (640, 480));
    assert!(matches!(parse_size(""), Err(ParamError::InvalidWidth { cause: IntError::Empty })));
    assert!(matches!(parse_size("640"), Err(ParamError::MissingHeight)));
    assert!(matches!(
        parse_size("ax480"),
        Err(ParamError::InvalidWidth { cause: IntError::InvalidDigit })
    ));
    assert!(matches!(
        parse_size("640x4294967296"),
        Err(ParamError::InvalidHeight { cause: IntError::TooLarge })
    ));
}

#[test]
fn the_example_of_the_documentation_is_accepted() {
    let r = request(
        "center=43.7715,11.2540&zoom=15&size=640x480&markers=color:red|label:A|43.7715,11.2540&path=color:0x1a73e8ff|weight:5|43.768,11.250|43.773,11.258",
    )
    .unwrap();
    assert_eq!((r.dimensions.width, r.dimensions.height), (640, 480));
    assert_eq!((r.dimensions.out_width, r.dimensions.out_height), (640, 480));
    assert_eq!(r.format, Format::Png);
    assert_eq!(r.marker_groups.len(), 1);
    assert_eq!(r.marker_groups[0].label, Some('A'));
    assert_eq!(r.paths.len(), 1);
    assert_eq!(r.paths[0].weight.shown, "5");
    assert!(r.overrides.is_empty());
    match r.plan {
        Plan::At { center, zoom } => {
            assert_eq!(center, point(43.7715, 11.2540));
            assert_eq!(zoom, 15);
        }
        _ => panic!("not at its center"),
    }
}

#[test]
fn sizes_and_scales_are_bounded() {
    let ok = "&center=0,0&zoom=1";
    let scaled = request(&format!("size=4096x1&scale=2{ok}")).unwrap().dimensions;
    assert_eq!((scaled.out_width, scaled.out_height), (8192, 2));
    assert_eq!(refusal("zoom=1"), "missing 'size' parameter");
    assert_eq!(refusal("size=0x1"), "size must be between 1x1 and 4096x4096");
    assert_eq!(refusal("size=1x4097"), "size must be between 1x1 and 4096x4096");
    assert_eq!(refusal("size=1x1&scale=3"), "scale must be 1, 2, or 4");
    assert_eq!(refusal("size=1x1&scale=x"), "invalid scale: invalid digit found in string");
    assert_eq!(
        refusal("size=4096x4096&scale=4"),
        "scaled output 16384x16384 exceeds 8192x8192; reduce size or scale"
    );
    assert_eq!(
        refusal("size=1x2049&scale=4"),
        "scaled output 4x8196 exceeds 8192x8192; reduce size or scale"
    );
}

#[test]
fn formats_are_named() {
    for (name, format, content_type) in [
        ("png", Format::Png, "image/png"),
        ("svg", Format::Svg, "image/svg+xml"),
        ("jpeg", Format::Jpeg, "image/jpeg"),
        ("jpg", Format::Jpeg, "image/jpeg"),
    ] {
        let r = request(&format!("size=1x1&center=0,0&zoom=1&format={name}")).unwrap();
        assert_eq!(r.format, format);
        assert_eq!(format.content_type(), content_type);
    }
    assert_eq!(
        refusal("size=1x1&format=PNG"),
        "invalid format 'PNG': expected 'png', 'svg', or 'jpeg'"
    );
}

#[test]
fn zooms_are_bounded() {
    assert!(request("size=1x1&center=0,0&zoom=24").is_ok());
    assert!(request("size=1x1&center=0,0&zoom=0").is_ok());
    assert_eq!(refusal("size=1x1&zoom=25"), "zoom must be between 0 and 24");
    assert_eq!(
        refusal("size=1x1&zoom=256"),
        "invalid zoom: number too large to fit in target type"
    );
    assert_eq!(refusal("size=1x1&zoom="), "invalid zoom: cannot parse integer from empty string");
}

#[test]
fn the_first_fault_in_a_fixed_order_is_reported() {
    assert_eq!(refusal("size=x&scale=x"), "invalid width: cannot parse integer from empty string");
    assert_eq!(
        refusal("center=x&format=x&size=1x1&scale=9"),
        "scale must be 1, 2, or 4"
    );
    assert_eq!(
        refusal("center=x&format=x&size=1x1"),
        "invalid format 'x': expected 'png', 'svg', or 'jpeg'"
    );
    assert_eq!(
        refusal("zoom=x&center=y&size=1x1"),
        "invalid latitude 'y': invalid float literal"
    );
    assert_eq!(
        refusal("markers=m&zoom=x&size=1x1"),
        "invalid zoom: invalid digit found in string"
    );
    assert_eq!(
        refusal("path=p&markers=m&size=1x1"),
        "invalid latitude 'm': invalid float literal"
    );
    assert_eq!(
        refusal("style=weight:s&path=p&size=1x1"),
        "invalid latitude 'p': invalid float literal"
    );
    assert_eq!(
        refusal("visible=v&style=weight:s&size=1x1"),
        "invalid style weight: invalid float literal"
    );
    assert_eq!(refusal("visible=v&size=1x1"), "invalid latitude 'v': invalid float literal");
    assert!(refusal("size=1x1").starts_with("provide either 'center'+'zoom'"));
}

#[test]
fn a_viewport_that_is_not_fixed_is_fit_to_all_points() {
    let all = "size=9x9&markers=1,1|2,2&path=3,3&visible=4,4";
    let points = |center: Option<LatLon>| {
        let mut p = vec![point(4.0, 4.0)];
        p.extend(center);
        p.extend([point(1.0, 1.0), point(2.0, 2.0), point(3.0, 3.0)]);
        p
    };
    match request(all).unwrap().plan {
        Plan::Fit { points: p } => assert_eq!(p, points(None)),
        _ => panic!(),
    }
    match request(&format!("{all}&zoom=7")).unwrap().plan {
        Plan::CenterOn { points: p, zoom } => {
            assert_eq!(p, points(None));
            assert_eq!(zoom, 7);
        }
        _ => panic!(),
    }
    match request(&format!("{all}&center=5,5")).unwrap().plan {
        Plan::FitAt { center, points: p } => {
            assert_eq!(center, point(5.0, 5.0));
            assert_eq!(p, points(Some(point(5.0, 5.0))));
        }
        _ => panic!(),
    }
    match request("size=9x9&center=5,5").unwrap().plan {
        Plan::FitAt { points: p, .. } => assert_eq!(p, vec![point(5.0, 5.0)]),
        _ => panic!(),
    }
    assert!(refusal("size=9x9&zoom=3").starts_with("provide either"));
}

#[test]
fn the_numbers_of_a_request_are_listed() {
    let q = QueryMap::parse(
        "center=1, 2,9&center=8,8&markers=color:red|3,4&path=weight:5|6,7enc:abc&style=weight:10|color:x&visible=11|12,13",
    );
    let n = numbers_needed(&q);
    assert_eq!(
        n.doubles,
        ["1", "2", "color:red", "3", "4", "weight:5", "6", "7", "11", "12", "13"]
    );
    assert_eq!(n.singles, ["5", "10", "x"]);
}

#[test]
fn numbers_that_are_not_listed_change_nothing() {
    let q = QueryMap::parse("size=9x9&markers=1,2");
    let texts = numbers_needed(&q);
    let mut doubles = texts.doubles.clone();
    doubles.push("77".to_string());
    let a = parse_request(&q, &table(&texts.doubles, &texts.singles)).unwrap();
    let b = parse_request(&q, &table(&doubles, &["5".to_string()])).unwrap();
    match (a.plan, b.plan) {
        (Plan::Fit { points: a }, Plan::Fit { points: b }) => assert_eq!(a, b),
        _ => panic!(),
    }
}

#[test]
fn entity_tags_are_quoted_hashes() {
    assert_eq!(tag_for_hash(0), "\"0000000000000000\"");
    assert_eq!(tag_for_hash(0x1a2b), "\"0000000000001a2b\"");
    assert_eq!(tag_for_hash(u64::MAX), "\"ffffffffffffffff\"");
    assert_ne!(tag_for_hash(1), tag_for_hash(16));
}

#[test]
fn entity_tags_hash_query_source_and_version() {
    let expected = |query: &str, source: &str| {
        let mut h = DefaultHasher::new();
        query.hash(&mut h);
        source.hash(&mut h);
        tiler::etag::VERSION.hash(&mut h);
        format!("\"{:016x}\"", h.finish())
    };
    for (q, s) in [("", ""), ("size=1x1", "https://h/a.pmtiles"), ("a", "b")] {
        assert_eq!(etag_for_request(q, s), expected(q, s));
    }
    assert_ne!(etag_for_request("a", "b"), etag_for_request("b", "a"));
    assert_ne!(etag_for_request("ab", ""), etag_for_request("a", "b"));
}

#[test]
fn a_request_without_a_source_fails() {
    match start("size=1x1", None, false, None) {
        Opening::NoSource { error } => {
            assert_eq!(error, SourceError::NotConfigured);
            assert_eq!(error.status(), 500);
            assert_eq!(error.message(), "PMTILES_URL is not configured");
        }
        other => panic!("{other:?}"),
    }
}

fn start(query: &str, default: Option<&str>, allowed: bool, held: Option<&str>) -> Opening {
    begin(&QueryMap::parse(query), query, default, allowed, held)
}

#[test]
fn a_request_may_not_name_its_source() {
    let query = "size=100x100&center=0,0&zoom=0&pmtiles=b.pmtiles";
    for default in [None, Some("a.pmtiles")] {
        match start(query, default, false, None) {
            Opening::NoSource { error } => {
                assert_eq!(error, SourceError::ParamNotAllowed);
                assert_eq!(error.status(), 403);
                assert_eq!(error.message(), "the 'pmtiles' parameter is not allowed");
            }
            other => panic!("{other:?}"),
        }
        match start(query, default, true, None) {
            Opening::Render { source, etag } => {
                assert_eq!(source, "b.pmtiles");
                assert_eq!(etag, etag_for_request(query, "b.pmtiles"));
            }
            other => panic!("{other:?}"),
        }
    }
    assert_eq!(choose_source(None, Some("a"), true), Ok("a"));
    assert_eq!(choose_source(None, Some("a"), false), Ok("a"));
    assert_eq!(choose_source(Some("b"), Some("a"), true), Ok("b"));
    assert_eq!(choose_source(Some(""), Some("a"), false), Err(SourceError::ParamNotAllowed));
    assert_eq!(choose_source(None, None, true), Err(SourceError::NotConfigured));
}

#[test]
fn the_longest_route_counts() {
    assert_eq!(route_length(&[], &[]), None);
    assert_eq!(route_length(&[0, 1], &[5, 9]), None);
    assert_eq!(route_length(&[2, 1, 3, 2], &[5, 900, 7, 6]), Some(7));
    assert_eq!(route_length(&[2], &[0]), Some(0));
}

#[test]
fn a_held_image_is_not_made_again() {
    let tag = etag_for_request("q", "s");
    match start("q", Some("s"), false, Some(&tag)) {
        Opening::NotModified { reply } => {
            assert_eq!(reply.status, 304);
            assert_eq!(reply.etag, Some(tag.clone()));
            assert_eq!(
                reply.cache_control.as_deref(),
                Some("public, max-age=86400, s-maxage=604800, immutable")
            );
            assert_eq!(reply.content_type, None);
            assert!(matches!(reply.body, Body::Empty));
        }
        other => panic!("{other:?}"),
    }
    for held in [None, Some("\"0\""), Some("")] {
        match start("q", Some("s"), false, held) {
            Opening::Render { source, etag } => {
                assert_eq!(source, "s");
                assert_eq!(etag, tag);
            }
            other => panic!("{other:?}"),
        }
    }
    assert!(matches!(start("q", Some("t"), false, Some(&tag)), Opening::Render { .. }));
    assert!(matches!(
        open_with_tag(Ok("s"), "x".to_string(), Some("x")),
        Opening::NotModified { .. }
    ));
}

#[test]
fn complete_images_are_kept_and_incomplete_ones_are_not() {
    let r: Reply = reply_with_image(Format::Svg, vec![1, 2], false, "\"t\"".to_string());
    assert_eq!(r.status, 200);
    assert_eq!(r.content_type.as_deref(), Some("image/svg+xml"));
    assert_eq!(
        r.cache_control.as_deref(),
        Some("public, max-age=86400, s-maxage=604800, immutable")
    );
    assert_eq!(r.etag.as_deref(), Some("\"t\""));
    assert!(matches!(r.body, Body::Bytes(b) if b == [1, 2]));
    let r = reply_with_image(Format::Png, vec![], true, "\"t\"".to_string());
    assert_eq!(r.cache_control.as_deref(), Some("no-store"));
    assert_eq!(r.etag, None);
    assert_eq!(r.content_type.as_deref(), Some("image/png"));
}
