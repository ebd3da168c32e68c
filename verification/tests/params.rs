use tiler::error::{ParamError, WeightOf};
use tiler::number::IntError;
use tiler::params::{
    normalize_color, parse_latlon, parse_marker_group, parse_marker_groups, parse_path_spec,
    parse_path_specs, parse_style_override, parse_style_overrides, parse_visible, parse_weight,
    Degrees, Double, LatLon, MarkerSize, Numbers, StyleOverride, Width,
};
use tiler::query::QueryMap;

fn numbers(doubles: &[&str], singles: &[&str]) -> Numbers {
    let mut n = Numbers::new();
    for t in doubles {
        if let Ok(v) = t.parse::<f64>() {
            n.add_double(t.to_string(), Double { bits: v.to_bits(), shown: v.to_string() });
        }
    }
    for t in singles {
        if let Ok(v) = t.parse::<f32>() {
            n.add_single(
                t.to_string(),
                Width {
                    bits: v.to_bits(),
                    shown: v.to_string(),
                    outline: (v + 1.0).to_string(),
                },
            );
        }
    }
    n
}

fn point(lat: f64, lon: f64) -> LatLon {
    LatLon { lat: Degrees::Double(lat.to_bits()), lon: Degrees::Double(lon.to_bits()) }
}

fn message<T>(r: Result<T, ParamError>) -> String {
    match r {
        Ok(_) => "accepted".to_string(),
        Err(e) => {
            assert_eq!(e.status(), 400);
            e.message("1.5,2.5")
        }
    }
}

#[test]
fn query_strings_keep_repeated_keys() {
    let q = QueryMap::parse("a=1&b=2&a=3&&c&d=x=y");
    assert_eq!(q.get_one("a"), Some("1"));
    assert_eq!(q.get_all("a"), ["1".to_string(), "3".to_string()]);
    assert_eq!(q.get_one("b"), Some("2"));
    assert_eq!(q.get_one("c"), Some(""));
    assert_eq!(q.get_one("d"), Some("x=y"));
    assert_eq!(q.get_one("e"), None);
    assert!(q.get_all("e").is_empty());
    assert_eq!(q.get_one(""), None);
}

#[test]
fn query_strings_are_decoded() {
    let q = QueryMap::parse("markers=color%3Ared%7C1%2C2&name=a+b&%6b=%C3%A9");
    assert_eq!(q.get_one("markers"), Some("color:red|1,2"));
    assert_eq!(q.get_one("name"), Some("a b"));
    assert_eq!(q.get_one("k"), Some("é"));
}

#[test]
fn pairs_are_collected_by_key() {
    let pair = |k: &str, v: &str| (k.to_string(), v.to_string());
    let q = QueryMap::from_pairs(vec![pair("a", "%1"), pair("b", ""), pair("a", "+")]);
    assert_eq!(q.get_all("a"), ["%1".to_string(), "+".to_string()]);
    assert_eq!(q.get_all("b"), ["".to_string()]);
}

#[test]
fn coordinates_are_read_and_trimmed() {
    let n = numbers(&["43.7715", "11.2540", "-90", "180"], &[]);
    assert_eq!(parse_latlon("43.7715,11.2540", &n).unwrap(), point(43.7715, 11.2540));
    assert_eq!(parse_latlon(" 43.7715 , 11.2540 ,x", &n).unwrap(), point(43.7715, 11.2540));
    assert_eq!(parse_latlon("-90,180", &n).unwrap(), point(-90.0, 180.0));
}

#[test]
fn bad_coordinates_are_refused_in_order() {
    let n = numbers(&["1", "91", "-90.5", "181", "inf", "NaN", "-180.5"], &[]);
    assert_eq!(
        message(parse_latlon("x", &n)),
        "invalid latitude 'x': invalid float literal"
    );
    assert_eq!(
        message(parse_latlon("", &n)),
        "invalid latitude '': cannot parse float from empty string"
    );
    assert_eq!(message(parse_latlon("1", &n)), "missing longitude");
    assert_eq!(
        message(parse_latlon("1, y", &n)),
        "invalid longitude '1, y': invalid float literal"
    );
    assert_eq!(
        message(parse_latlon("1,", &n)),
        "invalid longitude '1,': cannot parse float from empty string"
    );
    assert_eq!(
        message(parse_latlon("91,181", &n)),
        "latitude out of range [-90, 90]: 91"
    );
    assert_eq!(
        message(parse_latlon("-90.5,1", &n)),
        "latitude out of range [-90, 90]: -90.5"
    );
    assert_eq!(
        message(parse_latlon("inf,1", &n)),
        "latitude out of range [-90, 90]: inf"
    );
    assert_eq!(
        message(parse_latlon("1,181", &n)),
        "longitude out of range [-180, 180]: 181"
    );
    assert_eq!(
        message(parse_latlon("1,NaN", &n)),
        "longitude out of range [-180, 180]: NaN"
    );
    assert_eq!(message(parse_latlon("91,x", &n)), "invalid longitude '91,x': invalid float literal");
}

#[test]
fn weights_are_finite_and_at_most_1000() {
    let n = numbers(&[], &["0", "2.5", "1000", "1000.5", "-1", "1e30", "inf", "NaN"]);
    let w = parse_weight("2.5", WeightOf::Path, &n).unwrap();
    assert_eq!((f32::from_bits(w.bits), w.shown.as_str(), w.outline.as_str()), (2.5, "2.5", "3.5"));
    assert!(parse_weight("0", WeightOf::Path, &n).is_ok());
    assert!(parse_weight("1000", WeightOf::Style, &n).is_ok());
    assert_eq!(
        message(parse_weight("1000.5", WeightOf::Path, &n)),
        "path weight must be finite and between 0 and 1000: 1000.5"
    );
    assert_eq!(
        message(parse_weight("-1", WeightOf::Style, &n)),
        "style weight must be finite and between 0 and 1000: -1"
    );
    assert_eq!(
        message(parse_weight("inf", WeightOf::Style, &n)),
        "style weight must be finite and between 0 and 1000: inf"
    );
    assert_eq!(
        message(parse_weight("NaN", WeightOf::Path, &n)),
        "path weight must be finite and between 0 and 1000: NaN"
    );
    assert_eq!(
        message(parse_weight("thick", WeightOf::Path, &n)),
        "invalid path weight: invalid float literal"
    );
    assert_eq!(
        message(parse_weight("", WeightOf::Style, &n)),
        "invalid style weight: cannot parse float from empty string"
    );
}

#[test]
fn colors_are_normalized() {
    assert_eq!(normalize_color("0xff0000"), "#ff0000");
    assert_eq!(normalize_color("0X00FF0033"), "#00FF0033");
    assert_eq!(normalize_color("red"), "red");
    assert_eq!(normalize_color("#3388ff"), "#3388ff");
    assert_eq!(normalize_color("0"), "0");
    assert_eq!(normalize_color("0x"), "#");
    assert_eq!(normalize_color("0x0x1"), "#0x1");
}

#[test]
fn normalizing_a_color_twice_changes_nothing() {
    for c in ["0xff0000", "0x0x1", "red", "", "#0x"] {
        let once = normalize_color(c);
        assert_eq!(normalize_color(&once), once);
    }
}

#[test]
fn marker_sizes_have_radii() {
    assert_eq!(MarkerSize::Tiny.radius(), 4);
    assert_eq!(MarkerSize::Small.radius(), 6);
    assert_eq!(MarkerSize::Mid.radius(), 8);
}

#[test]
fn marker_groups_have_styles_and_points() {
    let n = numbers(&["48.85", "2.35", "48.86", "2.36"], &[]);
    let g = parse_marker_group("color:blue|label:s|48.85,2.35||48.86,2.36", &n).unwrap();
    assert_eq!(g.color, "blue");
    assert_eq!(g.label, Some('S'));
    assert_eq!(g.size, MarkerSize::Mid);
    assert_eq!(g.points, vec![point(48.85, 2.35), point(48.86, 2.36)]);

    let g = parse_marker_group("", &n).unwrap();
    assert_eq!((g.color.as_str(), g.label, g.size), ("red", None, MarkerSize::Mid));
    assert!(g.points.is_empty());

    let g = parse_marker_group("SIZE:TINY|Color:0xabcdef|LABEL:é|size:Small|what:ever", &n).unwrap();
    assert_eq!((g.color.as_str(), g.label, g.size), ("#abcdef", Some('é'), MarkerSize::Small));

    let g = parse_marker_group("label:A|label:|size:huge", &n).unwrap();
    assert_eq!((g.label, g.size), (None, MarkerSize::Mid));
}

#[test]
fn the_first_bad_marker_point_is_reported() {
    let n = numbers(&["1", "2"], &[]);
    assert_eq!(
        message(parse_marker_group("1,2|a|b", &n)),
        "invalid latitude 'a': invalid float literal"
    );
    let raw = ["1,2".to_string(), "1".to_string(), "x".to_string()];
    assert_eq!(message(parse_marker_groups(&raw, &n)), "missing longitude");
    let groups = parse_marker_groups(&raw[..1], &n).unwrap();
    assert_eq!(groups.len(), 1);
    assert!(parse_marker_groups(&[], &n).unwrap().is_empty());
}

#[test]
fn paths_have_styles_and_points() {
    let n = numbers(&["43.768", "11.250", "43.773", "11.258"], &["5"]);
    let p = parse_path_spec("color:0x1a73e8ff|weight:5|43.768,11.250|43.773,11.258", &n).unwrap();
    assert_eq!(p.color, "#1a73e8ff");
    assert_eq!(p.weight.shown, "5");
    assert_eq!(p.fillcolor, None);
    assert_eq!(p.points, vec![point(43.768, 11.250), point(43.773, 11.258)]);

    let p = parse_path_spec("fillcolor:0x00ff0033|geodesic:true", &n).unwrap();
    assert_eq!(p.color, "#3388ff");
    assert_eq!((f32::from_bits(p.weight.bits), p.weight.shown.as_str()), (4.0, "4"));
    assert_eq!(p.fillcolor.as_deref(), Some("#00ff0033"));
    assert!(p.points.is_empty());
}

#[test]
fn an_encoded_polyline_runs_to_the_end_of_the_value() {
    let n = numbers(&["1", "2"], &["3"]);
    let p = parse_path_spec("weight:3|1,2|enc:_p~iF~ps|U_ulLnnqC_mqNvxq`@", &n).unwrap();
    assert_eq!(p.weight.shown, "3");
    assert_eq!(
        p.points,
        vec![
            point(1.0, 2.0),
            LatLon { lat: Degrees::E5(3850000), lon: Degrees::E5(-12020000) },
            LatLon { lat: Degrees::E5(4070000), lon: Degrees::E5(-12095000) },
            LatLon { lat: Degrees::E5(4325200), lon: Degrees::E5(-12645300) },
        ]
    );
}

#[test]
fn decoded_points_outside_the_world_are_refused() {
    let n = numbers(&[], &[]);
    // 9000001 hundred-thousandths of a degree north: twice that, in groups of five bits.
    let mut v: u32 = 2 * 9_000_001;
    let mut text = "enc:".to_string();
    while v >= 32 {
        text.push(((v % 32) as u8 + 95) as char);
        v /= 32;
    }
    text.push((v as u8 + 63) as char);
    text.push('?');
    match parse_path_spec(&text, &n) {
        Err(ParamError::EncodedOutOfRange { lat, lon }) => assert_eq!((lat, lon), (9_000_001, 0)),
        _ => panic!("accepted"),
    }
    assert_eq!(
        message(parse_path_spec(&text, &n)),
        "encoded polyline has out-of-range coordinate: 1.5,2.5"
    );
}

#[test]
fn the_first_bad_path_token_is_reported() {
    let n = numbers(&["1", "2"], &["2000"]);
    assert_eq!(
        message(parse_path_spec("weight:x|a", &n)),
        "invalid path weight: invalid float literal"
    );
    assert_eq!(
        message(parse_path_spec("a|weight:x", &n)),
        "invalid latitude 'a': invalid float literal"
    );
    assert_eq!(
        message(parse_path_spec("1,2|weight:2000", &n)),
        "path weight must be finite and between 0 and 1000: 2000"
    );
    let raw = ["1,2".to_string(), "b".to_string()];
    assert_eq!(
        message(parse_path_specs(&raw, &n)),
        "invalid latitude 'b': invalid float literal"
    );
    assert_eq!(parse_path_specs(&raw[..1], &n).unwrap().len(), 1);
}

#[test]
fn styles_override_a_feature() {
    let n = numbers(&[], &["2.5"]);
    let (feature, over) = parse_style_override("feature:WATER|color:0x224466", &n).unwrap();
    assert_eq!(feature, "water");
    assert_eq!(over.color.as_deref(), Some("#224466"));
    assert!(over.weight.is_none());

    let (feature, over) = parse_style_override("weight:2.5|nothing|1,2", &n).unwrap();
    assert_eq!(feature, "all");
    assert!(over.color.is_none());
    assert_eq!(over.weight.unwrap().shown, "2.5");

    assert_eq!(
        message(parse_style_override("weight:wide", &n)),
        "invalid style weight: invalid float literal"
    );
    let none = StyleOverride::default();
    assert!(none.color.is_none() && none.weight.is_none());
}

#[test]
fn the_last_style_for_a_feature_wins() {
    let n = numbers(&[], &["1"]);
    let raw = [
        "feature:road|color:red|weight:1".to_string(),
        "feature:water|color:blue".to_string(),
        "feature:Road|color:green".to_string(),
    ];
    let map = parse_style_overrides(&raw, &n).unwrap();
    assert_eq!(map.len(), 2);
    let road = map.get("road").unwrap();
    assert_eq!(road.color.as_deref(), Some("green"));
    assert!(road.weight.is_none());
    assert_eq!(
        message(parse_style_overrides(&["weight:".to_string()], &n)),
        "invalid style weight: cannot parse float from empty string"
    );
}

#[test]
fn visible_points_are_one_list() {
    let n = numbers(&["1", "2", "3", "4"], &[]);
    let raw = ["1,2||3,4".to_string(), "".to_string(), "4,3".to_string()];
    assert_eq!(
        parse_visible(&raw, &n).unwrap(),
        vec![point(1.0, 2.0), point(3.0, 4.0), point(4.0, 3.0)]
    );
    assert_eq!(
        message(parse_visible(&["1,2|color:red".to_string()], &n)),
        "invalid latitude 'color:red': invalid float literal"
    );
}

#[test]
fn every_refusal_has_its_message() {
    let cases: Vec<(ParamError, &str)> = vec![
        (ParamError::MissingSize, "missing 'size' parameter"),
        (
            ParamError::InvalidWidth { cause: IntError::Empty },
            "invalid width: cannot parse integer from empty string",
        ),
        (ParamError::MissingHeight, "missing height"),
        (
            ParamError::InvalidHeight { cause: IntError::InvalidDigit },
            "invalid height: invalid digit found in string",
        ),
        (ParamError::SizeOutOfRange, "size must be between 1x1 and 4096x4096"),
        (
            ParamError::InvalidScale { cause: IntError::TooLarge },
            "invalid scale: number too large to fit in target type",
        ),
        (ParamError::ScaleNotAllowed, "scale must be 1, 2, or 4"),
        (
            ParamError::OutputTooLarge { width: 16384, height: 4 },
            "scaled output 16384x4 exceeds 8192x8192; reduce size or scale",
        ),
        (
            ParamError::InvalidFormat { text: "gif".to_string() },
            "invalid format 'gif': expected 'png', 'svg', or 'jpeg'",
        ),
        (
            ParamError::InvalidZoom { cause: IntError::InvalidDigit },
            "invalid zoom: invalid digit found in string",
        ),
        (ParamError::ZoomTooLarge, "zoom must be between 0 and 24"),
        (
            ParamError::NothingToFit,
            "provide either 'center'+'zoom', or 'visible'/'markers'/'path' points to auto-fit the viewport",
        ),
    ];
    for (e, text) in cases {
        assert_eq!(e.message(""), text);
        assert_eq!(e.status(), 400);
    }
}
