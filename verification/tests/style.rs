use tiler::params::{parse_style_overrides, Numbers, Width};
use tiler::style::{apply_override, bucket_for, bucket_style, palette, style_for_layer, Bucket, Z_LEVELS};

fn numbers(singles: &[&str]) -> Numbers {
    let mut n = Numbers::new();
    for t in singles {
        let v: f32 = t.parse().unwrap();
        n.add_single(
            t.to_string(),
            Width { bits: v.to_bits(), shown: v.to_string(), outline: (v + 1.0).to_string() },
        );
    }
    n
}

#[test]
fn the_palette_is_fixed() {
    let p = palette();
    assert_eq!(p.background, "#f5f4f4");
    assert_eq!(p.landuse, "#c3f1d5");
    assert_eq!(p.water, "#90daee");
    assert_eq!(p.waterway, "#7fc4de");
    assert_eq!(p.building_fill, "#eaeced");
    assert_eq!(p.building_stroke, "#d8e0e6");
    assert_eq!(p.road, "#ffffff");
    assert_eq!(p.road_casing, "#d5dde3");
    assert_eq!(p.transit, "#c5c9d0");
    assert_eq!(p.boundary, "#c0c4cc");
    assert_eq!(p.other, "#eef0f2");
}

#[test]
fn layers_are_put_in_buckets_by_their_names() {
    let cases = [
        ("earth", Bucket::Earth),
        ("background_tiles", Bucket::Earth),
        ("landuse", Bucket::Landuse),
        ("landcover", Bucket::Landuse),
        ("park", Bucket::Landuse),
        ("natural", Bucket::Landuse),
        ("waterway", Bucket::Waterway),
        ("rivers", Bucket::Waterway),
        ("stream", Bucket::Waterway),
        ("physical_line", Bucket::Waterway),
        ("water", Bucket::Water),
        ("ocean", Bucket::Water),
        ("lakes", Bucket::Water),
        ("buildings", Bucket::Building),
        ("transit", Bucket::Transit),
        ("railways", Bucket::Transit),
        ("roads", Bucket::Road),
        ("transportation", Bucket::Road),
        ("highway", Bucket::Road),
        ("boundary", Bucket::Boundary),
        ("admin", Bucket::Boundary),
        ("boundaries", Bucket::Other),
        ("pois", Bucket::Other),
        ("", Bucket::Other),
        ("landuse_water", Bucket::Landuse),
        ("railroad", Bucket::Transit),
    ];
    for (name, bucket) in cases {
        assert_eq!(bucket_for(name), bucket, "{name}");
    }
}

#[test]
fn every_bucket_has_its_style() {
    let none = parse_style_overrides(&[], &numbers(&[])).unwrap();
    // Name, fill, stroke, width, dashes, casing, level.
    let cases = [
        ("earth", Some("#f5f4f4"), None, 0.0f32, "0", None, None, 0),
        ("landuse", Some("#c3f1d5"), None, 0.0, "0", None, None, 1),
        ("water", Some("#90daee"), None, 0.0, "0", None, None, 2),
        ("waterway", None, Some("#7fc4de"), 1.0, "1", None, None, 3),
        ("building", Some("#eaeced"), Some("#d8e0e6"), 0.5, "0.5", None, None, 4),
        ("other", Some("#eef0f2"), None, 0.0, "0", None, None, 5),
        ("transit", None, Some("#c5c9d0"), 1.0, "1", Some("5,3"), None, 6),
        ("road", None, Some("#ffffff"), 1.5, "1.5", None, Some("#d5dde3"), 8),
        ("boundary", None, Some("#c0c4cc"), 1.0, "1", Some("4,2"), None, 9),
    ];
    for (name, fill, stroke, width, shown, dash, casing, z) in cases {
        let s = style_for_layer(name, &none);
        assert_eq!(s.fill.as_deref(), fill, "{name}");
        assert_eq!(s.stroke.as_deref(), stroke, "{name}");
        assert_eq!(f32::from_bits(s.stroke_width.bits), width, "{name}");
        assert_eq!(s.stroke_width.shown, shown, "{name}");
        assert_eq!(s.stroke_width.outline, (width + 1.0).to_string(), "{name}");
        assert_eq!(s.dash, dash, "{name}");
        assert_eq!(s.casing.as_deref(), casing, "{name}");
        assert_eq!(s.z, z, "{name}");
        assert!((s.z as usize) < Z_LEVELS);
    }
}

#[test]
fn the_case_of_a_layer_name_does_not_matter() {
    let none = parse_style_overrides(&[], &numbers(&[])).unwrap();
    assert_eq!(style_for_layer("ROADS", &none).z, 8);
    assert_eq!(style_for_layer("Water", &none).z, 2);
}

#[test]
fn overrides_recolor_what_is_drawn() {
    let raw = ["feature:building|color:red|weight:3".to_string()];
    let over = parse_style_overrides(&raw, &numbers(&["3"])).unwrap();
    let s = style_for_layer("buildings", &over);
    assert_eq!(s.fill.as_deref(), Some("red"));
    assert_eq!(s.stroke.as_deref(), Some("red"));
    assert_eq!(s.stroke_width.shown, "3");
    let s = style_for_layer("roads", &over);
    assert_eq!(s.stroke.as_deref(), Some("#ffffff"));
    assert_eq!(s.stroke_width.shown, "1.5");
}

#[test]
fn the_override_for_a_bucket_wins_over_the_one_for_all() {
    let raw = [
        "feature:road|color:red".to_string(),
        "color:green|weight:7".to_string(),
    ];
    let over = parse_style_overrides(&raw, &numbers(&["7"])).unwrap();
    let road = style_for_layer("roads", &over);
    assert_eq!(road.stroke.as_deref(), Some("red"));
    assert_eq!(road.stroke_width.shown, "7");
    assert_eq!(road.fill, None);
    assert_eq!(road.casing.as_deref(), Some("#d5dde3"));
    let water = style_for_layer("water", &over);
    assert_eq!(water.fill.as_deref(), Some("green"));
    assert_eq!(water.stroke, None);
}

#[test]
fn an_override_keeps_the_shape_of_a_style() {
    let raw = ["color:green|weight:7".to_string()];
    let over = parse_style_overrides(&raw, &numbers(&["7"])).unwrap();
    let all = [
        Bucket::Earth,
        Bucket::Landuse,
        Bucket::Waterway,
        Bucket::Water,
        Bucket::Building,
        Bucket::Transit,
        Bucket::Road,
        Bucket::Boundary,
        Bucket::Other,
    ];
    for b in all {
        let before = bucket_style(b);
        let mut after = bucket_style(b);
        apply_override(&mut after, over.get("all").unwrap());
        assert_eq!(before.fill.is_some(), after.fill.is_some());
        assert_eq!(before.stroke.is_some(), after.stroke.is_some());
        assert_eq!(before.dash, after.dash);
        assert_eq!(before.casing, after.casing);
        assert_eq!(before.z, after.z);
        assert_eq!(after.stroke_width.shown, "7");
        assert_eq!(bucket_for(b.name()), b);
    }
}
