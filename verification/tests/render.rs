use std::sync::Arc;
use tiler::geo_util::Viewport;
use tiler::markup::is_drawable;
use tiler::params::{
    parse_marker_group, parse_path_spec, parse_style_overrides, Double, Numbers, Width,
};
use tiler::raster::{
    draw_document, drop_alpha, encode_image, rasterize, svg_to_jpeg, svg_to_png, RasterError,
};
use tiler::render::{
    append_line, append_polygon, append_ring, geometry_to_path, label_for_feature,
    render_marker_group, render_path, render_svg, Mesh, PlacedFeature, PlacedLayer, PlacedMarkers,
    PlacedPath, PlacedShape, Spot,
};
use tiler::staticmap::Format;
use tiler::tiles::Property;

fn spot(x: &str, y: &str) -> Spot {
    Spot { x: x.to_string(), y: y.to_string() }
}

fn numbers() -> Numbers {
    let mut n = Numbers::new();
    for t in ["1", "2", "3"] {
        let v: f64 = t.parse().unwrap();
        n.add_double(t.to_string(), Double { bits: v.to_bits(), shown: v.to_string() });
        let w: f32 = t.parse().unwrap();
        n.add_single(
            t.to_string(),
            Width { bits: w.to_bits(), shown: w.to_string(), outline: (w + 1.0).to_string() },
        );
    }
    n
}

fn line(points: &[(&str, &str)]) -> Vec<Spot> {
    points.iter().map(|(x, y)| spot(x, y)).collect()
}

fn drawn(shape: PlacedShape) -> PlacedFeature {
    PlacedFeature { shape, name: None, name_en: None }
}

fn place(name: &str, x: &str) -> PlacedFeature {
    PlacedFeature {
        shape: PlacedShape::Points(vec![spot(x, "1.0")]),
        name: Some(Property::Text(name.to_string())),
        name_en: None,
    }
}

fn viewport() -> Viewport {
    Viewport { zoom: 1, width: 64, height: 32, x0: 0, x1: 0, y0: 0, y1: 0 }
}

fn svg(layers: &[PlacedLayer], styles: &[&str]) -> String {
    let raw: Vec<String> = styles.iter().map(|s| s.to_string()).collect();
    let overrides = parse_style_overrides(&raw, &numbers()).unwrap();
    render_svg(&viewport(), layers, &overrides, &[], &[], 128, 64)
}

fn body(document: &str) -> String {
    let start = "<svg xmlns=\"http://www.w3.org/2000/svg\" width=\"128\" height=\"64\" viewBox=\"0 0 64 32\">\n<rect width=\"64\" height=\"32\" fill=\"#f5f4f4\" />\n";
    document.strip_prefix(start).unwrap().strip_suffix("</svg>").unwrap().to_string()
}

#[test]
fn path_data_moves_first_and_draws_lines_after() {
    let mut d = String::from("x");
    append_line(&mut d, &line(&[("1.00", "2.00"), ("3.00", "4.00")]));
    assert_eq!(d, "xM 1.00 2.00 L 3.00 4.00 ");
    append_line(&mut d, &[]);
    assert_eq!(d, "xM 1.00 2.00 L 3.00 4.00 ");
    let mut d = String::new();
    append_ring(&mut d, &line(&[("1", "2")]));
    assert_eq!(d, "M 1 2 Z ");
    let mut d = String::new();
    append_polygon(&mut d, &[line(&[("1", "2"), ("3", "4")]), line(&[("5", "6")])]);
    assert_eq!(d, "M 1 2 L 3 4 Z M 5 6 Z ");
}

#[test]
fn lines_and_polygons_have_path_data_and_points_have_none() {
    let lines = PlacedShape::Lines(vec![line(&[("1", "2"), ("3", "4")]), line(&[("5", "6")])]);
    assert_eq!(geometry_to_path(&lines).as_deref(), Some("M 1 2 L 3 4 M 5 6 "));
    let polygons = PlacedShape::Polygons(vec![
        vec![line(&[("1", "2")])],
        vec![line(&[("3", "4")]), line(&[("5", "6")])],
    ]);
    assert_eq!(geometry_to_path(&polygons).as_deref(), Some("M 1 2 Z M 3 4 Z M 5 6 Z "));
    assert_eq!(geometry_to_path(&PlacedShape::Points(line(&[("1", "2")]))), None);
    assert_eq!(geometry_to_path(&PlacedShape::Other), None);
    assert_eq!(geometry_to_path(&PlacedShape::Lines(vec![vec![]])), None);
    assert_eq!(geometry_to_path(&PlacedShape::Polygons(vec![])), None);
}

#[test]
fn labels_need_a_name_and_a_point() {
    let text = |s: &str| Some(Property::Text(s.to_string()));
    let label = |name: Option<Property>, name_en: Option<Property>, shape: PlacedShape| {
        label_for_feature(&PlacedFeature { shape, name, name_en }).map(|l| l.0)
    };
    let points = || PlacedShape::Points(line(&[("1.0", "2.0"), ("3.0", "4.0")]));
    assert_eq!(label(text("A"), text("B"), points()).as_deref(), Some("A"));
    assert_eq!(label(None, text("B"), points()).as_deref(), Some("B"));
    assert_eq!(label(text(""), text("B"), points()), None);
    assert_eq!(label(Some(Property::Other), text("B"), points()), None);
    assert_eq!(label(None, None, points()), None);
    assert_eq!(label(text("A"), None, PlacedShape::Points(vec![])), None);
    assert_eq!(label(text("A"), None, PlacedShape::Lines(vec![line(&[("1", "2")])])), None);
    assert_eq!(label(text("A"), None, PlacedShape::Other), None);
}

#[test]
fn a_label_is_an_outline_and_a_text() {
    let (name, markup) = label_for_feature(&place("A & B", "12.5")).unwrap();
    assert_eq!(name, "A & B");
    assert_eq!(
        markup,
        "<text x=\"12.5\" y=\"1.0\" font-size=\"12\" font-family=\"sans-serif\" font-weight=\"600\" text-anchor=\"middle\" fill=\"none\" stroke=\"#ffffff\" stroke-width=\"3\" paint-order=\"stroke\">A &amp; B</text>\n\
         <text x=\"12.5\" y=\"1.0\" font-size=\"12\" font-family=\"sans-serif\" font-weight=\"600\" text-anchor=\"middle\" fill=\"#333333\">A &amp; B</text>\n"
    );
}

#[test]
fn layer_names_are_kept_in_lower_case() {
    assert_eq!(PlacedLayer::new("ROADS", vec![]).lower_name, "roads");
    for name in ["Water ÄÖ İ", "Straße", "ΟΔΟΣ"] {
        assert_eq!(PlacedLayer::new(name, vec![]).lower_name, name.to_lowercase());
    }
}

#[test]
fn an_empty_map_is_its_background() {
    assert_eq!(body(&svg(&[], &[])), "");
}

#[test]
fn fills_are_sealed_and_borders_drawn_over_them() {
    let shape = || PlacedShape::Polygons(vec![vec![line(&[("1", "2"), ("3", "4")])]]);
    let water = PlacedLayer::new("Water", vec![drawn(shape())]);
    assert_eq!(
        body(&svg(&[water], &[])),
        "<path d=\"M 1 2 L 3 4 Z \" fill=\"#90daee\" stroke=\"#90daee\" stroke-width=\"1\" />\n"
    );
    let building = PlacedLayer::new("buildings", vec![drawn(shape())]);
    assert_eq!(
        body(&svg(&[building], &[])),
        "<path d=\"M 1 2 L 3 4 Z \" fill=\"#eaeced\" stroke=\"#eaeced\" stroke-width=\"1\" />\n\
         <path d=\"M 1 2 L 3 4 Z \" fill=\"none\" stroke=\"#d8e0e6\" stroke-width=\"0.5\" />\n"
    );
    let building = PlacedLayer::new("buildings", vec![drawn(shape())]);
    assert_eq!(
        body(&svg(&[building], &["feature:building|weight:3|color:\"<"])),
        "<path d=\"M 1 2 L 3 4 Z \" fill=\"&quot;&lt;\" stroke=\"&quot;&lt;\" stroke-width=\"3\" />\n\
         <path d=\"M 1 2 L 3 4 Z \" fill=\"none\" stroke=\"&quot;&lt;\" stroke-width=\"3\" />\n"
    );
}

#[test]
fn lines_are_stroked_and_may_be_dashed() {
    let shape = || PlacedShape::Lines(vec![line(&[("1", "2"), ("3", "4")])]);
    let rail = PlacedLayer::new("rail", vec![drawn(shape()), drawn(PlacedShape::Other)]);
    assert_eq!(
        body(&svg(&[rail], &[])),
        "<path d=\"M 1 2 L 3 4 \" fill=\"none\" stroke=\"#c5c9d0\" stroke-width=\"1\" stroke-dasharray=\"5,3\" />\n"
    );
}

#[test]
fn roads_have_a_wider_casing_one_level_below() {
    let shape = || PlacedShape::Lines(vec![line(&[("1", "2"), ("3", "4")])]);
    let one = PlacedLayer::new("roads", vec![drawn(shape())]);
    let other = PlacedLayer::new("roads", vec![drawn(shape())]);
    let casing =
        "<path d=\"M 1 2 L 3 4 \" fill=\"none\" stroke=\"#d5dde3\" stroke-width=\"2.5\" />\n";
    let road =
        "<path d=\"M 1 2 L 3 4 \" fill=\"none\" stroke=\"#ffffff\" stroke-width=\"1.5\" />\n";
    assert_eq!(body(&svg(&[one, other], &[])), format!("{casing}{casing}{road}{road}"));
    let wide = PlacedLayer::new("roads", vec![drawn(shape())]);
    assert_eq!(
        body(&svg(&[wide], &["feature:road|color:red|weight:3"])),
        "<path d=\"M 1 2 L 3 4 \" fill=\"none\" stroke=\"#d5dde3\" stroke-width=\"4\" />\n\
         <path d=\"M 1 2 L 3 4 \" fill=\"none\" stroke=\"red\" stroke-width=\"3\" />\n"
    );
}

#[test]
fn layers_are_drawn_by_level_over_all_tiles() {
    let area = |x: &str| vec![drawn(PlacedShape::Polygons(vec![vec![line(&[(x, "0")])]]))];
    // Two tiles, each with a background after a foreground.
    let layers = [
        PlacedLayer::new("water", area("1")),
        PlacedLayer::new("earth", area("2")),
        PlacedLayer::new("water", area("3")),
        PlacedLayer::new("earth", area("4")),
    ];
    let document = svg(&layers, &[]);
    let order: Vec<usize> = ["M 2 ", "M 4 ", "M 1 ", "M 3 "]
        .iter()
        .map(|m| document.find(m).unwrap())
        .collect();
    assert!(order.windows(2).all(|w| w[0] < w[1]), "{document}");
}

#[test]
fn places_are_labelled_once_and_not_drawn() {
    let layers = [
        PlacedLayer::new("Places", vec![place("A", "1.0"), place("B", "2.0")]),
        PlacedLayer::new("places", vec![place("A", "3.0"), place("C", "4.0")]),
        PlacedLayer::new(
            "place_lines",
            vec![drawn(PlacedShape::Lines(vec![line(&[("1", "2")])]))],
        ),
    ];
    let b = body(&svg(&layers, &[]));
    assert_eq!(b.matches("<text").count(), 6);
    assert!(b.contains("x=\"1.0\"") && b.contains("x=\"2.0\"") && b.contains("x=\"4.0\""));
    assert!(!b.contains("x=\"3.0\""));
    assert!(!b.contains("<path"));
}

#[test]
fn markers_are_circles_with_a_label() {
    let group = parse_marker_group("color:red|label:a|1,2|2,3", &numbers()).unwrap();
    let m = PlacedMarkers::new(group, line(&[("1.00", "2.00"), ("3.00", "4.00")])).unwrap();
    let one = |x: &str, y: &str| {
        format!(
            "<circle cx=\"{x}\" cy=\"{y}\" r=\"8\" fill=\"red\" stroke=\"#ffffff\" stroke-width=\"2\" />\n\
             <text x=\"{x}\" y=\"{y}\" font-size=\"8.8\" font-family=\"sans-serif\" font-weight=\"700\" text-anchor=\"middle\" dominant-baseline=\"central\" fill=\"#ffffff\">A</text>\n"
        )
    };
    assert_eq!(
        render_marker_group(&m),
        format!("{}{}", one("1.00", "2.00"), one("3.00", "4.00"))
    );

    let group = parse_marker_group("size:tiny|color:'|1,2", &numbers()).unwrap();
    let m = PlacedMarkers::new(group, line(&[("1.00", "2.00")])).unwrap();
    assert_eq!(
        render_marker_group(&m),
        "<circle cx=\"1.00\" cy=\"2.00\" r=\"4\" fill=\"&apos;\" stroke=\"#ffffff\" stroke-width=\"2\" />\n"
    );

    for (size, radius) in [("tiny", 4.0f32), ("small", 6.0), ("mid", 8.0)] {
        let group = parse_marker_group(&format!("label:<|size:{size}|1,2"), &numbers()).unwrap();
        assert_eq!(group.size.radius() as f32, radius);
        let placed = PlacedMarkers::new(group, line(&[("0", "0")])).unwrap();
        let out = render_marker_group(&placed);
        assert!(out.contains(&format!(" r=\"{radius}\" ")));
        assert!(out.contains(&format!("font-size=\"{:.1}\"", radius * 1.1)));
        assert!(out.contains(">&lt;</text>"));
    }
}

fn path(raw: &str, vertices: &[(&str, &str)], indices: &[u32]) -> PlacedPath {
    let path = parse_path_spec(raw, &numbers()).unwrap();
    let spots = line(&[("1.00", "2.00"), ("3.00", "4.00")][..path.points.len()]);
    let mesh = Mesh::new(line(vertices), indices.to_vec()).unwrap();
    PlacedPath::new(path, spots, mesh).unwrap()
}

#[test]
fn paths_are_filled_and_stroked_with_triangles() {
    let v = [("0.00", "0.50"), ("1.00", "1.50"), ("2.00", "2.50"), ("3.00", "3.50")];
    let p = path("color:red|fillcolor:0x00ff00|1,2|2,3", &v, &[0, 1, 2, 2, 1, 3, 0, 1]);
    assert_eq!(
        render_path(&p),
        "<path d=\"M 1.00 2.00 L 3.00 4.00 Z\" fill=\"#00ff00\" stroke=\"none\" />\n\
         <polygon points=\"0.00,0.50 1.00,1.50 2.00,2.50\" fill=\"red\" />\n\
         <polygon points=\"2.00,2.50 1.00,1.50 3.00,3.50\" fill=\"red\" />\n"
    );
    let p = path("1,2|2,3", &v, &[3, 2]);
    assert_eq!(render_path(&p), "");
}

#[test]
fn a_mesh_has_no_index_without_a_vertex() {
    assert!(Mesh::new(line(&[("0", "0")]), vec![0, 0, 0]).is_some());
    assert!(Mesh::new(line(&[("0", "0")]), vec![0, 1]).is_none());
    assert!(Mesh::new(vec![], vec![0]).is_none());
    assert!(Mesh::new(vec![], vec![]).is_some());
}

#[test]
fn every_point_has_a_spot() {
    let group = || parse_marker_group("1,2|2,3", &numbers()).unwrap();
    assert!(PlacedMarkers::new(group(), line(&[("0", "0"), ("1", "1")])).is_some());
    assert!(PlacedMarkers::new(group(), line(&[("0", "0")])).is_none());
    assert!(PlacedMarkers::new(group(), vec![]).is_none());
    let path = || parse_path_spec("1,2|2,3", &numbers()).unwrap();
    let mesh = || Mesh::new(vec![], vec![]).unwrap();
    assert!(PlacedPath::new(path(), line(&[("0", "0"), ("1", "1")]), mesh()).is_some());
    assert!(PlacedPath::new(path(), line(&[("0", "0")]), mesh()).is_none());
    let three = line(&[("0", "0"), ("1", "1"), ("2", "2")]);
    assert!(PlacedPath::new(path(), three, mesh()).is_none());
}

#[test]
fn the_document_is_put_together_bottom_to_top() {
    let overrides = parse_style_overrides(&[], &numbers()).unwrap();
    let layers = [
        PlacedLayer::new("places", vec![place("A", "1.0")]),
        PlacedLayer::new(
            "water",
            vec![drawn(PlacedShape::Polygons(vec![vec![line(&[("9", "9")])]]))],
        ),
    ];
    let group = parse_marker_group("1,2", &numbers()).unwrap();
    let markers = [PlacedMarkers::new(group, line(&[("1.00", "2.00")])).unwrap()];
    let v = [("0.00", "0.00"), ("1.00", "1.00"), ("2.00", "2.00")];
    let paths = [
        path("1,2|2,3", &v, &[0, 1, 2]),
        path("color:hidden|1,2", &v, &[0, 1, 2]),
    ];
    let document = render_svg(&viewport(), &layers, &overrides, &markers, &paths, 128, 64);
    let b = body(&document);
    let at = |m: &str| b.find(m).unwrap();
    assert!(at("<path") < at("<polygon"));
    assert!(at("<polygon") < at("<circle"));
    assert!(at("<circle") < at("<text"));
    // A path of one point is not drawn.
    assert!(!b.contains("hidden"));
    assert!(is_drawable(&document));
}

#[test]
fn a_document_becomes_a_png_of_its_size() {
    let fonts = Arc::new(resvg::usvg::fontdb::Database::new());
    let document = svg(&[], &[]);
    let png = svg_to_png(&document, 128, 64, &fonts).unwrap();
    assert_eq!(&png[..8], b"\x89PNG\r\n\x1a\n");
    assert_eq!(&png[16..24], [0, 0, 0, 128, 0, 0, 0, 64]);
    let pixmap = rasterize(&document, 128, 64, &fonts).unwrap();
    assert_eq!((pixmap.width(), pixmap.height()), (128, 64));
    // The background covers the image.
    assert!(pixmap.data().chunks(4).all(|p| p == [0xf5, 0xf4, 0xf4, 0xff]));
}

#[test]
fn what_is_no_image_is_refused() {
    let fonts = Arc::new(resvg::usvg::fontdb::Database::new());
    // A name with a character that XML does not have.
    let broken = svg(&[PlacedLayer::new("places", vec![place("\u{1}", "1.0")])], &[]);
    assert!(is_drawable(&broken));
    match svg_to_png(&broken, 8, 8, &fonts) {
        Err(RasterError::Svg { cause }) => {
            assert_eq!(RasterError::Svg { cause: cause.clone() }.message(), cause);
            assert!(!cause.is_empty());
        }
        _ => panic!("accepted"),
    }
    let document = svg(&[], &[]);
    match svg_to_png(&document, 0, 8, &fonts) {
        Err(e) => assert_eq!(e.message(), "failed to allocate 0x8 pixmap"),
        Ok(_) => panic!("accepted"),
    }
    assert!(matches!(
        svg_to_png(&document, 1 << 29, 1, &fonts),
        Err(RasterError::Pixmap { width, height: 1 }) if width == 1 << 29
    ));
    let e = RasterError::Png { cause: "x".to_string() };
    assert_eq!(e.message(), "failed to encode png: x");
    let e = RasterError::Jpeg { cause: "x".to_string() };
    assert_eq!(e.message(), "x");
}

#[test]
fn a_document_that_is_no_xml_is_no_image() {
    let fonts = Arc::new(resvg::usvg::fontdb::Database::new());
    let root = "<svg xmlns=\"http://www.w3.org/2000/svg\" width=\"8\" height=\"8\"";
    let refused = |svg: &str| {
        assert!(is_drawable(svg));
        assert!(matches!(rasterize(svg, 8, 8, &fonts), Err(RasterError::Svg { .. })));
        assert!(matches!(
            svg_to_jpeg(svg, 8, 8, 100, &fonts),
            Err(RasterError::Svg { .. })
        ));
    };
    refused(&format!("{root}>&unknown;</svg>"));
    refused(&format!("{root}><rect fill=\"red\" fill=\"red\" /></svg>"));
    refused(&format!("{root} />x"));
    refused("<svg width=\"8\" height=\"8\" />x");
    let accepted = format!("{root} />");
    assert!(is_drawable(&accepted));
    assert!(rasterize(&accepted, 8, 8, &fonts).is_ok());
}

#[test]
fn a_parsed_document_is_drawn_at_any_size() {
    let options = resvg::usvg::Options::default();
    let tree = resvg::usvg::Tree::from_str(&svg(&[], &[]), &options).unwrap();
    let pixmap = draw_document(&tree, 3, 2).unwrap();
    assert_eq!((pixmap.width(), pixmap.height()), (3, 2));
    assert_eq!(pixmap.data().len(), 24);
    assert!(pixmap.data().chunks(4).all(|p| p == [0xf5, 0xf4, 0xf4, 0xff]));
    match draw_document(&tree, 4, 0) {
        Err(e) => assert_eq!(e.message(), "failed to allocate 4x0 pixmap"),
        Ok(_) => panic!("accepted"),
    }
}

#[test]
fn the_alpha_is_dropped() {
    assert_eq!(drop_alpha(&[1, 2, 3, 4, 5, 6, 7, 8]), [1, 2, 3, 5, 6, 7]);
    assert_eq!(drop_alpha(&[1, 2, 3, 4, 5]), [1, 2, 3]);
    assert_eq!(drop_alpha(&[]), [0u8; 0]);
}

#[test]
fn a_document_becomes_a_jpeg_of_its_size() {
    let fonts = Arc::new(resvg::usvg::fontdb::Database::new());
    let document = svg(&[], &[]);
    let jpeg = svg_to_jpeg(&document, 128, 64, 100, &fonts).unwrap();
    assert_eq!(&jpeg[..3], [0xff, 0xd8, 0xff]);
    assert_eq!(&jpeg[jpeg.len() - 2..], [0xff, 0xd9]);
    // The frame header: precision, height and width, and three components.
    let at = jpeg.windows(2).position(|w| w == [0xff, 0xc0]).unwrap();
    assert_eq!(&jpeg[at + 4..at + 10], [8, 0, 64, 0, 128, 3]);
    // A lower quality has other quantization tables.
    assert_ne!(svg_to_jpeg(&document, 128, 64, 50, &fonts).unwrap(), jpeg);
    assert!(matches!(
        svg_to_jpeg(&document, 0, 8, 100, &fonts),
        Err(RasterError::Pixmap { width: 0, height: 8 })
    ));
    // A side of a JPEG file is counted in 16 bits.
    match svg_to_jpeg(&document, 1 << 16, 1, 100, &fonts) {
        Err(RasterError::Jpeg { cause }) => assert!(!cause.is_empty()),
        _ => panic!("accepted"),
    }
    assert!(svg_to_jpeg(&document, (1 << 16) - 1, 1, 100, &fonts).is_ok());
}

#[test]
fn the_format_decides_the_encoding() {
    let fonts = Arc::new(resvg::usvg::fontdb::Database::new());
    let document = svg(&[], &[]);
    let encoded = |format| encode_image(&document, 16, 8, format, &fonts).unwrap();
    assert_eq!(encoded(Format::Svg), document.as_bytes());
    assert_eq!(encoded(Format::Png), svg_to_png(&document, 16, 8, &fonts).unwrap());
    assert_eq!(
        encoded(Format::Jpeg),
        svg_to_jpeg(&document, 16, 8, 100, &fonts).unwrap()
    );
    // An SVG file is the document as it is.
    let file = encode_image("<\u{e9}", 0, 0, Format::Svg, &fonts).unwrap();
    assert_eq!(file, [0x3c, 0xc3, 0xa9]);
    let broken = svg(&[PlacedLayer::new("places", vec![place("\u{1}", "1.0")])], &[]);
    assert!(encode_image(&broken, 8, 8, Format::Png, &fonts).is_err());
    assert!(encode_image(&broken, 8, 8, Format::Jpeg, &fonts).is_err());
}
