use tiler::mosaic::{
    collect_tiles, decoded_outcome, tile_outcome, DecodedTile, Fetched, TileOutcome,
};
use tiler::tiles::{
    assemble_layers, decode_tile, ext_to_type, place_of, tile_content_type, tile_coord,
    tile_extension, DecodeError, Feature, NoSuchTile, Place, Property, Shape, TileType,
};

fn varint(out: &mut Vec<u8>, mut n: u64) {
    while n >= 128 {
        out.push((n % 128) as u8 + 128);
        n /= 128;
    }
    out.push(n as u8);
}

fn field(out: &mut Vec<u8>, number: u64, bytes: &[u8]) {
    varint(out, number * 8 + 2);
    varint(out, bytes.len() as u64);
    out.extend_from_slice(bytes);
}

fn number(out: &mut Vec<u8>, field: u64, n: u64) {
    varint(out, field * 8);
    varint(out, n);
}

fn packed(values: &[u32]) -> Vec<u8> {
    let mut out = Vec::new();
    for &v in values {
        varint(&mut out, v as u64);
    }
    out
}

fn zigzag(n: i32) -> u32 {
    ((n << 1) ^ (n >> 31)) as u32
}

fn feature(kind: u64, geometry: &[u32], tags: &[u32]) -> Vec<u8> {
    let mut out = Vec::new();
    field(&mut out, 2, &packed(tags));
    number(&mut out, 3, kind);
    field(&mut out, 4, &packed(geometry));
    out
}

fn text_value(s: &str) -> Vec<u8> {
    let mut out = Vec::new();
    field(&mut out, 1, s.as_bytes());
    out
}

fn int_value(n: u64) -> Vec<u8> {
    let mut out = Vec::new();
    number(&mut out, 4, n);
    out
}

fn layer(
    name: &str,
    version: u64,
    extent: Option<u64>,
    features: &[Vec<u8>],
    keys: &[&str],
    values: &[Vec<u8>],
) -> Vec<u8> {
    let mut out = Vec::new();
    number(&mut out, 15, version);
    field(&mut out, 1, name.as_bytes());
    for f in features {
        field(&mut out, 2, f);
    }
    for k in keys {
        field(&mut out, 3, k.as_bytes());
    }
    for v in values {
        field(&mut out, 4, v);
    }
    if let Some(e) = extent {
        number(&mut out, 5, e);
    }
    out
}

fn tile(layers: &[Vec<u8>]) -> Vec<u8> {
    let mut out = Vec::new();
    for l in layers {
        field(&mut out, 3, l);
    }
    out
}

fn move_to(n: u32) -> u32 {
    n * 8 + 1
}

fn line_to(n: u32) -> u32 {
    n * 8 + 2
}

#[test]
fn tile_types_have_content_types_and_extensions() {
    let cases = [
        (TileType::Mvt, "application/x-protobuf", "mvt"),
        (TileType::Png, "image/png", "png"),
        (TileType::Jpeg, "image/jpeg", "jpg"),
        (TileType::Webp, "image/webp", "webp"),
        (TileType::Unknown, "application/octet-stream", ""),
        (TileType::Avif, "application/octet-stream", ""),
        (TileType::Mlt, "application/octet-stream", ""),
    ];
    for (t, content_type, ext) in cases {
        assert_eq!(tile_content_type(t), content_type);
        assert_eq!(tile_extension(t), ext);
        if !ext.is_empty() {
            assert_eq!(ext_to_type(ext), Some(t));
        }
    }
    assert_eq!(ext_to_type("pbf"), Some(TileType::Mvt));
    assert_eq!(ext_to_type("jpeg"), Some(TileType::Jpeg));
    assert_eq!(ext_to_type("gif"), None);
    assert_eq!(ext_to_type(""), None);
    assert_eq!(ext_to_type("PNG"), None);
}

#[test]
fn sources_are_local_or_remote() {
    assert_eq!(place_of("https://h/a.pmtiles"), Place::Url);
    assert_eq!(place_of("http://h/a.pmtiles"), Place::Url);
    assert_eq!(place_of("/data/a.pmtiles"), Place::Path);
    assert_eq!(place_of("HTTP://h"), Place::Path);
}

#[test]
fn tile_coordinates_are_checked() {
    let c = tile_coord(18, 235085, 122323).unwrap();
    assert_eq!((c.z(), c.x(), c.y()), (18, 235085, 122323));
    assert!(tile_coord(0, 0, 0).is_ok());
    assert_eq!(tile_coord(2, 4, 0).unwrap_err(), NoSuchTile { z: 2, x: 4, y: 0 });
    assert_eq!(tile_coord(2, 0, 4).unwrap_err(), NoSuchTile { z: 2, x: 0, y: 4 });
    assert_eq!(tile_coord(32, 1, 3).unwrap_err(), NoSuchTile { z: 32, x: 1, y: 3 });
    assert!(tile_coord(31, (1 << 31) - 1, 0).is_ok());
}

#[test]
fn a_tile_decodes_to_its_layers() {
    let place = feature(1, &[move_to(1), zigzag(25), zigzag(-17)], &[0, 0, 1, 1, 2, 2]);
    let places = layer(
        "places",
        2,
        None,
        &[place],
        &["name", "name:en", "rank"],
        &[text_value("Firenze"), text_value("Florence"), int_value(3)],
    );
    let road = feature(
        2,
        &[move_to(1), zigzag(2), zigzag(2), line_to(2), zigzag(0), zigzag(8), zigzag(8), zigzag(0)],
        &[],
    );
    let two = feature(
        2,
        &[
            move_to(1), zigzag(1), zigzag(1), line_to(1), zigzag(1), zigzag(0),
            move_to(1), zigzag(5), zigzag(5), line_to(1), zigzag(0), zigzag(1),
        ],
        &[0, 0],
    );
    let roads = layer("roads", 1, Some(512), &[road, two], &["name"], &[int_value(1)]);
    // A square of side 10 with a square hole.
    let area = feature(
        3,
        &[
            move_to(1), zigzag(0), zigzag(0),
            line_to(3), zigzag(10), zigzag(0), zigzag(0), zigzag(10), zigzag(-10), zigzag(0),
            15,
            move_to(1), zigzag(2), zigzag(-8),
            line_to(3), zigzag(0), zigzag(4), zigzag(4), zigzag(0), zigzag(0), zigzag(-4),
            15,
        ],
        &[],
    );
    let water = layer("water", 2, Some(4096), &[area], &[], &[]);

    let layers = decode_tile(tile(&[places, roads, water])).unwrap();
    assert_eq!(layers.len(), 3);

    assert_eq!(layers[0].name, "places");
    assert_eq!(layers[0].extent, 4096);
    let f = &layers[0].features[0];
    assert!(matches!(&f.shape, Shape::Points(p) if p == &vec![(25, -17)]));
    assert!(matches!(&f.name, Some(Property::Text(s)) if s == "Firenze"));
    assert!(matches!(&f.name_en, Some(Property::Text(s)) if s == "Florence"));

    assert_eq!(layers[1].name, "roads");
    assert_eq!(layers[1].extent, 512);
    assert_eq!(layers[1].features.len(), 2);
    let f = &layers[1].features[0];
    assert!(matches!(&f.shape, Shape::Lines(l) if l == &vec![vec![(2, 2), (2, 10), (10, 10)]]));
    assert!(f.name.is_none() && f.name_en.is_none());
    let f = &layers[1].features[1];
    assert!(matches!(
        &f.shape,
        Shape::Lines(l) if l == &vec![vec![(1, 1), (2, 1)], vec![(7, 6), (7, 7)]]
    ));
    assert!(matches!(&f.name, Some(Property::Other)));

    match &layers[2].features[0].shape {
        Shape::Polygons(polygons) => {
            assert_eq!(
                polygons,
                &vec![vec![
                    vec![(0, 0), (10, 0), (10, 10), (0, 10), (0, 0)],
                    vec![(2, 2), (2, 6), (6, 6), (6, 2), (2, 2)],
                ]]
            );
        }
        other => panic!("{other:?}"),
    }
}

#[test]
fn layers_are_assembled_up_to_the_first_malformed_one() {
    let meta = |i: usize, name: &str| (i, name.to_string(), 512u32);
    let list = || {
        Some(vec![Feature { shape: Shape::Other, name: None, name_en: Some(Property::Other) }])
    };
    let layers =
        assemble_layers(vec![meta(0, "a"), meta(7, "b")], vec![list(), Some(vec![])]).unwrap();
    assert_eq!(layers.len(), 2);
    assert_eq!((layers[0].name.as_str(), layers[0].extent), ("a", 512));
    assert_eq!(layers[0].features.len(), 1);
    assert_eq!(layers[1].name, "b");
    assert!(layers[1].features.is_empty());
    let metas = vec![meta(0, "a"), meta(7, "b"), meta(8, "c")];
    assert_eq!(
        assemble_layers(metas, vec![list(), None, None]).unwrap_err(),
        DecodeError::Features(7)
    );
}

#[test]
fn an_empty_tile_has_no_layers() {
    assert!(decode_tile(Vec::new()).unwrap().is_empty());
}

#[test]
fn tiles_that_cannot_be_decoded_say_why() {
    assert_eq!(decode_tile(vec![0xff, 0xff, 0xff]).unwrap_err(), DecodeError::Tile);
    let future = tile(&[layer("x", 3, None, &[], &[], &[])]);
    assert_eq!(decode_tile(future).unwrap_err(), DecodeError::Layers);
    let good = layer("good", 2, None, &[feature(1, &[move_to(1), 2, 2], &[])], &[], &[]);
    let bad = layer("bad", 2, None, &[feature(1, &[move_to(1), 2, 2], &[7, 7])], &[], &[]);
    assert_eq!(decode_tile(tile(&[good, bad])).unwrap_err(), DecodeError::Features(1));
}

fn placed(z: u8, x: u32, y: u32) -> TileOutcome {
    TileOutcome::Tile(DecodedTile { z, x, y, layers: Vec::new() })
}

fn coordinates(tiles: &[DecodedTile]) -> Vec<(u8, u32, u32)> {
    tiles.iter().map(|t| (t.z, t.x, t.y)).collect()
}

#[test]
fn tiles_are_put_in_order_whatever_order_they_arrive_in() {
    let order = vec![(1, 9, 9), (2, 0, 1), (2, 1, 0), (2, 1, 3)];
    for arrival in [[0, 1, 2, 3], [3, 2, 1, 0], [2, 0, 3, 1]] {
        let outcomes = arrival
            .iter()
            .map(|&i: &usize| placed(order[i].0, order[i].1, order[i].2))
            .collect();
        let (tiles, failed) = collect_tiles(outcomes);
        assert_eq!(coordinates(&tiles), order);
        assert!(!failed);
    }
}

#[test]
fn a_failed_tile_makes_the_map_incomplete_but_an_absent_one_does_not() {
    let (tiles, failed) = collect_tiles(vec![TileOutcome::Absent, placed(1, 1, 1)]);
    assert_eq!(coordinates(&tiles), vec![(1, 1, 1)]);
    assert!(!failed);
    let (tiles, failed) =
        collect_tiles(vec![placed(1, 1, 1), TileOutcome::Failed, TileOutcome::Absent]);
    assert_eq!(coordinates(&tiles), vec![(1, 1, 1)]);
    assert!(failed);
    let (tiles, failed) = collect_tiles(vec![]);
    assert!(tiles.is_empty() && !failed);
}

#[test]
fn fetched_tiles_are_decoded() {
    let bytes = tile(&[layer("water", 2, None, &[], &[], &[])]);
    match tile_outcome(3, 1, 2, Fetched::Bytes(bytes)) {
        TileOutcome::Tile(t) => {
            assert_eq!((t.z, t.x, t.y), (3, 1, 2));
            assert_eq!(t.layers[0].name, "water");
        }
        other => panic!("{other:?}"),
    }
    assert!(matches!(
        tile_outcome(3, 1, 2, Fetched::Bytes(vec![0xff])),
        TileOutcome::Failed
    ));
    assert!(matches!(decoded_outcome(3, 1, 2, Err(DecodeError::Tile)), TileOutcome::Failed));
    assert!(matches!(
        decoded_outcome(3, 1, 2, Ok(vec![])),
        TileOutcome::Tile(t) if (t.z, t.x, t.y) == (3, 1, 2) && t.layers.is_empty()
    ));
    assert!(matches!(tile_outcome(3, 1, 2, Fetched::Absent), TileOutcome::Absent));
    assert!(matches!(tile_outcome(3, 1, 2, Fetched::Failed), TileOutcome::Failed));
}
