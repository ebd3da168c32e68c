use tiler::config::parse_aliases;
use tiler::reply::{Body, Reply};
use tiler::tile_server::{
    archive_not_found, finish, name_is_safe, parse_tile_path, reply_with_description,
    reply_with_tile, resolve_source, start, with_archive, ArchiveHeader, Parsed, Site, Start, Step,
};
use tiler::tiles::TileType;

fn parsed(path: &str) -> Option<(String, Option<(u8, u32, u32)>, String)> {
    parse_tile_path(path).map(|p| (p.name, p.tile, p.ext))
}

fn some(
    name: &str,
    tile: Option<(u8, u32, u32)>,
    ext: &str,
) -> Option<(String, Option<(u8, u32, u32)>, String)> {
    Some((name.to_string(), tile, ext.to_string()))
}

fn check_text(r: &Reply, status: u16, message: &str, cached: Option<&str>) {
    assert_eq!(r.status, status);
    assert_eq!(r.content_type.as_deref(), Some("text/plain; charset=utf-8"));
    assert_eq!(r.cache_control.as_deref(), cached);
    assert_eq!(r.etag, None);
    assert!(matches!(&r.body, Body::Text(t) if t == message), "{:?}", r.body);
}

#[test]
fn names_are_safe_or_not() {
    for name in ["a", "a/b", "a.b-c_D/9", "...", "a/..b"] {
        assert!(name_is_safe(name), "{name}");
    }
    for name in ["", "/", "a/", "/a", "a//b", "..", ".", "a/../b", "a/.", "a b", "ä", "a\\b"] {
        assert!(!name_is_safe(name), "{name}");
    }
}

#[test]
fn tile_paths_are_parsed() {
    assert_eq!(parsed("/planet/3/4/5.mvt"), some("planet", Some((3, 4, 5)), "mvt"));
    assert_eq!(parsed("planet/3/4/5.mvt"), some("planet", Some((3, 4, 5)), "mvt"));
    assert_eq!(parsed("/a/b/c/0/+1/2.pbf"), some("a/b/c", Some((0, 1, 2)), "pbf"));
    assert_eq!(parsed("/planet.json"), some("planet", None, "json"));
    assert_eq!(parsed("/a/b.json"), some("a/b", None, "json"));
    assert_eq!(parsed("/a/1/2/3.json"), some("a/1/2/3", None, "json"));
    for path in [
        "", "/", "//", "/planet", "/3/4/5.mvt", "/planet/3/4/5", "/planet/3/4/5.", "/planet/3/4/.mvt",
        "/planet/256/4/5.mvt", "/planet/3/4294967296/5.mvt", "/planet/3/4/x.mvt", "/planet/-3/4/5.mvt",
        "/../3/4/5.mvt", "/.json", "/../x.json", "//planet/3/4/5.mvt", "/planet/3/4/5.6.mvt",
    ] {
        assert_eq!(parsed(path), None, "{path}");
    }
}

#[test]
fn the_path_of_a_tile_reads_back() {
    for name in ["planet", "a/b.c", "x-1_2"] {
        for (z, x, y) in [(0u8, 0u32, 0u32), (255, u32::MAX, 7), (14, 8192, 16383)] {
            for ext in ["mvt", "png", "whatever"] {
                assert_eq!(
                    parsed(&format!("/{name}/{z}/{x}/{y}.{ext}")),
                    some(name, Some((z, x, y)), ext)
                );
            }
        }
        assert_eq!(parsed(&format!("/{name}.json")), some(name, None, "json"));
    }
}

#[test]
fn sources_are_resolved_by_alias_only() {
    let aliases = parse_aliases(Some("a=https://h/a.pmtiles"));
    assert_eq!(resolve_source("a", &aliases), Some("https://h/a.pmtiles"));
    assert_eq!(resolve_source("b", &aliases), None);
    assert_eq!(resolve_source("https://h/a.pmtiles", &aliases), None);
}

#[test]
fn requests_open_an_archive_or_are_answered() {
    let aliases = parse_aliases(Some("a=https://h/a.pmtiles"));
    match start(false, "/tiles/a/1/2/3.mvt", &aliases) {
        Start::Open { parsed, source } => {
            assert_eq!(source, "https://h/a.pmtiles");
            assert_eq!(parsed.name, "a");
            assert_eq!(parsed.tile, Some((1, 2, 3)));
        }
        Start::Respond(r) => panic!("{r:?}"),
    }
    let answer = |post: bool, path: &str| match start(post, path, &aliases) {
        Start::Respond(r) => r,
        Start::Open { .. } => panic!("opened"),
    };
    check_text(&answer(true, "/tiles/a.json"), 405, "Method not allowed", None);
    check_text(&answer(false, "/tiles"), 404, "Invalid URL", None);
    check_text(&answer(false, "/other/a.json"), 404, "Invalid URL", None);
    check_text(&answer(false, "/tiles/../a.json"), 404, "Invalid URL", None);
    check_text(&answer(false, "/tiles/b.json"), 404, "Unknown archive", None);
    check_text(&archive_not_found(), 404, "Archive not found", None);
}

fn header(tile_type: TileType) -> ArchiveHeader {
    ArchiveHeader { tile_type, min_zoom: 2, max_zoom: 10 }
}

fn site<'a>(public: Option<&'a str>, host: Option<&'a str>, proto: Option<&'a str>) -> Site<'a> {
    Site { public_hostname: public, host, forwarded_proto: proto, cache_control: None }
}

fn template(name: &str, t: TileType, s: &Site) -> String {
    let p = Parsed { name: name.to_string(), tile: None, ext: "json".to_string() };
    match with_archive(&p, header(t), s) {
        Step::Describe { tile_url } => tile_url,
        _ => panic!("not described"),
    }
}

#[test]
fn tile_urls_name_the_host() {
    let cases = [
        (site(None, Some("h.org"), None), "https://h.org/tiles/a/{z}/{x}/{y}.mvt"),
        (site(None, Some("localhost:3000"), None), "http://localhost:3000/tiles/a/{z}/{x}/{y}.mvt"),
        (site(None, Some("127.0.0.1"), None), "http://127.0.0.1/tiles/a/{z}/{x}/{y}.mvt"),
        (site(None, Some("[::1]:80"), None), "http://[::1]:80/tiles/a/{z}/{x}/{y}.mvt"),
        (site(None, Some("h.org"), Some("http")), "http://h.org/tiles/a/{z}/{x}/{y}.mvt"),
        (site(None, Some("localhost"), Some(" https ,http")), "https://localhost/tiles/a/{z}/{x}/{y}.mvt"),
        (site(None, Some("h.org"), Some(" ,http")), "https://h.org/tiles/a/{z}/{x}/{y}.mvt"),
        (site(Some("p.org"), Some("h.org"), None), "https://p.org/tiles/a/{z}/{x}/{y}.mvt"),
        (site(Some("http://p.org"), None, Some("https")), "http://p.org/tiles/a/{z}/{x}/{y}.mvt"),
    ];
    for (s, url) in cases {
        assert_eq!(template("a", TileType::Mvt, &s), url);
    }
    let s = site(None, Some("h"), None);
    assert_eq!(template("n/m", TileType::Jpeg, &s), "https://h/tiles/n/m/{z}/{x}/{y}.jpg");
    assert_eq!(template("n", TileType::Avif, &s), "https://h/tiles/n/{z}/{x}/{y}.mvt");
}

#[test]
fn an_archive_without_a_host_is_not_described() {
    let p = || Parsed { name: "a".to_string(), tile: None, ext: "json".to_string() };
    for s in [site(None, None, None), site(None, Some(""), Some("https"))] {
        match with_archive(&p(), header(TileType::Mvt), &s) {
            Step::Respond(r) => check_text(
                &r,
                400,
                "cannot build TileJSON: no Host header and PUBLIC_HOSTNAME is not set",
                Some("public, max-age=86400"),
            ),
            _ => panic!("described"),
        }
    }
}

fn tile(z: u8, ext: &str) -> Parsed {
    Parsed { name: "a".to_string(), tile: Some((z, 1, 2)), ext: ext.to_string() }
}

#[test]
fn tiles_are_read_within_the_zooms_and_with_the_right_extension() {
    let s = site(None, None, None);
    let read = |z: u8, ext: &str, t: TileType| {
        matches!(with_archive(&tile(z, ext), header(t), &s), Step::Read { x: 1, y: 2, .. })
    };
    assert!(read(2, "mvt", TileType::Mvt));
    assert!(read(10, "pbf", TileType::Mvt));
    assert!(read(5, "jpeg", TileType::Jpeg));
    assert!(read(5, "anything", TileType::Unknown));
    assert!(read(5, "png", TileType::Avif));
    for z in [1, 11] {
        match with_archive(&tile(z, "mvt"), header(TileType::Mvt), &s) {
            Step::Respond(r) => {
                check_text(&r, 404, "Tile not found", Some("public, max-age=86400"))
            }
            _ => panic!("read"),
        }
    }
    match with_archive(&tile(5, "png"), header(TileType::Mvt), &s) {
        Step::Respond(r) => check_text(
            &r,
            400,
            "requested .png but archive has type .mvt",
            Some("public, max-age=86400"),
        ),
        _ => panic!("read"),
    }
}

#[test]
fn tiles_are_answered() {
    let r = reply_with_tile(Ok(Some(vec![1, 2])), TileType::Png, Some("max-age=5"));
    assert_eq!((r.status, r.content_type.as_deref()), (200, Some("image/png")));
    assert_eq!(r.cache_control.as_deref(), Some("max-age=5"));
    assert!(matches!(r.body, Body::Bytes(b) if b == [1, 2]));
    let r = reply_with_tile(Ok(None), TileType::Png, None);
    assert_eq!((r.status, r.content_type.as_deref()), (204, None));
    assert_eq!(r.cache_control.as_deref(), Some("public, max-age=86400"));
    assert!(matches!(r.body, Body::Empty));
    let r = reply_with_tile(Err("broken".to_string()), TileType::Png, Some("max-age=5"));
    check_text(&r, 500, "failed to read tile: broken", None);
}

#[test]
fn descriptions_are_answered() {
    let r = reply_with_description(Ok("{}".to_string()), None);
    assert_eq!((r.status, r.content_type.as_deref()), (200, Some("application/json")));
    assert_eq!(r.cache_control.as_deref(), Some("public, max-age=86400"));
    assert!(matches!(r.body, Body::Text(t) if t == "{}"));
    let r = reply_with_description(Err("broken".to_string()), None);
    check_text(&r, 500, "failed to build tilejson: broken", None);
}

#[test]
fn a_setting_that_no_header_can_hold_falls_back_to_the_default() {
    let reply = || Reply {
        status: 200,
        content_type: None,
        cache_control: None,
        etag: None,
        body: Body::Empty,
    };
    let cached = |setting: Option<&str>| finish(reply(), setting).cache_control.unwrap();
    assert_eq!(cached(None), "public, max-age=86400");
    assert_eq!(cached(Some("no-store")), "no-store");
    assert_eq!(cached(Some("a\tb")), "a\tb");
    for bad in ["a\nb", "\u{7f}", "\0", "x\r"] {
        assert_eq!(cached(Some(bad)), "public, max-age=86400");
    }
    assert_eq!(cached(Some("é")), "é");
    // The wrapped test agrees with the header type on every short text.
    for c in (0..=0x17fu32).filter_map(char::from_u32) {
        let s = format!("a{c}");
        let kept = poem::http::HeaderValue::from_str(&s).is_ok();
        assert_eq!(cached(Some(&s)) == s, kept, "{s:?}");
    }
}
