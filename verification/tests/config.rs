use tiler::config::{
    cors_origins, insert_alias, is_turned_on, listen_port, looks_like_source, parse_aliases,
    rejected_aliases, starts_new_alias, tiles_cache_control, TileCaching,
};

#[test]
fn none_is_empty() {
    assert!(parse_aliases(None).is_empty());
}

#[test]
fn parses_comma_and_newline_separated_url_entries() {
    let map = parse_aliases(Some(
        "planet = https://build.protomaps.com/20260702.pmtiles ,\n basemap=http://host/basemap.pmtiles",
    ));
    assert_eq!(
        map.get("planet").map(String::as_str),
        Some("https://build.protomaps.com/20260702.pmtiles")
    );
    assert_eq!(
        map.get("basemap").map(String::as_str),
        Some("http://host/basemap.pmtiles")
    );
}

#[test]
fn keeps_equals_and_commas_in_url_value() {
    let map = parse_aliases(Some("q=https://h/a.pmtiles?layers=roads,format=png&k=v"));
    assert_eq!(
        map.get("q").map(String::as_str),
        Some("https://h/a.pmtiles?layers=roads,format=png&k=v")
    );
    assert_eq!(map.len(), 1);
}

#[test]
fn splits_multiple_comma_separated_url_aliases() {
    let map = parse_aliases(Some(
        "planet=https://h/p.pmtiles,firenze=https://h/f.pmtiles",
    ));
    assert_eq!(
        map.get("planet").map(String::as_str),
        Some("https://h/p.pmtiles")
    );
    assert_eq!(
        map.get("firenze").map(String::as_str),
        Some("https://h/f.pmtiles")
    );
    assert_eq!(map.len(), 2);
}

#[test]
fn skips_malformed_and_empty_entries() {
    let map = parse_aliases(Some("nourl,=noalias,alias=,ok=https://h/a.pmtiles"));
    assert_eq!(
        map.get("ok").map(String::as_str),
        Some("https://h/a.pmtiles")
    );
    assert_eq!(map.len(), 1);
}

#[test]
fn rejects_non_url_sources() {
    let map = parse_aliases(Some(
        "disk=/data/firenze.pmtiles\nrel=firenze.pmtiles\nok=https://h/a.pmtiles",
    ));
    assert_eq!(
        map.get("ok").map(String::as_str),
        Some("https://h/a.pmtiles")
    );
    assert!(map.get("disk").is_none());
    assert!(map.get("rel").is_none());
    assert_eq!(map.len(), 1);
}

#[test]
fn non_url_alias_next_to_valid_one_on_same_line_is_dropped_not_folded() {
    let map = parse_aliases(Some(
        "planet=https://h/p.pmtiles,disk=/data/firenze.pmtiles",
    ));
    assert_eq!(
        map.get("planet").map(String::as_str),
        Some("https://h/p.pmtiles")
    );
    assert!(map.get("disk").is_none());
    assert_eq!(map.len(), 1);
}

#[test]
fn non_url_alias_after_query_url_on_same_line_is_dropped_not_folded() {
    let map = parse_aliases(Some(
        "planet=https://h/p.pmtiles?token=123,disk=/data/firenze.pmtiles",
    ));
    assert_eq!(
        map.get("planet").map(String::as_str),
        Some("https://h/p.pmtiles?token=123")
    );
    assert!(map.get("disk").is_none());
    assert_eq!(map.len(), 1);
}

#[test]
fn a_fragment_without_equals_joins_the_query_of_the_entry_before_it() {
    let map = parse_aliases(Some("q=https://h/a.pmtiles?layers=roads,buildings, ,x=https://h/x"));
    assert_eq!(
        map.get("q").map(String::as_str),
        Some("https://h/a.pmtiles?layers=roads,buildings")
    );
    assert_eq!(map.get("x").map(String::as_str), Some("https://h/x"));
}

#[test]
fn a_newline_always_ends_an_entry() {
    let map = parse_aliases(Some("a=https://h/a?x=1,y\nz,b=https://h/b"));
    assert_eq!(map.get("a").map(String::as_str), Some("https://h/a?x=1,y"));
    assert_eq!(map.get("b").map(String::as_str), Some("https://h/b"));
    assert_eq!(map.len(), 2);
}

#[test]
fn a_later_entry_for_the_same_alias_wins() {
    let map = parse_aliases(Some("a=https://h/1\na=https://h/2"));
    assert_eq!(map.get("a").map(String::as_str), Some("https://h/2"));
    assert_eq!(map.len(), 1);
}

#[test]
fn an_alias_fragment_is_told_from_the_tail_of_a_value() {
    assert!(starts_new_alias("a=b", None));
    assert!(!starts_new_alias("a", None));
    assert!(!starts_new_alias("=b", None));
    assert!(!starts_new_alias("a b=c", None));
    assert!(starts_new_alias(" a = https://h", Some("q=https://h?x")));
    assert!(!starts_new_alias("a=b", Some("q=https://h?x")));
    assert!(starts_new_alias("a=b", Some("q=https://h")));
    assert!(starts_new_alias("a=/disk", Some("q=https://h?x")));
}

#[test]
fn sources_are_told_from_query_fragments() {
    for s in ["http://h", "https://h", "/data/x", "./x", "x.pmtiles"] {
        assert!(looks_like_source(s), "{s}");
    }
    for s in ["png", "ftp://h", "", "x.pmtiles2"] {
        assert!(!looks_like_source(s), "{s}");
    }
}

#[test]
fn entries_are_inserted_only_if_they_count() {
    let mut map = parse_aliases(None);
    insert_alias(&mut map, None);
    insert_alias(&mut map, Some("no equals".to_string()));
    insert_alias(&mut map, Some(" = https://h".to_string()));
    insert_alias(&mut map, Some("a = ".to_string()));
    insert_alias(&mut map, Some("a = /disk".to_string()));
    assert!(map.is_empty());
    insert_alias(&mut map, Some(" a = https://h/?k=v ".to_string()));
    assert_eq!(map.get("a").map(String::as_str), Some("https://h/?k=v"));
}

#[test]
fn entries_without_a_url_are_listed() {
    let pair = |a: &str, b: &str| (a.to_string(), b.to_string());
    assert!(rejected_aliases(None).is_empty());
    assert_eq!(
        rejected_aliases(Some(
            "disk = /data/firenze.pmtiles \nrel=firenze.pmtiles\nok=https://h/a.pmtiles"
        )),
        [pair("disk", "/data/firenze.pmtiles"), pair("rel", "firenze.pmtiles")]
    );
    assert_eq!(
        rejected_aliases(Some("planet=https://h/p.pmtiles?token=123,disk=/data/f.pmtiles")),
        [pair("disk", "/data/f.pmtiles")]
    );
    // Fragments without an alias or a source are dropped without a word.
    assert!(rejected_aliases(Some("nourl,=noalias,alias=,ok=https://h/a.pmtiles")).is_empty());
    // Every entry of an alias is looked at by itself.
    assert_eq!(
        rejected_aliases(Some("a=x,a=https://h/a,a=ftp://h")),
        [pair("a", "x"), pair("a", "ftp://h")]
    );
}

#[test]
fn names_and_urls_are_tidy() {
    let raw = " a.b/c_1 =  https://h/x?y=1,2 , \n\tb-2=http://h/z\u{2003}\nc d=https://h/w";
    let map = parse_aliases(Some(raw));
    assert_eq!(map.get("a.b/c_1").map(String::as_str), Some("https://h/x?y=1,2"));
    assert_eq!(map.get("b-2").map(String::as_str), Some("http://h/z"));
    assert_eq!(map.len(), 2);
}

#[test]
fn tile_caching_has_a_default() {
    assert_eq!(tiles_cache_control(None), "public, max-age=86400");
    assert_eq!(tiles_cache_control(Some("no-store")), "no-store");
    assert_eq!(tiles_cache_control(Some("")), "");
}

#[test]
fn tile_caching_is_read_once() {
    let mut setting = Some("no-store".to_string());
    let caching = TileCaching::new(setting.as_deref());
    assert_eq!(caching.header(), "no-store");
    setting = None;
    assert_eq!(caching.header(), "no-store");
    assert_eq!(TileCaching::new(setting.as_deref()).header(), "public, max-age=86400");
}

#[test]
fn switches_are_off_by_default() {
    for s in [Some("true"), Some(" TRUE "), Some("1")] {
        assert!(is_turned_on(s), "{s:?}");
    }
    for s in [None, Some(""), Some("false"), Some("0"), Some("yes"), Some("11")] {
        assert!(!is_turned_on(s), "{s:?}");
    }
}

#[test]
fn origins_are_any_or_a_list() {
    assert_eq!(cors_origins(None), None);
    assert_eq!(cors_origins(Some("  ")), None);
    assert_eq!(cors_origins(Some(" * ")), None);
    assert_eq!(
        cors_origins(Some("https://a , https://b")),
        Some(vec!["https://a".to_string(), "https://b".to_string()])
    );
}

#[test]
fn the_port_falls_back_to_3000() {
    assert_eq!(listen_port(None), 3000);
    assert_eq!(listen_port(Some("8080")), 8080);
    assert_eq!(listen_port(Some("+80")), 80);
    assert_eq!(listen_port(Some("65535")), 65535);
    assert_eq!(listen_port(Some("65536")), 3000);
    assert_eq!(listen_port(Some(" 80")), 3000);
    assert_eq!(listen_port(Some("")), 3000);
}
