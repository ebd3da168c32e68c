use tiler::number::{
    is_latitude, is_longitude, is_over_one, is_weight, parse_unsigned, to_decimal, to_hex, IntError,
};
use tiler::text::{
    find_text, has_char, has_prefix, has_suffix, has_text, is_text, is_text_ignoring_case, lower,
    split_at_each, split_at_first, split_at_last, to_chars, to_text, trimmed, upper,
};
use tiler::xml::xml_escape;

fn chars(s: &str) -> Vec<char> {
    s.chars().collect()
}

fn text(s: &[char]) -> String {
    s.iter().collect()
}

#[test]
fn characters_make_the_text_again() {
    for s in ["", "abc", "größe → 地図"] {
        assert_eq!(to_chars(s), chars(s));
        assert_eq!(to_text(&chars(s)), s);
    }
}

#[test]
fn splitting_agrees_with_std() {
    for s in ["", "a", ",", "a,b", ",a,,b,", "ä,ö"] {
        let c = chars(s);
        let pieces: Vec<String> = split_at_each(&c, ',').into_iter().map(text).collect();
        let expected: Vec<String> = s.split(',').map(str::to_string).collect();
        assert_eq!(pieces, expected, "{s:?}");
        assert_eq!(pieces.join(","), s);
        let first = split_at_first(&c, ',').map(|(a, b)| (text(a), text(b)));
        assert_eq!(
            first,
            s.split_once(',').map(|(a, b)| (a.to_string(), b.to_string()))
        );
        let last = split_at_last(&c, ',').map(|(a, b)| (text(a), text(b)));
        assert_eq!(
            last,
            s.rsplit_once(',').map(|(a, b)| (a.to_string(), b.to_string()))
        );
    }
}

#[test]
fn trimming_agrees_with_std_on_every_character() {
    for n in 0..=0x10ffffu32 {
        if let Some(c) = char::from_u32(n) {
            let s = [c, 'x', c];
            let expected: &str = if c.is_whitespace() { "x" } else { "same" };
            let got = trimmed(&s);
            if expected == "x" {
                assert_eq!(got, ['x'], "{n:x}");
            } else {
                assert_eq!(got, s, "{n:x}");
            }
        }
    }
    assert!(trimmed(&chars(" \t ")).is_empty());
}

#[test]
fn searching_agrees_with_std() {
    let texts = ["", "a", "enc:", "xenc:yenc:", "aab", "encenc:"];
    let patterns = ["", "a", "enc:", "ab", "c:"];
    for s in texts {
        for p in patterns {
            let c = chars(s);
            assert_eq!(find_text(&c, p), s.find(p), "{s:?} {p:?}");
            assert_eq!(has_text(&c, p), s.contains(p));
            assert_eq!(has_prefix(&c, p), s.starts_with(p));
            assert_eq!(has_suffix(&c, p), s.ends_with(p));
            assert_eq!(is_text(&c, p), s == p);
        }
        assert_eq!(has_char(&chars(s), 'n'), s.contains('n'));
    }
}

#[test]
fn letter_case_is_ascii_where_it_says_so() {
    for n in 0..=0x2ffu32 {
        let c = char::from_u32(n).unwrap();
        assert_eq!(lower(c), c.to_ascii_lowercase());
        assert_eq!(upper(c), c.to_ascii_uppercase());
    }
    assert!(is_text_ignoring_case(&chars("CoLoR"), "color"));
    assert!(!is_text_ignoring_case(&chars("colors"), "color"));
    assert!(!is_text_ignoring_case(&chars("Ä"), "ä"));
}

#[test]
fn unsigned_numbers_agree_with_std() {
    let samples = [
        "", "0", "7", "255", "256", "+", "+5", "-5", "-", "1 ", " 1", "4294967295", "4294967296",
        "99999999999999999999", "99999999999999999999x", "x99999999999999999999", "12a", "٣",
    ];
    for s in samples {
        let got = parse_unsigned(&chars(s), u32::MAX as u64);
        match s.parse::<u32>() {
            Ok(v) => assert_eq!(got, Ok(v as u64), "{s:?}"),
            Err(e) => {
                let message = match got {
                    Err(IntError::Empty) => "cannot parse integer from empty string",
                    Err(IntError::InvalidDigit) => "invalid digit found in string",
                    Err(IntError::TooLarge) => "number too large to fit in target type",
                    Ok(_) => "read",
                };
                assert_eq!(message, e.to_string(), "{s:?}");
            }
        }
        assert_eq!(
            parse_unsigned(&chars(s), 255).ok(),
            s.parse::<u8>().ok().map(u64::from),
            "{s:?}"
        );
    }
}

#[test]
fn numbers_are_written_as_std_writes_them() {
    for n in [0u64, 9, 10, 12345, u64::MAX] {
        assert_eq!(to_decimal(n), n.to_string());
        assert_eq!(to_hex(n, 16), format!("{n:016x}"));
        assert_eq!(parse_unsigned(&chars(&to_decimal(n)), u64::MAX), Ok(n));
    }
    assert_eq!(to_hex(0x1ab, 2), "ab");
}

#[test]
fn ranges_of_doubles_agree_with_floating_point() {
    let samples = [
        0.0f64, -0.0, 1e-320, -1e-320, 45.5, 89.999, 90.0, 90.00000000000001, -90.0, -90.1, 179.0,
        180.0, -180.0, 180.00000000000003, 1e300, -1e300, f64::INFINITY, f64::NEG_INFINITY,
        f64::NAN, f64::MAX,
    ];
    for v in samples {
        let lat = v.is_finite() && (-90.0..=90.0).contains(&v);
        let lon = v.is_finite() && (-180.0..=180.0).contains(&v);
        assert_eq!(is_latitude(v.to_bits()), lat, "{v}");
        assert_eq!(is_longitude(v.to_bits()), lon, "{v}");
    }
}

#[test]
fn ranges_of_singles_agree_with_floating_point() {
    let samples = [
        0.0f32, -0.0, 1e-40, -1e-40, 0.5, 1.0, 1.0000001, 1.5, 4.0, 999.9, 1000.0, 1000.0001, -1.0,
        1e30, f32::INFINITY, f32::NEG_INFINITY, f32::NAN,
    ];
    for v in samples {
        let weight = v.is_finite() && (0.0..=1000.0).contains(&v);
        assert_eq!(is_weight(v.to_bits()), weight, "{v}");
        assert_eq!(is_over_one(v.to_bits()), 1.0f32.max(v) > 1.0, "{v}");
    }
}

#[test]
fn xml_is_escaped() {
    assert_eq!(xml_escape("a & b"), "a &amp; b");
    assert_eq!(
        xml_escape("<a href=\"x\">it's</a>"),
        "&lt;a href=&quot;x&quot;&gt;it&apos;s&lt;/a&gt;"
    );
    assert_eq!(xml_escape("&amp;"), "&amp;amp;");
    assert_eq!(xml_escape("plain ü"), "plain ü");
}

#[test]
fn escaped_text_has_no_markup_and_loses_nothing() {
    let samples = ["", "&", "<", "&lt;", "\"'<>&", "amp;", "&amp;"];
    for (i, a) in samples.iter().enumerate() {
        let e = xml_escape(a);
        assert!(!e.contains(['<', '>', '"', '\'']));
        for (j, b) in samples.iter().enumerate() {
            assert_eq!(i == j, e == xml_escape(b));
        }
    }
}
