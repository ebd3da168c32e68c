use tiler::polyline::{decode, decode_value};

#[test]
fn decodes_known_example() {
    // From Google's documentation example.
    let points: Vec<(f64, f64)> = decode("_p~iF~ps|U_ulLnnqC_mqNvxq`@")
        .into_iter()
        .map(|(lat, lon)| (lat as f64 / 1e5, lon as f64 / 1e5))
        .collect();
    assert_eq!(
        points,
        vec![(38.5, -120.2), (40.7, -120.95), (43.252, -126.453)]
    );
}

fn encode(points: &[(i64, i64)]) -> String {
    let mut out = Vec::new();
    let mut last = (0i64, 0i64);
    for &(lat, lon) in points {
        for d in [lat - last.0, lon - last.1] {
            let mut n = if d < 0 {
                (-2 * d as i128 - 1) as u128
            } else {
                2 * d as u128
            };
            while n >= 32 {
                out.push((n % 32) as u8 + 95);
                n /= 32;
            }
            out.push(n as u8 + 63);
        }
        last = (lat, lon);
    }
    String::from_utf8(out).unwrap()
}

#[test]
fn decoding_undoes_encoding() {
    let lists: [&[(i64, i64)]; 4] = [
        &[],
        &[(0, 0)],
        &[(3850000, -12020000), (4070000, -12095000), (4325200, -12645300)],
        &[(-(1 << 62), (1 << 62) - 1), (-1, 1)],
    ];
    for list in lists {
        assert_eq!(decode(&encode(list)), list);
    }
}

#[test]
fn a_cut_off_polyline_ends_early() {
    assert_eq!(decode(""), vec![]);
    assert_eq!(decode("_p~iF"), vec![]);
    assert_eq!(decode("_p~iF~ps|"), vec![]);
    assert_eq!(decode("_p~iF~ps|U_ulL"), vec![(3850000, -12020000)]);
}

#[test]
fn single_values_are_read_with_the_index_behind_them() {
    assert_eq!(decode_value(b"_p~iF", 0), Some((3850000, 5)));
    assert_eq!(decode_value(b"?", 0), Some((0, 1)));
    assert_eq!(decode_value(b"@", 0), Some((-1, 1)));
    assert_eq!(decode_value(b"A", 0), Some((1, 1)));
    assert_eq!(decode_value(b"?", 1), None);
    assert_eq!(decode_value(b"_", 0), None);
}

#[test]
fn too_many_groups_end_the_list() {
    // Twelve continued groups and a last one are read, thirteen continued are not.
    let mut long = vec![95u8; 12];
    long.push(63);
    assert_eq!(decode_value(&long, 0), Some((0, 13)));
    assert_eq!(decode_value(&[95u8; 13], 0), None);
    assert_eq!(decode_value(&[95u8; 14], 0), None);
}

#[test]
fn bytes_below_the_alphabet_end_a_value() {
    // A space is 31 below the alphabet, so its low five bits are 1.
    assert_eq!(decode_value(b" ", 0), Some((-1, 1)));
}

#[test]
fn sums_that_leave_64_bits_end_the_list() {
    let step = (1i64 << 62) - 1;
    let mut text = String::new();
    for _ in 0..4 {
        text.push_str(&encode(&[(step, 0)]));
    }
    assert_eq!(decode(&text), vec![(step, 0), (2 * step, 0)]);
}
