//! Google's encoded polylines, as used by `path=enc:...`. Coordinates are
//! held as whole numbers of hundred-thousandths of a degree, the standard
//! precision of five decimal digits.

use vstd::prelude::*;
use vstd::string::*;
use vstd::utf8::*;

verus! {

/// The five bits of a number that a byte carries: those of the byte less 63.
pub open spec fn group(b: u8) -> nat {
    ((b + 1) % 32) as nat
}

/// Whether a byte says that more groups of the same number follow.
pub open spec fn continues(b: u8) -> bool {
    b >= 95
}

/// A number is written in at most this many groups.
pub const MAX_GROUPS: u8 = 13;

/// The index just behind the number of which `k` groups end before index `i`;
/// `None` if the bytes run out or the number has too many groups.
pub open spec fn value_end(bytes: Seq<u8>, i: int, k: nat) -> Option<int>
    decreases bytes.len() - i,
{
    if i < 0 || i >= bytes.len() {
        None
    } else if !continues(bytes[i]) {
        Some(i + 1)
    } else if k + 1 >= MAX_GROUPS {
        None
    } else {
        value_end(bytes, i + 1, k + 1)
    }
}

/// 32 to the power `k`.
pub open spec fn pow32(k: nat) -> nat
    decreases k,
{
    if k == 0 {
        1
    } else {
        32 * pow32((k - 1) as nat)
    }
}

/// The number whose groups, lowest first, stand from index `i` to before `j`.
pub open spec fn groups_value(bytes: Seq<u8>, i: int, j: int) -> nat
    decreases j - i,
{
    if j <= i {
        0
    } else {
        groups_value(bytes, i, j - 1) + group(bytes[j - 1]) * pow32((j - 1 - i) as nat)
    }
}

/// The 64-bit two's complement number with the low 64 bits of `n`.
pub open spec fn as_signed(n: nat) -> int {
    let low = n as int % 0x1_0000_0000_0000_0000;
    if low < 0x8000_0000_0000_0000 {
        low
    } else {
        low - 0x1_0000_0000_0000_0000
    }
}

/// The difference that a number stands for: its lowest bit is the sign.
pub open spec fn difference(n: int) -> int {
    if n % 2 == 1 {
        -(n / 2) - 1
    } else {
        n / 2
    }
}

/// The difference written from index `i` on, and the index behind it.
pub open spec fn value_at(bytes: Seq<u8>, i: int) -> Option<(int, int)> {
    match value_end(bytes, i, 0) {
        Some(j) => Some((difference(as_signed(groups_value(bytes, i, j))), j)),
        None => None,
    }
}

proof fn pow32_bounds(k: nat)
    requires
        k <= 12,
    ensures
        1 <= pow32(k) <= 0x1000_0000_0000_0000,
    decreases 12 - k,
{
    if k < 12 {
        pow32_bounds(k + 1);
        assert(pow32(k + 1) == 32 * pow32(k));
    } else {
        reveal_with_fuel(pow32, 13);
    }
    pow32_positive(k);
}

proof fn pow32_positive(k: nat)
    ensures
        pow32(k) >= 1,
    decreases k,
{
    if k > 0 {
        pow32_positive((k - 1) as nat);
    }
}

proof fn groups_value_bound(bytes: Seq<u8>, i: int, j: int)
    requires
        i <= j,
    ensures
        groups_value(bytes, i, j) < pow32((j - i) as nat),
    decreases j - i,
{
    if i < j {
        groups_value_bound(bytes, i, j - 1);
        let p = pow32((j - 1 - i) as nat);
        let g = group(bytes[j - 1]);
        assert(g * p <= 31 * p) by (nonlinear_arith)
            requires
                g <= 31,
        ;
    }
}

/// The difference that the low 64 bits of a number stand for.
fn read_difference(n: u128) -> (r: i64)
    ensures
        r == difference(as_signed(n as nat)),
{
    let low: i128 = (n % 0x1_0000_0000_0000_0000) as i128;
    let signed: i128 = if low < 0x8000_0000_0000_0000 {
        low
    } else {
        low - 0x1_0000_0000_0000_0000
    };
    // The halves are rounded down, so that they differ from `/` where `signed` is negative.
    if signed >= 0 {
        if signed % 2 == 1 {
            (-(signed / 2) - 1) as i64
        } else {
            (signed / 2) as i64
        }
    } else {
        let half: i128 = (-signed) / 2;
        if (-signed) % 2 == 1 {
            half as i64
        } else {
            (-half) as i64
        }
    }
}

/// Reads the difference written from `index` on. Returns it with the index
/// behind it, or `None` where the input ends within it or it has more groups
/// than 64 bits can take.
pub fn decode_value(bytes: &[u8], index: usize) -> (r: Option<(i64, usize)>)
    ensures
        match r {
            Some((delta, next)) => value_at(bytes@, index as int) == Some(
                (delta as int, next as int),
            ) && index < next <= bytes@.len(),
            None => value_at(bytes@, index as int) is None,
        },
{
    let mut i: usize = index;
    let mut k: u8 = 0;
    let mut total: u128 = 0;
    let mut weight: u128 = 1;
    loop
        invariant
            index <= i,
            k == i - index,
            k < MAX_GROUPS,
            weight == pow32(k as nat),
            total == groups_value(bytes@, index as int, i as int),
            value_end(bytes@, index as int, 0) == value_end(bytes@, i as int, k as nat),
        decreases MAX_GROUPS - k,
    {
        if i >= bytes.len() {
            return None;
        }
        let b = bytes[i];
        let g: u128 = (b as u128 + 1) % 32;
        proof {
            pow32_bounds(k as nat);
            groups_value_bound(bytes@, index as int, i as int);
            assert(g * weight <= 31 * weight) by (nonlinear_arith)
                requires
                    g <= 31,
            ;
            assert(g == group(b));
        }
        total = total + g * weight;
        i += 1;
        if b < 95 {
            return Some((read_difference(total), i));
        }
        if k + 1 >= MAX_GROUPS {
            return None;
        }
        weight = weight * 32;
        k += 1;
    }
}

/// The points written from index `i` on, when the point before them is
/// (`lat`, `lon`): each is the one before it plus two differences. A number
/// that cannot be read or that leaves 64 bits ends the list.
pub open spec fn points_from(bytes: Seq<u8>, i: int, lat: int, lon: int) -> Seq<(i64, i64)>
    decreases bytes.len() - i,
{
    match value_at(bytes, i) {
        None => Seq::empty(),
        Some((dlat, j)) => match value_at(bytes, j) {
            None => Seq::empty(),
            Some((dlon, next)) => {
                if i < j < next <= bytes.len() && i64::MIN <= lat + dlat <= i64::MAX && i64::MIN <= lon + dlon
                    <= i64::MAX {
                    seq![((lat + dlat) as i64, (lon + dlon) as i64)] + points_from(
                        bytes,
                        next,
                        lat + dlat,
                        lon + dlon,
                    )
                } else {
                    Seq::empty()
                }
            },
        },
    }
}

/// The points of an encoded polyline.
pub open spec fn points(encoded: Seq<char>) -> Seq<(i64, i64)> {
    points_from(encode_utf8(encoded), 0, 0, 0)
}

/// Decodes an encoded polyline into `(lat, lon)` pairs, in hundred-thousandths
/// of a degree.
pub fn decode(encoded: &str) -> (r: Vec<(i64, i64)>)
    ensures
        r@ == points(encoded@),
{
    let bytes = encoded.as_bytes();
    let mut index: usize = 0;
    let mut lat: i64 = 0;
    let mut lon: i64 = 0;
    let mut coords: Vec<(i64, i64)> = Vec::new();
    assert(coords@ + points(encoded@) =~= points(encoded@));
    while index < bytes.len()
        invariant
            index <= bytes@.len(),
            coords@ + points_from(bytes@, index as int, lat as int, lon as int) == points(
                encoded@,
            ),
        ensures
            coords@ == points(encoded@),
        decreases bytes@.len() - index,
    {
        assert(coords@ + Seq::<(i64, i64)>::empty() =~= coords@);
        let ghost rest = points_from(bytes@, index as int, lat as int, lon as int);
        let (dlat, next) = match decode_value(bytes, index) {
            Some(v) => v,
            None => {
                break;
            },
        };
        let (dlon, after) = match decode_value(bytes, next) {
            Some(v) => v,
            None => {
                break;
            },
        };
        lat = match lat.checked_add(dlat) {
            Some(v) => v,
            None => {
                break;
            },
        };
        lon = match lon.checked_add(dlon) {
            Some(v) => v,
            None => {
                break;
            },
        };
        index = after;
        let ghost before = coords@;
        coords.push((lat, lon));
        assert(before + rest =~= coords@ + points_from(
            bytes@,
            index as int,
            lat as int,
            lon as int,
        ));
    }
    coords
}

// ---------------------------------------------------------------------------
// Encoding, and that decoding undoes it
// ---------------------------------------------------------------------------

/// A difference as a number whose lowest bit is the sign.
pub open spec fn zigzag(v: int) -> nat {
    if v < 0 {
        (-2 * v - 1) as nat
    } else {
        (2 * v) as nat
    }
}

/// A number in groups of five bits, lowest first, each but the last marked as
/// continued, and each plus 63.
pub open spec fn encode_number(n: nat) -> Seq<u8>
    decreases n,
{
    if n < 32 {
        seq![(n + 63) as u8]
    } else {
        seq![(n % 32 + 95) as u8] + encode_number(n / 32)
    }
}

/// The encoding of the points that follow (`lat`, `lon`).
pub open spec fn encode_from(list: Seq<(i64, i64)>, lat: int, lon: int) -> Seq<u8>
    decreases list.len(),
{
    if list.len() == 0 {
        Seq::empty()
    } else {
        let (a, b) = list[0];
        encode_number(zigzag(a - lat)) + encode_number(zigzag(b - lon)) + encode_from(
            list.drop_first(),
            a as int,
            b as int,
        )
    }
}

/// Whether a difference fits in 63 bits, so that it fits in 64 together with
/// its sign bit.
pub open spec fn step_fits(v: int) -> bool {
    -0x4000_0000_0000_0000 <= v < 0x4000_0000_0000_0000
}

/// Whether every step from one point to the next fits, starting from
/// (`lat`, `lon`).
pub open spec fn steps_fit(list: Seq<(i64, i64)>, lat: int, lon: int) -> bool
    decreases list.len(),
{
    if list.len() == 0 {
        true
    } else {
        let (a, b) = list[0];
        &&& step_fits(a - lat)
        &&& step_fits(b - lon)
        &&& steps_fit(list.drop_first(), a as int, b as int)
    }
}

/// Decoding gives back the points that the polyline encoding wrote.
pub proof fn decode_undoes_encode(encoded: Seq<char>, list: Seq<(i64, i64)>)
    requires
        steps_fit(list, 0, 0),
        encode_utf8(encoded) == encode_from(list, 0, 0),
    ensures
        points(encoded) == list,
{
    let bytes = encode_utf8(encoded);
    assert(bytes.skip(0) =~= bytes);
    points_of_encoding(bytes, 0, list, 0, 0);
}

proof fn points_of_encoding(bytes: Seq<u8>, i: int, list: Seq<(i64, i64)>, lat: int, lon: int)
    requires
        0 <= i <= bytes.len(),
        bytes.skip(i) == encode_from(list, lat, lon),
        steps_fit(list, lat, lon),
    ensures
        points_from(bytes, i, lat, lon) == list,
    decreases list.len(),
{
    let rest = bytes.skip(i);
    if list.len() == 0 {
        assert(i == bytes.len());
        assert(points_from(bytes, i, lat, lon) =~= list);
    } else {
        let (a, b) = list[0];
        let ea = encode_number(zigzag(a - lat));
        let eb = encode_number(zigzag(b - lon));
        let tail = encode_from(list.drop_first(), a as int, b as int);
        assert(rest == ea + eb + tail);
        let j = i + ea.len();
        assert(bytes.subrange(i, j) =~= ea) by {
            assert forall|k: int| 0 <= k < ea.len() implies bytes[i + k] == ea[k] by {
                assert(rest[k] == (ea + eb + tail)[k]);
            }
        }
        value_of_encoding(bytes, i, a - lat);
        let next = j + eb.len();
        assert(bytes.subrange(j, next) =~= eb) by {
            assert forall|k: int| 0 <= k < eb.len() implies bytes[j + k] == eb[k] by {
                assert(rest[ea.len() + k] == (ea + eb + tail)[ea.len() + k]);
            }
        }
        value_of_encoding(bytes, j, b - lon);
        assert(bytes.skip(next) =~= tail) by {
            assert forall|k: int| 0 <= k < tail.len() implies bytes[next + k] == tail[k] by {
                assert(rest[ea.len() + eb.len() + k] == (ea + eb + tail)[ea.len() + eb.len() + k]);
            }
        }
        points_of_encoding(bytes, next, list.drop_first(), a as int, b as int);
        assert(points_from(bytes, i, lat, lon) =~= list);
    }
}

/// A difference that fits reads back from its encoding.
pub proof fn value_of_encoding(bytes: Seq<u8>, i: int, v: int)
    requires
        step_fits(v),
        0 <= i,
        i + encode_number(zigzag(v)).len() <= bytes.len(),
        bytes.subrange(i, i + encode_number(zigzag(v)).len()) == encode_number(zigzag(v)),
    ensures
        encode_number(zigzag(v)).len() >= 1,
        value_at(bytes, i) == Some((v, i + encode_number(zigzag(v)).len())),
{
    let n = zigzag(v);
    let e = encode_number(n);
    assert(n < 0x8000_0000_0000_0000);
    assert(pow32(13) == 0x2_0000_0000_0000_0000) by {
        reveal_with_fuel(pow32, 14);
    }
    encoding_reads_back(bytes, i, i, n, 0);
    assert(groups_value(bytes, i, i) == 0);
    assert(pow32(0) == 1);
    assert(n * pow32(0) == n) by (nonlinear_arith)
        requires
            pow32(0) == 1,
    ;
    assert(as_signed(n) == n);
    assert(difference(n as int) == v);
}

/// Reading on from index `j`, after the `k` groups from index `i`, through the
/// encoding of `n`.
proof fn encoding_reads_back(bytes: Seq<u8>, i: int, j: int, n: nat, k: nat)
    requires
        0 <= i,
        j == i + k,
        k < MAX_GROUPS,
        n < pow32((MAX_GROUPS - k) as nat),
        j + encode_number(n).len() <= bytes.len(),
        bytes.subrange(j, j + encode_number(n).len()) == encode_number(n),
    ensures
        encode_number(n).len() >= 1,
        value_end(bytes, j, k) == Some(j + encode_number(n).len()),
        groups_value(bytes, i, j + encode_number(n).len()) == groups_value(bytes, i, j) + n
            * pow32(k),
    decreases n,
{
    let e = encode_number(n);
    assert(bytes[j] == bytes.subrange(j, j + e.len())[0]);
    if n < 32 {
        assert(group(bytes[j]) == n);
    } else {
        let m = n / 32;
        let rest = encode_number(m);
        assert(e == seq![(n % 32 + 95) as u8] + rest);
        assert(group(bytes[j]) == n % 32);
        assert(continues(bytes[j]));
        assert(k + 1 < MAX_GROUPS) by {
            if k + 1 == MAX_GROUPS {
                reveal_with_fuel(pow32, 2);
                assert(pow32(1) == 32);
            }
        }
        assert(pow32((MAX_GROUPS - k) as nat) == 32 * pow32((MAX_GROUPS - k - 1) as nat));
        assert(bytes.subrange(j + 1, j + 1 + rest.len()) =~= rest) by {
            assert forall|x: int| 0 <= x < rest.len() implies bytes[j + 1 + x] == rest[x] by {
                assert(bytes[j + 1 + x] == bytes.subrange(j, j + e.len())[1 + x]);
            }
        }
        encoding_reads_back(bytes, i, j + 1, m, k + 1);
        let p = pow32(k);
        assert(pow32(k + 1) == 32 * p);
        assert((n % 32) * p + m * (32 * p) == n * p) by (nonlinear_arith)
            requires
                n == 32 * m + n % 32,
        ;
    }
}

/// A number that does not end in thirteen groups is none, and neither is one
/// that the text breaks off.
pub proof fn endless_numbers_are_none(bytes: Seq<u8>, i: int)
    requires
        0 <= i,
        forall|k: int| i <= k < i + 13 && k < bytes.len() ==> #[trigger] bytes[k] >= 95,
    ensures
        value_at(bytes, i) is None,
{
    no_end(bytes, i, 0);
}

proof fn no_end(bytes: Seq<u8>, i: int, k: nat)
    requires
        0 <= i,
        k < 13,
        forall|j: int| i <= j < i + 13 - k && j < bytes.len() ==> #[trigger] bytes[j] >= 95,
    ensures
        value_end(bytes, i, k) is None,
    decreases 13 - k,
{
    if i < bytes.len() && k + 1 < 13 {
        assert(bytes[i] >= 95);
        no_end(bytes, i + 1, k + 1);
    } else if i < bytes.len() {
        assert(bytes[i] >= 95);
    }
}

/// What breaks off behind the points of a polyline adds no point: the points
/// that were written are read, whether half a point follows or none.
pub proof fn broken_end_is_dropped(encoded: Seq<char>, list: Seq<(i64, i64)>, tail: Seq<u8>)
    requires
        steps_fit(list, 0, 0),
        encode_utf8(encoded) == encode_from(list, 0, 0) + tail,
        forall|k: int| 0 <= k < tail.len() ==> #[trigger] tail[k] >= 95,
    ensures
        points(encoded) == list,
{
    let bytes = encode_utf8(encoded);
    assert(bytes.skip(0) =~= bytes);
    points_before_tail(bytes, 0, list, 0, 0, tail);
}

proof fn points_before_tail(
    bytes: Seq<u8>,
    i: int,
    list: Seq<(i64, i64)>,
    lat: int,
    lon: int,
    tail: Seq<u8>,
)
    requires
        0 <= i <= bytes.len(),
        bytes.skip(i) == encode_from(list, lat, lon) + tail,
        steps_fit(list, lat, lon),
        forall|k: int| 0 <= k < tail.len() ==> #[trigger] tail[k] >= 95,
    ensures
        points_from(bytes, i, lat, lon) == list,
    decreases list.len(),
{
    let rest = bytes.skip(i);
    if list.len() == 0 {
        assert(rest =~= tail);
        assert forall|k: int| i <= k < i + 13 && k < bytes.len() implies #[trigger] bytes[k]
            >= 95 by {
            assert(bytes[k] == rest[k - i]);
            assert(tail[k - i] >= 95);
        }
        endless_numbers_are_none(bytes, i);
        assert(points_from(bytes, i, lat, lon) =~= list);
    } else {
        let (a, b) = list[0];
        let ea = encode_number(zigzag(a - lat));
        let eb = encode_number(zigzag(b - lon));
        let more = encode_from(list.drop_first(), a as int, b as int);
        assert(rest =~= ea + eb + (more + tail));
        let j = i + ea.len();
        assert(bytes.subrange(i, j) =~= ea) by {
            assert forall|k: int| 0 <= k < ea.len() implies bytes[i + k] == ea[k] by {
                assert(rest[k] == (ea + eb + (more + tail))[k]);
            }
        }
        value_of_encoding(bytes, i, a - lat);
        let next = j + eb.len();
        assert(bytes.subrange(j, next) =~= eb) by {
            assert forall|k: int| 0 <= k < eb.len() implies bytes[j + k] == eb[k] by {
                assert(rest[ea.len() + k] == (ea + eb + (more + tail))[ea.len() + k]);
            }
        }
        value_of_encoding(bytes, j, b - lon);
        assert(bytes.skip(next) =~= more + tail) by {
            assert forall|k: int| 0 <= k < (more + tail).len() implies bytes[next + k] == (more
                + tail)[k] by {
                assert(rest[ea.len() + eb.len() + k] == (ea + eb + (more + tail))[ea.len()
                    + eb.len() + k]);
            }
        }
        points_before_tail(bytes, next, list.drop_first(), a as int, b as int, tail);
        assert(points_from(bytes, i, lat, lon) =~= list);
    }
}

} // verus!
