//! Entity tags: a render is determined by its query string, by the source of
//! its tiles and by the version of the renderer, so their hash names it.

use crate::number;
use std::collections::hash_map::DefaultHasher;
use std::hash::{Hash, Hasher};
use vstd::prelude::*;
use vstd::std_specs::hash::*;
use vstd::string::*;

verus! {

/// The version of the renderer. Another version may render differently, so
/// it has other tags.
pub const VERSION: &'static str = "0.1.0";

/// What hashing a text writes to a hasher.
pub uninterp spec fn text_writes(s: Seq<char>) -> Seq<Seq<u8>>;

/// `<str as std::hash::Hash>::hash`: what it writes is a function of the text,
/// and it writes it after what was written before. What that is, is named and
/// not spelled out.
#[verifier::external_body]
fn hash_text(h: &mut DefaultHasher, s: &str)
    ensures
        final(h)@ == old(h)@ + text_writes(s@),
{
    s.hash(h);
}

/// The hash of a query, a source and the version of the renderer.
pub open spec fn request_hash(query: Seq<char>, source: Seq<char>) -> u64 {
    DefaultHasher::spec_finish(text_writes(query) + text_writes(source) + text_writes(VERSION@))
}

/// A hash as an entity tag: sixteen hexadecimal digits in quotes.
pub open spec fn tag_of(hash: u64) -> Seq<char> {
    seq!['"'] + number::hex(hash as nat, 16) + seq!['"']
}

/// Writes a hash as an entity tag.
pub fn tag_for_hash(hash: u64) -> (r: String)
    ensures
        r@ == tag_of(hash),
{
    let digits = number::to_hex(hash, 16);
    let mut r = String::new();
    r.push('"');
    r.append(digits.as_str());
    r.push('"');
    assert(r@ =~= tag_of(hash));
    r
}

/// The entity tag of a request: its query, the source of its tiles and the
/// version of the renderer all count.
pub fn etag_for_request(query: &str, source: &str) -> (r: String)
    ensures
        r@ == tag_of(request_hash(query@, source@)),
{
    let mut h = DefaultHasher::new();
    hash_text(&mut h, query);
    hash_text(&mut h, source);
    hash_text(&mut h, VERSION);
    assert(h@ =~= text_writes(query@) + text_writes(source@) + text_writes(VERSION@));
    tag_for_hash(h.finish())
}

/// Different hashes have different tags.
pub proof fn tags_differ(a: u64, b: u64)
    requires
        a != b,
    ensures
        tag_of(a) != tag_of(b),
{
    if tag_of(a) == tag_of(b) {
        hex_length(a as nat, 16);
        hex_length(b as nat, 16);
        assert(number::hex(a as nat, 16) =~= tag_of(a).subrange(1, 17));
        assert(number::hex(b as nat, 16) =~= tag_of(b).subrange(1, 17));
        hex_injective(a as nat, b as nat, 16);
        assert(pow16(16) == 0x1_0000_0000_0000_0000) by {
            reveal_with_fuel(pow16, 17);
        }
    }
}

proof fn hex_length(n: nat, width: nat)
    ensures
        number::hex(n, width).len() == width,
    decreases width,
{
    if width > 0 {
        hex_length(n / 16, (width - 1) as nat);
    }
}

/// 16 to the power `k`.
spec fn pow16(k: nat) -> nat
    decreases k,
{
    if k == 0 {
        1
    } else {
        16 * pow16((k - 1) as nat)
    }
}

proof fn hex_injective(a: nat, b: nat, width: nat)
    requires
        number::hex(a, width) == number::hex(b, width),
    ensures
        a < pow16(width) && b < pow16(width) ==> a == b,
    decreases width,
{
    if width > 0 {
        let w = (width - 1) as nat;
        let (ha, hb) = (number::hex(a, width), number::hex(b, width));
        assert(ha.drop_last() =~= number::hex(a / 16, w));
        assert(hb.drop_last() =~= number::hex(b / 16, w));
        hex_injective(a / 16, b / 16, w);
        assert(ha.last() == number::hex_char(a % 16));
        assert(hb.last() == number::hex_char(b % 16));
    }
}

/// A tag is sixteen hexadecimal digits in quotes, and covers the query, the
/// source and the version, one after the other.
pub proof fn tag_covers_the_request(query: Seq<char>, source: Seq<char>, hash: u64)
    ensures
        request_hash(query, source) == DefaultHasher::spec_finish(
            text_writes(query) + text_writes(source) + text_writes("0.1.0"@),
        ),
        tag_of(hash).len() == 18,
        tag_of(hash)[0] == '"',
        tag_of(hash)[17] == '"',
        tag_of(hash).subrange(1, 17) == number::hex(hash as nat, 16),
{
    hex_length(hash as nat, 16);
    assert(tag_of(hash).subrange(1, 17) =~= number::hex(hash as nat, 16));
}

} // verus!
