//! A parsed query string, in which a key may be repeated.

use crate::text;
use vstd::hash_map::StringHashMap;
use vstd::prelude::*;
use vstd::string::*;

verus! {

/// The views of key-value pairs.
pub open spec fn pair_views(pairs: Seq<(String, String)>) -> Seq<(Seq<char>, Seq<char>)> {
    pairs.map_values(|p: (String, String)| (p.0@, p.1@))
}

/// The key-value pairs of a text in the `application/x-www-form-urlencoded`
/// syntax.
pub uninterp spec fn form_pairs(query: Seq<char>) -> Seq<(Seq<char>, Seq<char>)>;

/// A text with every `+` read as a space.
pub open spec fn spaced(s: Seq<char>) -> Seq<char> {
    s.map_values(
        |c: char|
            if c == '+' {
                ' '
            } else {
                c
            },
    )
}

/// The key-value pairs in the pieces between `&`, without the empty ones, each
/// parted at its first `=`; a piece without one is a key with an empty value.
pub open spec fn plain_pairs(pieces: Seq<Seq<char>>) -> Seq<(Seq<char>, Seq<char>)>
    decreases pieces.len(),
{
    if pieces.len() == 0 {
        Seq::empty()
    } else {
        let front = plain_pairs(pieces.drop_last());
        if pieces.last().len() == 0 {
            front
        } else {
            match text::split_once(pieces.last(), '=') {
                Some((k, v)) => front.push((k, v)),
                None => front.push((pieces.last(), Seq::empty())),
            }
        }
    }
}

/// `url::form_urlencoded::parse`, read to its end. Its pairs are a function of
/// the text. Where the text has no `%` escapes they are the pieces between
/// `&`, parted at their first `=`, with each `+` a space; how escapes are
/// decoded is named and not spelled out.
#[verifier::external_body]
fn parse_form(query: &str) -> (r: Vec<(String, String)>)
    ensures
        pair_views(r@) == form_pairs(query@),
        !query@.contains('%') ==> pair_views(r@) == plain_pairs(
            text::split(spaced(query@), '&'),
        ),
{
    url::form_urlencoded::parse(query.as_bytes()).into_owned().collect()
}

/// The values that the pairs give to `key`, in order.
pub open spec fn values_for(pairs: Seq<(Seq<char>, Seq<char>)>, key: Seq<char>) -> Seq<Seq<char>>
    decreases pairs.len(),
{
    if pairs.len() == 0 {
        Seq::empty()
    } else {
        let front = values_for(pairs.drop_last(), key);
        if pairs.last().0 == key {
            front.push(pairs.last().1)
        } else {
            front
        }
    }
}

/// Repeated keys are kept: the values of a key in two lists of pairs are those
/// in the first and then those in the second.
pub proof fn values_are_kept_in_order(
    a: Seq<(Seq<char>, Seq<char>)>,
    b: Seq<(Seq<char>, Seq<char>)>,
    key: Seq<char>,
)
    ensures
        values_for(a + b, key) == values_for(a, key) + values_for(b, key),
    decreases b.len(),
{
    if b.len() == 0 {
        assert(a + b =~= a);
        assert(values_for(a, key) + values_for(b, key) =~= values_for(a, key));
    } else {
        assert((a + b).drop_last() =~= a + b.drop_last());
        values_are_kept_in_order(a, b.drop_last(), key);
        assert(values_for(a + b, key) =~= values_for(a, key) + values_for(b, key));
    }
}

/// The values that a table holds for `key`.
spec fn held(map: Map<Seq<char>, Vec<String>>, key: Seq<char>) -> Seq<Seq<char>> {
    if map.contains_key(key) {
        text::texts(map[key]@)
    } else {
        Seq::empty()
    }
}

/// A query string as a map from keys to all of their values.
pub struct QueryMap(StringHashMap<Vec<String>>);

impl QueryMap {
    /// The values of `key`, in the order of the query; none if it is absent.
    pub closed spec fn values(self, key: Seq<char>) -> Seq<Seq<char>> {
        held(self.0@, key)
    }

    /// Collects the values of each key.
    pub fn from_pairs(pairs: Vec<(String, String)>) -> (r: QueryMap)
        ensures
            forall|key: Seq<char>| #[trigger]
                r.values(key) == values_for(pair_views(pairs@), key),
    {
        let ghost all = pair_views(pairs@);
        let mut map: StringHashMap<Vec<String>> = StringHashMap::new();
        let mut i: usize = 0;
        assert(all.take(0) =~= Seq::empty());
        while i < pairs.len()
            invariant
                i <= pairs@.len(),
                all == pair_views(pairs@),
                forall|key: Seq<char>| #[trigger]
                    held(map@, key) == values_for(all.take(i as int), key),
            decreases pairs@.len() - i,
        {
            let k = pairs[i].0.clone();
            let v = pairs[i].1.clone();
            let ghost before = map@;
            assert(all.take(i + 1).drop_last() =~= all.take(i as int));
            assert(all.take(i + 1).last() == (k@, v@));
            let mut list = match map.get(k.as_str()) {
                Some(found) => copy_list(found),
                None => Vec::new(),
            };
            assert(text::texts(list@) =~= held(before, k@));
            list.push(v);
            assert(text::texts(list@) =~= held(before, k@).push(v@));
            map.insert(k, list);
            assert forall|key: Seq<char>| #[trigger]
                held(map@, key) == values_for(all.take(i + 1), key) by {
                assert(held(before, key) == values_for(all.take(i as int), key));
            }
            i += 1;
        }
        assert(all.take(i as int) =~= all);
        let r = QueryMap(map);
        assert forall|key: Seq<char>| #[trigger] r.values(key) == values_for(all, key) by {
            assert(held(map@, key) == values_for(all, key));
        }
        r
    }

    /// Parses a query string.
    pub fn parse(query: &str) -> (r: QueryMap)
        ensures
            forall|key: Seq<char>| #[trigger]
                r.values(key) == values_for(form_pairs(query@), key),
            !query@.contains('%') ==> forall|key: Seq<char>| #[trigger]
                r.values(key) == values_for(plain_pairs(text::split(spaced(query@), '&')), key),
    {
        QueryMap::from_pairs(parse_form(query))
    }

    /// The first value of `key`.
    pub fn get_one(&self, key: &str) -> (r: Option<&str>)
        ensures
            match r {
                Some(v) => self.values(key@).len() > 0 && v@ == self.values(key@)[0],
                None => self.values(key@).len() == 0,
            },
    {
        match self.0.get(key) {
            Some(list) => if list.len() > 0 {
                Some(list[0].as_str())
            } else {
                None
            },
            None => None,
        }
    }

    /// All values of `key`, in order.
    pub fn get_all(&self, key: &str) -> (r: &[String])
        ensures
            text::texts(r@) == self.values(key@),
    {
        match self.0.get(key) {
            Some(list) => list.as_slice(),
            None => {
                let none: &[String] = &[];
                assert(text::texts(none@) =~= Seq::empty());
                none
            },
        }
    }
}

/// Copies a list of texts.
fn copy_list(list: &Vec<String>) -> (r: Vec<String>)
    ensures
        text::texts(r@) == text::texts(list@),
{
    let mut r: Vec<String> = Vec::new();
    let mut i: usize = 0;
    while i < list.len()
        invariant
            i <= list@.len(),
            r@ == list@.take(i as int),
        decreases list@.len() - i,
    {
        r.push(list[i].clone());
        assert(list@.take(i + 1) =~= list@.take(i as int).push(list@[i as int]));
        i += 1;
    }
    assert(list@.take(i as int) =~= list@);
    r
}

/// A pair gives its value to its key and to no other; no pairs give no value.
pub proof fn pair_gives_its_value(pair: (Seq<char>, Seq<char>), key: Seq<char>)
    ensures
        values_for(Seq::empty(), key) == Seq::<Seq<char>>::empty(),
        pair.0 == key ==> values_for(seq![pair], key) == seq![pair.1],
        pair.0 != key ==> values_for(seq![pair], key) == Seq::<Seq<char>>::empty(),
{
    let one = seq![pair];
    assert(one.drop_last() =~= Seq::empty());
    assert(values_for(one.drop_last(), key) =~= Seq::empty());
    assert(one.last() == pair);
    if pair.0 == key {
        assert(values_for(one, key) =~= seq![pair.1]);
    }
}

proof fn plain_pairs_split(a: Seq<Seq<char>>, b: Seq<Seq<char>>)
    ensures
        plain_pairs(a + b) == plain_pairs(a) + plain_pairs(b),
    decreases b.len(),
{
    if b.len() == 0 {
        assert(a + b =~= a);
        assert(plain_pairs(a) + plain_pairs(b) =~= plain_pairs(a));
    } else {
        assert((a + b).drop_last() =~= a + b.drop_last());
        plain_pairs_split(a, b.drop_last());
        assert(plain_pairs(a + b) =~= plain_pairs(a) + plain_pairs(b));
    }
}

/// A query is read pair by pair: `&` parts it, the first `=` parts a key from
/// its value, and nothing between two `&` is nothing.
pub proof fn query_is_its_pairs(a: Seq<char>, b: Seq<char>, key: Seq<char>, value: Seq<char>)
    ensures
        plain_pairs(text::split(a.push('&') + b, '&')) == plain_pairs(text::split(a, '&'))
            + plain_pairs(text::split(b, '&')),
        plain_pairs(text::split(Seq::<char>::empty(), '&')) == Seq::<(Seq<char>, Seq<char>)>::empty(),
        !key.contains('=') && !key.contains('&') && !value.contains('&') ==> plain_pairs(
            text::split(key.push('=') + value, '&'),
        ) == seq![(key, value)],
        key.len() > 0 && !key.contains('=') && !key.contains('&') ==> plain_pairs(
            text::split(key, '&'),
        ) == seq![(key, Seq::<char>::empty())],
{
    text::split_concat(a, b, '&');
    plain_pairs_split(text::split(a, '&'), text::split(b, '&'));
    let none = Seq::<char>::empty();
    text::split_whole(none, '&');
    one_piece(none);
    let e = key.push('=') + value;
    if !key.contains('=') && !key.contains('&') && !value.contains('&') {
        if e.contains('&') {
            let k = choose|k: int| 0 <= k < e.len() && e[k] == '&';
            if k < key.len() {
                assert(key[k] == '&');
            } else {
                assert(value[k - key.len() - 1] == '&');
            }
        }
        text::split_whole(e, '&');
        text::split_once_is(key, '=', value);
        one_piece(e);
    }
    if key.len() > 0 && !key.contains('=') && !key.contains('&') {
        text::split_whole(key, '&');
        text::split_once_parts(key, '=');
        one_piece(key);
    }
}

proof fn one_piece(piece: Seq<char>)
    ensures
        plain_pairs(seq![piece]) == if piece.len() == 0 {
            Seq::empty()
        } else {
            match text::split_once(piece, '=') {
                Some((k, v)) => seq![(k, v)],
                None => seq![(piece, Seq::empty())],
            }
        },
{
    let one = seq![piece];
    assert(one.drop_last() =~= Seq::empty());
    assert(plain_pairs(one.drop_last()) =~= Seq::empty());
    assert(one.last() == piece);
    if piece.len() > 0 {
        match text::split_once(piece, '=') {
            Some((k, v)) => {
                assert(plain_pairs(one) =~= seq![(k, v)]);
            },
            None => {
                assert(plain_pairs(one) =~= seq![(piece, Seq::<char>::empty())]);
            },
        }
    }
}

/// Only a `+` is read as a space; every other character stays in its place.
pub proof fn plus_is_a_space(s: Seq<char>)
    ensures
        spaced(s).len() == s.len(),
        forall|i: int|
            0 <= i < s.len() ==> {
                &&& s[i] == '+' ==> #[trigger] spaced(s)[i] == ' '
                &&& s[i] != '+' ==> spaced(s)[i] == s[i]
            },
{
}

/// The views of pairs keep every pair in its place.
pub proof fn pairs_are_kept(pairs: Seq<(String, String)>)
    ensures
        pair_views(pairs).len() == pairs.len(),
        forall|i: int|
            0 <= i < pairs.len() ==> (#[trigger] pair_views(pairs)[i]).0 == pairs[i].0@
                && pair_views(pairs)[i].1 == pairs[i].1@,
{
}

} // verus!
