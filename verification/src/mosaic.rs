//! Putting the tiles of a map together: they arrive in any order, and some may
//! be absent or fail.

use crate::tiles;
use crate::tiles::{DecodeError, DecodedLayer, DecodedLayerView};
use vstd::multiset::*;
use vstd::prelude::*;
use vstd::seq_lib::*;

verus! {

/// What reading a tile from the archive came to.
#[derive(Debug)]
pub enum Fetched {
    /// The tile.
    Bytes(Vec<u8>),
    /// The archive does not have the tile, which is no error.
    Absent,
    /// The archive could not be read.
    Failed,
}

/// A tile, and what is in it.
#[derive(Debug)]
pub struct DecodedTile {
    pub z: u8,
    pub x: u32,
    pub y: u32,
    pub layers: Vec<DecodedLayer>,
}

/// A [`DecodedTile`] with its layers as a sequence.
pub struct DecodedTileView {
    pub z: u8,
    pub x: u32,
    pub y: u32,
    pub layers: Seq<DecodedLayerView>,
}

impl View for DecodedTile {
    type V = DecodedTileView;

    open spec fn view(&self) -> DecodedTileView {
        DecodedTileView {
            z: self.z,
            x: self.x,
            y: self.y,
            layers: tiles::layer_views(self.layers@),
        }
    }
}

/// What became of a tile.
#[derive(Debug)]
pub enum TileOutcome {
    Tile(DecodedTile),
    Absent,
    /// It could not be read or not be decoded.
    Failed,
}

/// A [`TileOutcome`] with its contents as a sequence.
pub enum TileOutcomeView {
    Tile(DecodedTileView),
    Absent,
    Failed,
}

impl View for TileOutcome {
    type V = TileOutcomeView;

    open spec fn view(&self) -> TileOutcomeView {
        match *self {
            TileOutcome::Tile(t) => TileOutcomeView::Tile(t@),
            TileOutcome::Absent => TileOutcomeView::Absent,
            TileOutcome::Failed => TileOutcomeView::Failed,
        }
    }
}

/// What became of a tile that decoding gave these layers, or none.
pub open spec fn outcome_of(
    z: u8,
    x: u32,
    y: u32,
    decoded: Result<Seq<DecodedLayerView>, DecodeError>,
) -> TileOutcomeView {
    match decoded {
        Ok(layers) => TileOutcomeView::Tile(DecodedTileView { z, x, y, layers }),
        Err(_) => TileOutcomeView::Failed,
    }
}

/// The view of what decoding gave.
pub open spec fn layers_or_error(r: Result<Vec<DecodedLayer>, DecodeError>) -> Result<
    Seq<DecodedLayerView>,
    DecodeError,
> {
    match r {
        Ok(layers) => Ok(tiles::layer_views(layers@)),
        Err(e) => Err(e),
    }
}

/// Tells what became of a tile by what decoding it gave.
pub fn decoded_outcome(
    z: u8,
    x: u32,
    y: u32,
    decoded: Result<Vec<DecodedLayer>, DecodeError>,
) -> (r: TileOutcome)
    ensures
        r@ == outcome_of(z, x, y, layers_or_error(decoded)),
{
    match decoded {
        Ok(layers) => TileOutcome::Tile(DecodedTile { z, x, y, layers }),
        Err(_) => TileOutcome::Failed,
    }
}

/// Decodes a tile that has been fetched.
pub fn tile_outcome(z: u8, x: u32, y: u32, fetched: Fetched) -> (r: TileOutcome)
    ensures
        r@ == match fetched {
            Fetched::Bytes(bytes) => outcome_of(z, x, y, tiles::decoded(bytes@)),
            Fetched::Absent => TileOutcomeView::Absent,
            Fetched::Failed => TileOutcomeView::Failed,
        },
{
    match fetched {
        Fetched::Bytes(bytes) => decoded_outcome(z, x, y, tiles::decode_tile(bytes)),
        Fetched::Absent => TileOutcome::Absent,
        Fetched::Failed => TileOutcome::Failed,
    }
}

/// The views of outcomes.
pub open spec fn outcome_views(outcomes: Seq<TileOutcome>) -> Seq<TileOutcomeView> {
    outcomes.map_values(|o: TileOutcome| o@)
}

/// The views of tiles.
pub open spec fn tile_views(list: Seq<DecodedTile>) -> Seq<DecodedTileView> {
    list.map_values(|t: DecodedTile| t@)
}

/// The place of a tile in the order of tiles: by zoom, then by column, then by
/// row.
pub open spec fn place(t: DecodedTileView) -> int {
    t.z * 0x1_0000_0000_0000_0000 + t.x * 0x1_0000_0000 + t.y
}

/// An ordered list with one more tile, behind those that do not come after it.
pub open spec fn inserted(list: Seq<DecodedTileView>, t: DecodedTileView) -> Seq<DecodedTileView>
    decreases list.len(),
{
    if list.len() == 0 || place(list.last()) <= place(t) {
        list.push(t)
    } else {
        inserted(list.drop_last(), t).push(list.last())
    }
}

/// The tiles that arrived, in the order of tiles.
pub open spec fn tiles_in_order(outcomes: Seq<TileOutcomeView>) -> Seq<DecodedTileView>
    decreases outcomes.len(),
{
    if outcomes.len() == 0 {
        Seq::empty()
    } else {
        let front = tiles_in_order(outcomes.drop_last());
        match outcomes.last() {
            TileOutcomeView::Tile(t) => inserted(front, t),
            _ => front,
        }
    }
}

/// Whether a tile failed, so that the map may be incomplete.
pub open spec fn any_failed(outcomes: Seq<TileOutcomeView>) -> bool {
    exists|i: int| 0 <= i < outcomes.len() && (#[trigger] outcomes[i]) is Failed
}

/// Puts a tile into an ordered list.
fn insert_tile(list: &mut Vec<DecodedTile>, t: DecodedTile)
    requires
        old(list)@.len() < usize::MAX,
    ensures
        tile_views(final(list)@) == inserted(tile_views(old(list)@), t@),
        final(list)@.len() == old(list)@.len() + 1,
{
    let ghost all = tile_views(list@);
    let mut i: usize = list.len();
    assert(all.take(i as int) =~= all);
    assert(all.skip(i as int) =~= Seq::empty());
    assert(inserted(all.take(i as int), t@) + all.skip(i as int) =~= inserted(all, t@));
    while i > 0 && !comes_first(&list[i - 1], &t)
        invariant
            i <= list@.len(),
            all == tile_views(list@),
            inserted(all.take(i as int), t@) + all.skip(i as int) == inserted(all, t@),
        decreases i,
    {
        let ghost front = all.take(i as int);
        assert(front.drop_last() =~= all.take(i - 1));
        assert(front.last() == list@[i - 1]@);
        assert(inserted(front, t@) + all.skip(i as int) =~= inserted(all.take(i - 1), t@)
            + all.skip(i - 1));
        i -= 1;
    }
    assert(i > 0 ==> all.take(i as int).last() == list@[i - 1]@);
    list.insert(i, t);
    assert(tile_views(list@) =~= all.take(i as int).push(t@) + all.skip(i as int));
}

/// Tests whether the first tile does not come after the second.
fn comes_first(a: &DecodedTile, b: &DecodedTile) -> (r: bool)
    ensures
        r == (place(a@) <= place(b@)),
{
    if a.z != b.z {
        a.z < b.z
    } else if a.x != b.x {
        a.x < b.x
    } else {
        a.y <= b.y
    }
}

/// Collects the tiles that arrived, in the order of tiles, and whether one of
/// the others failed.
pub fn collect_tiles(outcomes: Vec<TileOutcome>) -> (r: (Vec<DecodedTile>, bool))
    ensures
        tile_views(r.0@) == tiles_in_order(outcome_views(outcomes@)),
        r.1 == any_failed(outcome_views(outcomes@)),
{
    let ghost all = outcome_views(outcomes@);
    let count: usize = outcomes.len();
    let mut list: Vec<DecodedTile> = Vec::new();
    let mut failed = false;
    assert(tile_views(list@) =~= Seq::empty());
    assert(all.take(0) =~= Seq::empty());
    for o in it: outcomes
        invariant
            it.seq() == outcomes@,
            count == outcomes@.len(),
            all == outcome_views(outcomes@),
            list@.len() <= it.index(),
            tile_views(list@) == tiles_in_order(all.take(it.index() as int)),
            failed == any_failed(all.take(it.index() as int)),
    {
        let ghost n = it.index() as int;
        assert(all.take(n + 1).drop_last() =~= all.take(n));
        assert(all.take(n + 1).last() == o@);
        proof {
            failed_added(all.take(n), o@);
            assert(all.take(n + 1) =~= all.take(n).push(o@));
        }
        match o {
            TileOutcome::Tile(t) => {
                insert_tile(&mut list, t);
            },
            TileOutcome::Absent => {},
            TileOutcome::Failed => {
                failed = true;
            },
        }
    }
    assert(all.take(all.len() as int) =~= all);
    (list, failed)
}

proof fn failed_added(outcomes: Seq<TileOutcomeView>, o: TileOutcomeView)
    ensures
        any_failed(outcomes.push(o)) == (any_failed(outcomes) || o is Failed),
{
    let more = outcomes.push(o);
    if any_failed(outcomes) {
        let i = choose|i: int| 0 <= i < outcomes.len() && (#[trigger] outcomes[i]) is Failed;
        assert(more[i] is Failed);
    }
    if o is Failed {
        assert(more[more.len() - 1] is Failed);
    }
    if any_failed(more) && !(o is Failed) {
        let i = choose|i: int| 0 <= i < more.len() && (#[trigger] more[i]) is Failed;
        assert(outcomes[i] is Failed);
    }
}

/// Tiles with different coordinates have different places.
pub proof fn places_differ(a: DecodedTileView, b: DecodedTileView)
    ensures
        place(a) == place(b) <==> a.z == b.z && a.x == b.x && a.y == b.y,
{
}

/// Whether the tiles are in the order of tiles.
pub open spec fn ordered(list: Seq<DecodedTileView>) -> bool {
    forall|i: int, j: int|
        0 <= i < j < list.len() ==> place(#[trigger] list[i]) <= place(#[trigger] list[j])
}

proof fn inserted_ordered(list: Seq<DecodedTileView>, t: DecodedTileView)
    requires
        ordered(list),
    ensures
        ordered(inserted(list, t)),
        inserted(list, t).to_multiset() == list.to_multiset().insert(t),
        forall|k: int|
            0 <= k < inserted(list, t).len() ==> inserted(list, t)[k] == t || list.contains(
                #[trigger] inserted(list, t)[k],
            ),
    decreases list.len(),
{
    broadcast use group_to_multiset_ensures;

    let r = inserted(list, t);
    if list.len() == 0 || place(list.last()) <= place(t) {
        assert forall|k: int| 0 <= k < r.len() implies r[k] == t || list.contains(
            #[trigger] r[k],
        ) by {
            if k < list.len() {
                assert(r[k] == list[k]);
            }
        }
    } else {
        let front = list.drop_last();
        inserted_ordered(front, t);
        let f = inserted(front, t);
        assert(list =~= front.push(list.last()));
        assert(r == f.push(list.last()));
        assert(r.to_multiset() =~= list.to_multiset().insert(t));
        assert forall|k: int| 0 <= k < f.len() implies place(#[trigger] f[k]) <= place(
            list.last(),
        ) by {
            if f[k] != t {
                assert(front.contains(f[k]));
                let m = choose|m: int| 0 <= m < front.len() && front[m] == f[k];
                assert(list[m] == f[k]);
            }
        }
        assert forall|k: int| 0 <= k < r.len() implies r[k] == t || list.contains(
            #[trigger] r[k],
        ) by {
            if k < f.len() {
                assert(r[k] == f[k]);
                if f[k] != t {
                    let m = choose|m: int| 0 <= m < front.len() && front[m] == f[k];
                    assert(list[m] == f[k]);
                }
            } else {
                assert(r[k] == list[list.len() - 1]);
            }
        }
    }
}

/// The tiles of a map come in the order of tiles, and they are those that
/// arrived, no more and no fewer.
pub proof fn tiles_are_ordered(outcomes: Seq<TileOutcomeView>)
    ensures
        ordered(tiles_in_order(outcomes)),
        forall|t: DecodedTileView|
            tiles_in_order(outcomes).to_multiset().count(t) == #[trigger] outcomes.to_multiset().count(
                TileOutcomeView::Tile(t),
            ),
    decreases outcomes.len(),
{
    broadcast use group_to_multiset_ensures;

    if outcomes.len() > 0 {
        let front = outcomes.drop_last();
        tiles_are_ordered(front);
        assert(outcomes =~= front.push(outcomes.last()));
        match outcomes.last() {
            TileOutcomeView::Tile(t) => {
                inserted_ordered(tiles_in_order(front), t);
            },
            _ => {},
        }
        assert forall|t: DecodedTileView|
            tiles_in_order(outcomes).to_multiset().count(t) == #[trigger] outcomes.to_multiset().count(
                TileOutcomeView::Tile(t),
            ) by {
            assert(tiles_in_order(front).to_multiset().count(t) == front.to_multiset().count(
                TileOutcomeView::Tile(t),
            ));
        }
    }
}

/// Whether no two different tiles have the same coordinates.
pub open spec fn one_per_place(list: Seq<DecodedTileView>) -> bool {
    forall|i: int, j: int|
        0 <= i < list.len() && 0 <= j < list.len() && place(#[trigger] list[i]) == place(
            #[trigger] list[j],
        ) ==> list[i] == list[j]
}

proof fn ordered_unique(a: Seq<DecodedTileView>, b: Seq<DecodedTileView>)
    requires
        ordered(a),
        ordered(b),
        one_per_place(a),
        a.to_multiset() == b.to_multiset(),
    ensures
        a == b,
    decreases a.len(),
{
    broadcast use group_to_multiset_ensures;

    assert(a.len() == a.to_multiset().len() && b.len() == b.to_multiset().len());
    if a.len() == 0 {
        assert(a =~= b);
    } else {
        let (m, n) = (a.last(), b.last());
        assert(a.contains(m)) by {
            assert(a[a.len() - 1] == m);
        }
        assert(b.contains(n)) by {
            assert(b[b.len() - 1] == n);
        }
        assert(b.to_multiset().count(m) > 0);
        assert(a.to_multiset().count(n) > 0);
        assert(b.contains(m));
        assert(a.contains(n));
        let i = choose|i: int| 0 <= i < b.len() && b[i] == m;
        let j = choose|j: int| 0 <= j < a.len() && a[j] == n;
        assert(place(b[i]) <= place(n));
        assert(place(a[j]) <= place(m));
        assert(a[j] == a[a.len() - 1]);
        let (fa, fb) = (a.drop_last(), b.drop_last());
        assert(a =~= fa.push(m));
        assert(b =~= fb.push(m));
        assert(fa.to_multiset() =~= fb.to_multiset()) by {
            assert forall|t: DecodedTileView| fa.to_multiset().count(t) == fb.to_multiset().count(
                t,
            ) by {
                assert(fa.to_multiset().insert(m).count(t) == fb.to_multiset().insert(m).count(t));
            }
        }
        assert(one_per_place(fa)) by {
            assert forall|i: int, j: int|
                0 <= i < fa.len() && 0 <= j < fa.len() && place(#[trigger] fa[i]) == place(
                    #[trigger] fa[j],
                ) implies fa[i] == fa[j] by {
                assert(a[i] == fa[i] && a[j] == fa[j]);
            }
        }
        ordered_unique(fa, fb);
    }
}

/// A map does not depend on the order in which its tiles arrive: the same
/// outcomes in another order give the same tiles in the same order, and the
/// same word on whether the map is complete.
pub proof fn arrival_order_does_not_matter(
    a: Seq<TileOutcomeView>,
    b: Seq<TileOutcomeView>,
)
    requires
        a.to_multiset() == b.to_multiset(),
        one_per_place(tiles_in_order(a)),
    ensures
        tiles_in_order(a) == tiles_in_order(b),
        any_failed(a) == any_failed(b),
{
    broadcast use group_to_multiset_ensures;

    tiles_are_ordered(a);
    tiles_are_ordered(b);
    let (x, y) = (tiles_in_order(a), tiles_in_order(b));
    assert(x.to_multiset() =~= y.to_multiset()) by {
        assert forall|t: DecodedTileView| x.to_multiset().count(t) == y.to_multiset().count(t) by {
            assert(x.to_multiset().count(t) == a.to_multiset().count(TileOutcomeView::Tile(t)));
            assert(y.to_multiset().count(t) == b.to_multiset().count(TileOutcomeView::Tile(t)));
        }
    }
    ordered_unique(x, y);
    failed_counts(a);
    failed_counts(b);
}

proof fn failed_counts(outcomes: Seq<TileOutcomeView>)
    ensures
        any_failed(outcomes) <==> outcomes.to_multiset().count(TileOutcomeView::Failed) > 0,
{
    broadcast use group_to_multiset_ensures;

    if any_failed(outcomes) {
        let i = choose|i: int| 0 <= i < outcomes.len() && (#[trigger] outcomes[i]) is Failed;
        assert(outcomes[i] == TileOutcomeView::Failed);
        assert(outcomes.contains(TileOutcomeView::Failed));
    }
    if outcomes.contains(TileOutcomeView::Failed) {
        let i = choose|i: int| 0 <= i < outcomes.len() && outcomes[i] == TileOutcomeView::Failed;
        assert(outcomes[i] is Failed);
    }
}

/// Tiles are ordered by zoom, then by column, then by row.
pub proof fn places_are_ordered(a: DecodedTileView, b: DecodedTileView)
    ensures
        place(a) < place(b) <==> {
            ||| a.z < b.z
            ||| a.z == b.z && a.x < b.x
            ||| a.z == b.z && a.x == b.x && a.y < b.y
        },
{
}

/// A tile that decodes arrives under its own coordinates, with all of its
/// layers; one that does not has failed.
pub proof fn tile_keeps_its_coordinates(
    z: u8,
    x: u32,
    y: u32,
    layers: Seq<DecodedLayerView>,
    e: DecodeError,
)
    ensures
        outcome_of(z, x, y, Ok(layers)) matches TileOutcomeView::Tile(t) && t.z == z && t.x == x
            && t.y == y && t.layers == layers,
        outcome_of(z, x, y, Err(e)) is Failed,
{
}

/// A map is incomplete exactly where one of its tiles failed; a tile that is
/// absent leaves it complete.
pub proof fn absent_tiles_are_no_failure(
    a: Seq<TileOutcomeView>,
    o: TileOutcomeView,
    b: Seq<TileOutcomeView>,
)
    ensures
        o is Failed ==> any_failed(a.push(o) + b),
        !(o is Failed) ==> any_failed(a.push(o) + b) == any_failed(a + b),
        !any_failed(Seq::empty()),
        o is Absent ==> tiles_in_order(a.push(o)) == tiles_in_order(a),
        o is Failed ==> tiles_in_order(a.push(o)) == tiles_in_order(a),
{
    let all = a.push(o) + b;
    let rest = a + b;
    if o is Failed {
        assert(all[a.len() as int] is Failed);
    }
    if any_failed(all) && !(o is Failed) {
        let i = choose|i: int| 0 <= i < all.len() && (#[trigger] all[i]) is Failed;
        if i < a.len() {
            assert(rest[i] is Failed);
        } else {
            assert(rest[i - 1] is Failed);
        }
    }
    if any_failed(rest) {
        let i = choose|i: int| 0 <= i < rest.len() && (#[trigger] rest[i]) is Failed;
        if i < a.len() {
            assert(all[i] is Failed);
        } else {
            assert(all[i + 1] is Failed);
        }
    }
    assert(a.push(o).drop_last() =~= a);
}

/// The views of tiles and of what became of them keep everything.
pub proof fn outcomes_are_kept(outcomes: Seq<TileOutcome>, tile: DecodedTile)
    ensures
        outcome_views(outcomes).len() == outcomes.len(),
        forall|i: int|
            0 <= i < outcomes.len() ==> match outcomes[i] {
                TileOutcome::Tile(t) => #[trigger] outcome_views(outcomes)[i]
                    == TileOutcomeView::Tile(t@),
                TileOutcome::Absent => outcome_views(outcomes)[i] is Absent,
                TileOutcome::Failed => outcome_views(outcomes)[i] is Failed,
            },
        tile@.z == tile.z && tile@.x == tile.x && tile@.y == tile.y,
        tile@.layers == tiles::layer_views(tile.layers@),
{
}

} // verus!
