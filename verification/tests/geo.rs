use tiler::geo_util::{pick_zoom, Viewport};
use tiler::tiles::tile_coord;

fn viewport(zoom: u8, x: (i64, i64), y: (i64, i64)) -> Viewport {
    Viewport { zoom, width: 640, height: 480, x0: x.0, x1: x.1, y0: y.0, y1: y.1 }
}

#[test]
fn tiles_come_row_by_row() {
    assert_eq!(
        viewport(3, (2, 4), (5, 6)).covering_tiles(),
        vec![(3, 2, 5), (3, 3, 5), (3, 4, 5), (3, 2, 6), (3, 3, 6), (3, 4, 6)]
    );
}

#[test]
fn columns_wrap_around_the_antimeridian() {
    assert_eq!(viewport(2, (-1, 0), (1, 1)).covering_tiles(), vec![(2, 3, 1), (2, 0, 1)]);
    assert_eq!(viewport(2, (3, 4), (1, 1)).covering_tiles(), vec![(2, 3, 1), (2, 0, 1)]);
    assert_eq!(viewport(1, (-5, -5), (0, 0)).covering_tiles(), vec![(1, 1, 0)]);
}

#[test]
fn no_tile_covers_a_wide_viewport_twice() {
    let tiles = viewport(1, (-3, 3), (-2, 5)).covering_tiles();
    assert_eq!(tiles, vec![(1, 1, 0), (1, 0, 0), (1, 1, 1), (1, 0, 1)]);
    assert_eq!(viewport(0, (-4, 9), (0, 0)).covering_tiles(), vec![(0, 0, 0)]);
}

#[test]
fn rows_outside_the_world_are_skipped() {
    assert_eq!(viewport(2, (0, 0), (-3, 0)).covering_tiles(), vec![(2, 0, 0)]);
    assert_eq!(viewport(2, (0, 0), (3, i64::MAX)).covering_tiles(), vec![(2, 0, 3)]);
    assert!(viewport(2, (0, 0), (4, 9)).covering_tiles().is_empty());
    assert!(viewport(2, (0, 0), (i64::MIN, -1)).covering_tiles().is_empty());
    assert!(viewport(2, (5, 3), (0, 1)).covering_tiles().is_empty());
    assert!(viewport(63, (0, 3), (0, 3)).covering_tiles().is_empty());
}

#[test]
fn covering_tiles_exist_and_leave_nothing_uncovered() {
    let v = viewport(4, (-2, 17), (-1, 20));
    let tiles = v.covering_tiles();
    for &(z, x, y) in &tiles {
        assert!(tile_coord(z, x, y).is_ok());
    }
    for x in -2i64..=17 {
        for y in 0..16 {
            assert!(tiles.contains(&(4, x.rem_euclid(16) as u32, y)));
        }
    }
}

#[test]
fn the_greatest_fitting_zoom_is_picked() {
    let mut fits = vec![true; 18];
    assert_eq!(pick_zoom(&fits), 17);
    for z in 6..18 {
        fits[z] = false;
    }
    assert_eq!(pick_zoom(&fits), 5);
    assert_eq!(pick_zoom(&[false; 18]), 0);
    assert_eq!(pick_zoom(&[true]), 0);
    assert_eq!(pick_zoom(&[true; 30]), 17);
    assert_eq!(pick_zoom(&[]), 0);
}
