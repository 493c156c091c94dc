use std::rc::Rc;
use unit2::screen::Screen;
use unit2::texture::Texture;
use unit2::tiles::{Tile, TileID, Tilemap, Tileset, TILE_SZ};
use unit2::types::{Rect, Vec2i};

fn plain_tile() -> Tile {
    Tile { oppgrid: false, opphit: false, myship: false }
}

/// A texture of `cols` by `rows` tiles where every pixel of tile `i` is `(i, i, i, 255)`.
fn tile_texture(cols: usize, rows: usize) -> Texture {
    let w = cols * TILE_SZ;
    let h = rows * TILE_SZ;
    let mut v = Vec::new();
    for y in 0..h {
        for x in 0..w {
            let id = (y / TILE_SZ) * cols + x / TILE_SZ;
            v.extend_from_slice(&[id as u8, id as u8, id as u8, 255]);
        }
    }
    Texture::from_vec(v, w, h, 4)
}

fn tileset(count: usize, cols: usize, rows: usize) -> Rc<Tileset> {
    let tex = Rc::new(tile_texture(cols, rows));
    Rc::new(Tileset::new(vec![plain_tile(); count], &tex))
}

#[test]
fn get_rect_maps_id_to_grid_square() {
    let ts = tileset(16, 4, 4);
    assert_eq!(ts.get_rect(TileID::new(5)), Rect { x: 16, y: 16, w: 16, h: 16 });
    assert_eq!(ts.get_rect(TileID::new(0)), Rect { x: 0, y: 0, w: 16, h: 16 });
    assert_eq!(ts.get_rect(TileID::new(3)), Rect { x: 48, y: 0, w: 16, h: 16 });
    assert_eq!(ts.get_rect(TileID::new(14)), Rect { x: 32, y: 48, w: 16, h: 16 });
}

#[test]
fn contains_and_index() {
    let tex = Rc::new(tile_texture(2, 1));
    let ship = Tile { oppgrid: false, opphit: false, myship: true };
    let ts = Tileset::new(vec![plain_tile(), ship], &tex);
    assert!(ts.contains(TileID::new(1)));
    assert!(!ts.contains(TileID::new(2)));
    assert_eq!(*ts.index(TileID::new(1)), ship);
    assert!(Rc::ptr_eq(&ts.texture, &tex));
}

#[test]
fn tilemap_size_must_match() {
    let ts = tileset(16, 4, 4);
    assert!(Tilemap::fits((4, 4), &ts, &vec![0; 16]));
    assert!(!Tilemap::fits((4, 4), &ts, &vec![0; 15]));
    assert!(!Tilemap::fits((4, 4), &ts, &vec![0; 17]));
    assert!(!Tilemap::fits((usize::MAX, 2), &ts, &vec![0; 16]));
}

#[test]
fn tilemap_ids_must_exist() {
    let ts = tileset(16, 4, 4);
    let mut ids = vec![0; 16];
    ids[7] = 16;
    assert!(!Tilemap::fits((4, 4), &ts, &ids));
    ids[7] = 15;
    assert!(Tilemap::fits((4, 4), &ts, &ids));
}

#[test]
fn world_points_map_to_cells() {
    let ts = tileset(16, 4, 4);
    let ids: Vec<usize> = (0..16).collect();
    let map = Tilemap::new(Vec2i(64, 0), (4, 4), &ts, ids);
    assert_eq!(map.size(), (4, 4));
    assert_eq!(map.tile_id_num_at(Vec2i(64, 0)), 0);
    assert_eq!(map.tile_id_num_at(Vec2i(95, 31)), 0);
    assert_eq!(map.tile_id_num_at(Vec2i(96, 0)), 1);
    assert_eq!(map.tile_id_num_at(Vec2i(64, 32)), 4);
    assert_eq!(map.tile_id_num_at(Vec2i(191, 127)), 15);
    assert!(map.tile_id_at(Vec2i(100, 40)) == TileID::new(5));
    // Rust's division rounds toward zero, so a point just left of the map is in column 0.
    assert_eq!(map.tile_id_num_at(Vec2i(40, 0)), 0);
}

#[test]
fn set_tile_at_changes_one_cell() {
    let tex = Rc::new(tile_texture(4, 4));
    let mut tiles = vec![plain_tile(); 16];
    tiles[9] = Tile { oppgrid: true, opphit: true, myship: false };
    let ts = Rc::new(Tileset::new(tiles, &tex));
    let mut map = Tilemap::new(Vec2i(0, 0), (3, 2), &ts, vec![0; 6]);
    map.set_tile_at(Vec2i(40, 33), 9);
    assert_eq!(map.tile_id_num_at(Vec2i(32, 32)), 9);
    assert!(map.tile_at(Vec2i(63, 63)).opphit);
    for (x, y) in [(0, 0), (32, 0), (64, 0), (0, 32), (64, 32)] {
        assert_eq!(map.tile_id_num_at(Vec2i(x, y)), 0);
    }
}

#[test]
fn draw_blits_visible_tiles() {
    let ts = tileset(16, 4, 4);
    let map = Tilemap::new(Vec2i(0, 0), (2, 2), &ts, vec![1, 2, 3, 4]);
    let (w, h) = (32usize, 32usize);
    let mut buf = vec![0u8; w * h * 4];
    {
        let mut s = Screen::wrap(&mut buf, w, h, 4, Vec2i(0, 0));
        map.draw(&mut s);
    }
    for y in 0..h {
        for x in 0..w {
            let id = [1u8, 2, 3, 4][(y / 16) * 2 + x / 16];
            let i = (y * w + x) * 4;
            assert_eq!(&buf[i..i + 4], &[id, id, id, 255]);
        }
    }
}

#[test]
fn draw_follows_camera() {
    let ts = tileset(16, 4, 4);
    let map = Tilemap::new(Vec2i(0, 0), (3, 1), &ts, vec![1, 2, 3]);
    let mut buf = vec![0u8; 16 * 16 * 4];
    {
        let mut s = Screen::wrap(&mut buf, 16, 16, 4, Vec2i(24, 0));
        map.draw(&mut s);
    }
    // Screen x 0..8 shows the right half of cell 1, x 8..16 the left half of cell 2.
    assert_eq!(&buf[0..4], &[2, 2, 2, 255]);
    assert_eq!(&buf[7 * 4..8 * 4], &[2, 2, 2, 255]);
    assert_eq!(&buf[8 * 4..9 * 4], &[3, 3, 3, 255]);
    assert_eq!(&buf[15 * 4..16 * 4], &[3, 3, 3, 255]);
}

#[test]
fn set_tile_then_draw_shows_new_tile() {
    let ts = tileset(16, 4, 4);
    let mut map = Tilemap::new(Vec2i(0, 0), (4, 4), &ts, vec![0; 16]);
    // World point (70, 40) is cell (2, 1) at 32 pixels per cell; its square is drawn at (32, 16).
    map.set_tile_at(Vec2i(70, 40), 11);
    let (w, h) = (64usize, 64usize);
    let mut buf = vec![0u8; w * h * 4];
    {
        let mut s = Screen::wrap(&mut buf, w, h, 4, Vec2i(0, 0));
        map.draw(&mut s);
    }
    for y in 0..h {
        for x in 0..w {
            let expect = if (32..48).contains(&x) && (16..32).contains(&y) { 11 } else { 0 };
            let i = (y * w + x) * 4;
            assert_eq!(&buf[i..i + 4], &[expect, expect, expect, 255], "({}, {})", x, y);
        }
    }
}

#[test]
fn set_position_scrolls_the_map() {
    let ts = tileset(16, 4, 4);
    let mut map = Tilemap::new(Vec2i(0, 0), (2, 1), &ts, vec![1, 2]);
    map.set_position(Vec2i(16, 0));
    assert_eq!(map.position, Vec2i(16, 0));
    let mut buf = vec![0u8; 32 * 16 * 4];
    {
        let mut s = Screen::wrap(&mut buf, 32, 16, 4, Vec2i(0, 0));
        map.draw(&mut s);
    }
    assert_eq!(&buf[0..4], &[0, 0, 0, 0]);
    assert_eq!(&buf[16 * 4..17 * 4], &[1, 1, 1, 255]);
}
