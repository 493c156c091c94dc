use unit2::screen::Screen;
use unit2::texture::Texture;
use unit2::types::{Rect, Rgba, Vec2i};

fn px(buf: &[u8], w: usize, x: usize, y: usize) -> [u8; 4] {
    let i = (y * w + x) * 4;
    [buf[i], buf[i + 1], buf[i + 2], buf[i + 3]]
}

fn solid(w: usize, h: usize, c: [u8; 4]) -> Texture {
    let mut v = Vec::new();
    for _ in 0..w * h {
        v.extend_from_slice(&c);
    }
    Texture::from_vec(v, w, h, 4)
}

#[test]
fn clear_fills_every_pixel() {
    let mut buf = vec![7u8; 3 * 2 * 4];
    {
        let mut s = Screen::wrap(&mut buf, 3, 2, 4, Vec2i(0, 0));
        s.clear(Rgba(1, 2, 3, 4));
    }
    for y in 0..2 {
        for x in 0..3 {
            assert_eq!(px(&buf, 3, x, y), [1, 2, 3, 4]);
        }
    }
}

#[test]
fn bounds_is_camera_and_size() {
    let mut buf = vec![0u8; 5 * 4 * 4];
    let s = Screen::wrap(&mut buf, 5, 4, 4, Vec2i(-3, 7));
    assert_eq!(s.bounds(), Rect { x: -3, y: 7, w: 5, h: 4 });
}

#[test]
fn rect_is_translated_and_clipped() {
    let mut buf = vec![0u8; 4 * 4 * 4];
    {
        let mut s = Screen::wrap(&mut buf, 4, 4, 4, Vec2i(10, 10));
        // World (8, 9) is framebuffer (-2, -1): only (0..1, 0..2) is on screen.
        s.rect(Rect { x: 8, y: 9, w: 3, h: 3 }, Rgba(9, 9, 9, 9));
    }
    for y in 0..4 {
        for x in 0..4 {
            let inside = x < 1 && y < 2;
            assert_eq!(px(&buf, 4, x, y), if inside { [9, 9, 9, 9] } else { [0, 0, 0, 0] });
        }
    }
}

#[test]
fn line_draws_both_end_points() {
    let mut buf = vec![0u8; 5 * 3 * 4];
    {
        let mut s = Screen::wrap(&mut buf, 5, 3, 4, Vec2i(0, 0));
        s.line(Vec2i(0, 1), Vec2i(3, 1), Rgba(5, 5, 5, 5));
    }
    for x in 0..5 {
        let drawn = x <= 3;
        assert_eq!(px(&buf, 5, x, 1), if drawn { [5, 5, 5, 5] } else { [0, 0, 0, 0] });
        assert_eq!(px(&buf, 5, x, 0), [0, 0, 0, 0]);
    }
}

#[test]
fn line_diagonal_and_partly_off_screen() {
    let mut buf = vec![0u8; 4 * 4 * 4];
    {
        let mut s = Screen::wrap(&mut buf, 4, 4, 4, Vec2i(0, 0));
        s.line(Vec2i(-2, -2), Vec2i(3, 3), Rgba(1, 1, 1, 1));
    }
    for y in 0..4 {
        for x in 0..4 {
            let drawn = x == y;
            assert_eq!(px(&buf, 4, x, y), if drawn { [1, 1, 1, 1] } else { [0, 0, 0, 0] });
        }
    }
}

#[test]
fn rect_outline_draws_four_edges() {
    let mut buf = vec![0u8; 5 * 5 * 4];
    {
        let mut s = Screen::wrap(&mut buf, 5, 5, 4, Vec2i(0, 0));
        s.rect_outline(Rect { x: 0, y: 0, w: 4, h: 4 }, Rgba(2, 2, 2, 2));
    }
    for y in 0..5 {
        for x in 0..5 {
            let edge = y == 0 || y == 4 || x == 0 || x == 4;
            assert_eq!(px(&buf, 5, x, y), if edge { [2, 2, 2, 2] } else { [0, 0, 0, 0] }, "({}, {})", x, y);
        }
    }
}

#[test]
fn rect_outline_draws_every_corner() {
    let mut buf = vec![0u8; 4 * 4 * 4];
    {
        let mut s = Screen::wrap(&mut buf, 4, 4, 4, Vec2i(0, 0));
        s.rect_outline(Rect { x: 0, y: 0, w: 2, h: 2 }, Rgba(1, 1, 1, 1));
    }
    for y in 0..4 {
        for x in 0..4 {
            let edge = x <= 2 && y <= 2 && !(x == 1 && y == 1);
            assert_eq!(px(&buf, 4, x, y), if edge { [1, 1, 1, 1] } else { [0, 0, 0, 0] }, "({}, {})", x, y);
        }
    }
}

#[test]
fn bitblt_fully_off_screen_changes_nothing() {
    let src = solid(2, 2, [200, 0, 0, 255]);
    let spots = [Vec2i(-2, 0), Vec2i(4, 0), Vec2i(0, -2), Vec2i(0, 4), Vec2i(-5, -5), Vec2i(9, 9)];
    for to in spots {
        let mut buf = vec![0u8; 4 * 4 * 4];
        {
            let mut s = Screen::wrap(&mut buf, 4, 4, 4, Vec2i(0, 0));
            s.clear(Rgba(10, 20, 30, 255));
        }
        let cleared = buf.clone();
        {
            let mut s = Screen::wrap(&mut buf, 4, 4, 4, Vec2i(0, 0));
            s.bitblt(&src, Rect { x: 0, y: 0, w: 2, h: 2 }, to);
        }
        assert_eq!(buf, cleared);
    }
}

#[test]
fn bitblt_clips_at_left_edge() {
    // Source: a 4x1 strip, marker colour in the two left texels.
    let mut v = Vec::new();
    v.extend_from_slice(&[0, 255, 0, 255]);
    v.extend_from_slice(&[0, 255, 0, 255]);
    v.extend_from_slice(&[0, 0, 255, 255]);
    v.extend_from_slice(&[0, 0, 255, 255]);
    let src = Texture::from_vec(v, 4, 1, 4);
    let mut buf = vec![0u8; 4 * 1 * 4];
    {
        let mut s = Screen::wrap(&mut buf, 4, 1, 4, Vec2i(0, 0));
        s.bitblt(&src, Rect { x: 0, y: 0, w: 4, h: 1 }, Vec2i(-2, 0));
    }
    assert_eq!(px(&buf, 4, 0, 0), [0, 0, 255, 255]);
    assert_eq!(px(&buf, 4, 1, 0), [0, 0, 255, 255]);
    assert_eq!(px(&buf, 4, 2, 0), [0, 0, 0, 0]);
    assert_eq!(px(&buf, 4, 3, 0), [0, 0, 0, 0]);
    for x in 0..4 {
        assert_ne!(px(&buf, 4, x, 0), [0, 255, 0, 255]);
    }
}

#[test]
fn bitblt_respects_camera_and_source_window() {
    let mut v = Vec::new();
    for i in 0..9u8 {
        v.extend_from_slice(&[i, i, i, 255]);
    }
    let src = Texture::from_vec(v, 3, 3, 4);
    let mut buf = vec![0u8; 3 * 3 * 4];
    {
        let mut s = Screen::wrap(&mut buf, 3, 3, 4, Vec2i(100, 100));
        s.bitblt(&src, Rect { x: 1, y: 1, w: 2, h: 2 }, Vec2i(101, 100));
    }
    assert_eq!(px(&buf, 3, 1, 0), [4, 4, 4, 255]);
    assert_eq!(px(&buf, 3, 2, 0), [5, 5, 5, 255]);
    assert_eq!(px(&buf, 3, 1, 1), [7, 7, 7, 255]);
    assert_eq!(px(&buf, 3, 2, 1), [8, 8, 8, 255]);
    assert_eq!(px(&buf, 3, 0, 0), [0, 0, 0, 0]);
    assert_eq!(px(&buf, 3, 0, 2), [0, 0, 0, 0]);
}

#[test]
fn opaque_source_replaces_destination() {
    let src = solid(1, 1, [255, 0, 0, 255]);
    for dst in [[0u8, 0, 0, 0], [10, 20, 30, 255], [255, 255, 255, 255], [3, 7, 1, 9]] {
        let mut buf = dst.to_vec();
        {
            let mut s = Screen::wrap(&mut buf, 1, 1, 4, Vec2i(0, 0));
            s.bitblt(&src, Rect { x: 0, y: 0, w: 1, h: 1 }, Vec2i(0, 0));
        }
        assert_eq!(buf, vec![255, 0, 0, 255]);
    }
}

#[test]
fn transparent_source_is_identity() {
    let src = solid(1, 1, [0, 0, 0, 0]);
    let mut buf = vec![10u8, 20, 30, 255];
    {
        let mut s = Screen::wrap(&mut buf, 1, 1, 4, Vec2i(0, 0));
        s.bitblt(&src, Rect { x: 0, y: 0, w: 1, h: 1 }, Vec2i(0, 0));
    }
    assert_eq!(buf, vec![10, 20, 30, 255]);
}

#[test]
fn half_transparent_source_blends() {
    let src = solid(1, 1, [100, 0, 0, 128]);
    let mut buf = vec![0u8, 0, 200, 255];
    {
        let mut s = Screen::wrap(&mut buf, 1, 1, 4, Vec2i(0, 0));
        s.bitblt(&src, Rect { x: 0, y: 0, w: 1, h: 1 }, Vec2i(0, 0));
    }
    // 200 * 127 / 255 = 99.6 rounds to 100; alpha 128 + 255 * 127 / 255 = 255.
    assert_eq!(buf, vec![100, 0, 100, 255]);
}

#[test]
fn blend_saturates_at_255() {
    let src = solid(1, 1, [250, 0, 0, 10]);
    let mut buf = vec![255u8, 0, 0, 255];
    {
        let mut s = Screen::wrap(&mut buf, 1, 1, 4, Vec2i(0, 0));
        s.bitblt(&src, Rect { x: 0, y: 0, w: 1, h: 1 }, Vec2i(0, 0));
    }
    assert_eq!(buf, vec![255, 0, 0, 255]);
}
