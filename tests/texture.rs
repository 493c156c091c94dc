use unit2::texture::{stack_horizontal, Texture};
use unit2::types::Rect;

#[test]
fn from_vec_and_getters() {
    let t = Texture::from_vec(vec![0; 3 * 2 * 4], 3, 2, 4);
    assert_eq!(t.size(), (3, 2));
    assert_eq!(t.depth(), 4);
    assert_eq!(t.pitch(), 12);
    assert_eq!(t.buffer().len(), 24);
}

#[test]
fn new_premultiplies_alpha() {
    let t = Texture::new(2, 1, vec![200, 100, 50, 128, 255, 255, 255, 0]);
    assert_eq!(t.size(), (2, 1));
    assert_eq!(t.depth(), 4);
    // 200 * 128 / 255 = 100.39, 100 * 128 / 255 = 50.19, 50 * 128 / 255 = 25.09: rounded down.
    assert_eq!(t.buffer(), &[100, 50, 25, 128, 0, 0, 0, 0][..]);
}

#[test]
fn new_keeps_opaque_colour_and_drops_extra_bytes() {
    let t = Texture::new(1, 1, vec![12, 34, 56, 255, 9, 9]);
    assert_eq!(t.buffer(), &[12, 34, 56, 255][..]);
}

#[test]
fn valid_frame_checks_whole_rect() {
    let t = Texture::from_vec(vec![0; 4 * 4 * 4], 4, 4, 4);
    assert!(t.valid_frame(Rect { x: 0, y: 0, w: 4, h: 4 }));
    assert!(t.valid_frame(Rect { x: 2, y: 1, w: 2, h: 3 }));
    assert!(!t.valid_frame(Rect { x: 3, y: 0, w: 2, h: 1 }));
    assert!(!t.valid_frame(Rect { x: -1, y: 0, w: 1, h: 1 }));
    assert!(!t.valid_frame(Rect { x: 0, y: 2, w: 1, h: 3 }));
}

#[test]
fn convert_to_rgba_expands_grey() {
    let mut t = Texture::from_vec(vec![7, 200], 2, 1, 1);
    t.convert_to_rgba();
    assert_eq!(t.depth(), 4);
    assert_eq!(t.buffer(), &[7, 7, 7, 255, 200, 200, 200, 255][..]);
    // A second call leaves it alone.
    t.convert_to_rgba();
    assert_eq!(t.buffer(), &[7, 7, 7, 255, 200, 200, 200, 255][..]);
}

#[test]
fn stack_horizontal_bottom_aligns() {
    let short: Vec<u8> = (0..5 * 10 * 4).map(|i| (i % 250) as u8 + 1).collect();
    let tall: Vec<u8> = (0..5 * 20 * 4).map(|i| (i % 200) as u8 + 3).collect();
    let a = Texture::from_vec(short.clone(), 5, 10, 4);
    let b = Texture::from_vec(tall.clone(), 5, 20, 4);
    let s = stack_horizontal(vec![a, b]);
    assert_eq!(s.size(), (10, 20));
    assert_eq!(s.depth(), 4);
    let out = s.buffer();
    let pitch = 10 * 4;
    for row in 0..20 {
        let left = &out[row * pitch..row * pitch + 20];
        let right = &out[row * pitch + 20..row * pitch + 40];
        if row < 10 {
            assert!(left.iter().all(|&b| b == 0), "row {}", row);
        } else {
            assert_eq!(left, &short[(row - 10) * 20..(row - 10) * 20 + 20]);
        }
        assert_eq!(right, &tall[row * 20..row * 20 + 20]);
    }
}

#[test]
fn stack_horizontal_of_nothing_is_empty() {
    let s = stack_horizontal(vec![]);
    assert_eq!(s.size(), (0, 0));
    assert_eq!(s.depth(), 0);
    assert!(s.buffer().is_empty());
}
