use std::rc::Rc;
use std::time::Duration;
use unit2::animation::Animation;
use unit2::entity::{Bird, DrawBirdExt, DrawEntityExt, Entity};
use unit2::collision::Mobile;
use unit2::screen::Screen;
use unit2::sprite::{DrawSpriteExt, Sprite};
use unit2::texture::Texture;
use unit2::types::{Rect, Vec2i};

#[test]
fn new_animation_starts_at_first_frame() {
    let a = Animation::new(8, 6, 10, 20, 3);
    assert_eq!(a.current_frame, 0);
    assert!(a.do_loop);
    assert_eq!(a.calc_frame(), Rect { x: 10, y: 20, w: 8, h: 6 });
}

#[test]
fn calc_frame_steps_by_frame_width() {
    let mut a = Animation::new(8, 6, 10, 20, 3);
    a.current_frame = 2;
    assert_eq!(a.calc_frame(), Rect { x: 26, y: 20, w: 8, h: 6 });
}

#[test]
fn advance_loops_or_holds() {
    let mut a = Animation::new(8, 6, 0, 0, 3);
    a.advance();
    a.advance();
    assert_eq!(a.current_frame, 2);
    a.advance();
    assert_eq!(a.current_frame, 0);
    a.do_loop = false;
    a.current_frame = 2;
    a.advance();
    assert_eq!(a.current_frame, 2);
}

#[test]
fn tick_waits_for_frame_duration() {
    let mut a = Animation::new(8, 6, 0, 0, 3);
    a.set_duration(Duration::from_secs(3600));
    a.tick();
    assert_eq!(a.current_frame, 0);
}

fn strip() -> Rc<Texture> {
    // Two 2x2 frames side by side: frame 0 red, frame 1 blue.
    let mut v = Vec::new();
    for _y in 0..2 {
        v.extend_from_slice(&[255, 0, 0, 255, 255, 0, 0, 255, 0, 0, 255, 255, 0, 0, 255, 255]);
    }
    Rc::new(Texture::from_vec(v, 4, 2, 4))
}

fn sprite_at(pos: Vec2i) -> Sprite {
    let mut s = Sprite::new(&strip(), Rect { x: 0, y: 0, w: 2, h: 2 }, pos);
    s.animations.push(Animation::new(2, 2, 0, 0, 2));
    s.animations[0].set_duration(Duration::from_secs(3600));
    s
}

#[test]
fn draw_sprite_blits_current_frame() {
    let mut s = sprite_at(Vec2i(1, 1));
    s.animations[0].current_frame = 1;
    let mut buf = vec![0u8; 4 * 4 * 4];
    {
        let mut scr = Screen::wrap(&mut buf, 4, 4, 4, Vec2i(0, 0));
        scr.draw_sprite(&mut s);
    }
    for y in 0..4 {
        for x in 0..4 {
            let i = (y * 4 + x) * 4;
            let inside = (1..3).contains(&x) && (1..3).contains(&y);
            assert_eq!(&buf[i..i + 4], if inside { &[0, 0, 255, 255][..] } else { &[0, 0, 0, 0][..] });
        }
    }
    assert_eq!(s.animations[0].current_frame, 1);
}

#[test]
fn set_animation_picks_index() {
    let mut s = sprite_at(Vec2i(0, 0));
    s.set_animation(3);
    assert_eq!(s.current_animation, 3);
    assert_eq!(s.position, Vec2i(0, 0));
}

#[test]
fn draw_entity_uses_hitbox_position() {
    let mut e = Entity::new(Mobile::new(Rect { x: 2, y: 0, w: 2, h: 2 }, 0, 0), sprite_at(Vec2i(0, 0)), true);
    let mut buf = vec![0u8; 4 * 2 * 4];
    {
        let mut scr = Screen::wrap(&mut buf, 4, 2, 4, Vec2i(0, 0));
        scr.draw_entity(&mut e);
    }
    assert_eq!(e.sprite.position, Vec2i(2, 0));
    assert_eq!(&buf[0..4], &[0, 0, 0, 0]);
    assert_eq!(&buf[8..12], &[255, 0, 0, 255]);
    assert!(e.gravity);
}

#[test]
fn draw_bird_puts_wing_above_body() {
    let body = Entity::new(Mobile::new(Rect { x: 0, y: 26, w: 2, h: 2 }, 0, 0), sprite_at(Vec2i(0, 0)), true);
    let mut wing = sprite_at(Vec2i(0, 0));
    wing.animations[0].current_frame = 1;
    let mut b = Bird { body, wing };
    let mut buf = vec![0u8; 2 * 28 * 4];
    {
        let mut scr = Screen::wrap(&mut buf, 2, 28, 4, Vec2i(0, 0));
        scr.draw_bird(&mut b);
    }
    assert_eq!(b.wing.position, Vec2i(0, 1));
    assert_eq!(&buf[(1 * 2) * 4..(1 * 2) * 4 + 4], &[0, 0, 255, 255]);
    assert_eq!(&buf[(26 * 2) * 4..(26 * 2) * 4 + 4], &[255, 0, 0, 255]);
    assert_eq!(&buf[0..4], &[0, 0, 0, 0]);
}

#[test]
fn advance_if_elapsed_needs_more_than_duration() {
    let mut a = Animation::new(8, 6, 0, 0, 3);
    assert!(!a.advance_if_elapsed(500, 500));
    assert_eq!(a.current_frame, 0);
    assert!(a.advance_if_elapsed(501, 500));
    assert_eq!(a.current_frame, 1);
    a.set_current_frame(2);
    assert!(a.advance_if_elapsed(1000, 500));
    assert_eq!(a.current_frame, 0);
    a.set_do_loop(false);
    a.set_current_frame(2);
    assert!(a.advance_if_elapsed(1000, 500));
    assert_eq!(a.current_frame, 2);
}

#[test]
fn set_current_frame_moves_calc_frame() {
    let mut a = Animation::new(32, 32, 4, 8, 5);
    a.set_current_frame(2);
    assert_eq!(a.calc_frame(), Rect { x: 68, y: 8, w: 32, h: 32 });
}

#[test]
fn sprite_setters() {
    let mut s = Sprite::new(&strip(), Rect { x: 0, y: 0, w: 2, h: 2 }, Vec2i(0, 0));
    s.add_animation(Animation::new(2, 2, 0, 0, 2));
    assert_eq!(s.animations.len(), 1);
    s.set_frame(Rect { x: 2, y: 0, w: 2, h: 2 });
    assert_eq!(s.frame, Rect { x: 2, y: 0, w: 2, h: 2 });
    s.set_position(Vec2i(3, 4));
    assert_eq!(s.position, Vec2i(3, 4));
}
