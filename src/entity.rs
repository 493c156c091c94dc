use vstd::prelude::*;
use crate::collision::Mobile;
use crate::screen::{Screen, blit_view};
use crate::sprite::{DrawSpriteExt, Sprite, SpriteView};
use crate::types::Vec2i;

verus! {

/// A body that moves and collides, and the sprite that shows it.
pub struct Entity {
    pub hitbox: Mobile,
    pub sprite: Sprite,
    pub gravity: bool,
}

impl Entity {
    pub fn new(hitbox: Mobile, sprite: Sprite, gravity: bool) -> (r: Self)
        ensures
            r.hitbox == hitbox,
            r.sprite@ == sprite@,
            r.gravity == gravity,
    {
        Self { hitbox, sprite, gravity }
    }
}

/// The sprite view moved to the top-left corner of the entity's hitbox.
pub open spec fn placed_at_hitbox(e: Entity) -> SpriteView {
    SpriteView { position: Vec2i(e.hitbox.rect.x, e.hitbox.rect.y), ..e.sprite@ }
}

/// Something entities can be drawn on.
pub trait DrawEntityExt: DrawSpriteExt {
    /// Moves the entity's sprite to its hitbox, then draws the sprite.
    fn draw_entity(&mut self, e: &mut Entity)
        requires
            old(self).frame_view().wf(),
            old(e).sprite@.drawable(),
        ensures
            final(self).frame_view() == blit_view(
                old(self).frame_view(),
                old(e).sprite@.image,
                old(e).sprite@.shown_frame(),
                Vec2i(old(e).hitbox.rect.x, old(e).hitbox.rect.y),
            ),
            final(e).sprite@.ticked(placed_at_hitbox(*old(e))),
            final(e).hitbox == old(e).hitbox,
            final(e).gravity == old(e).gravity,
    ;
}

impl<'fb> DrawEntityExt for Screen<'fb> {
    fn draw_entity(&mut self, e: &mut Entity) {
        e.sprite.set_position(Vec2i(e.hitbox.rect.x, e.hitbox.rect.y));
        self.draw_sprite(&mut e.sprite);
    }
}

/// How far above the body the wing is drawn.
pub const WING_OFFSET: i32 = 25;

/// A flapping bird: a body entity and a wing sprite drawn above it.
pub struct Bird {
    pub body: Entity,
    pub wing: Sprite,
}

/// Something birds can be drawn on.
pub trait DrawBirdExt: DrawEntityExt {
    /// Draws the body as an entity, then the wing `WING_OFFSET` pixels above the
    /// body's new position.
    fn draw_bird(&mut self, b: &mut Bird)
        requires
            old(self).frame_view().wf(),
            old(b).body.sprite@.drawable(),
            old(b).wing@.drawable(),
            old(b).body.hitbox.rect.y - WING_OFFSET >= i32::MIN,
        ensures
            final(self).frame_view() == blit_view(
                blit_view(
                    old(self).frame_view(),
                    old(b).body.sprite@.image,
                    old(b).body.sprite@.shown_frame(),
                    Vec2i(old(b).body.hitbox.rect.x, old(b).body.hitbox.rect.y),
                ),
                old(b).wing@.image,
                old(b).wing@.shown_frame(),
                Vec2i(old(b).body.hitbox.rect.x, (old(b).body.hitbox.rect.y - WING_OFFSET) as i32),
            ),
            final(b).body.sprite@.ticked(placed_at_hitbox(old(b).body)),
            final(b).body.hitbox == old(b).body.hitbox,
            final(b).wing@.ticked(
                SpriteView {
                    position: Vec2i(old(b).body.hitbox.rect.x, (old(b).body.hitbox.rect.y - WING_OFFSET) as i32),
                    ..old(b).wing@
                },
            ),
    ;
}

impl<'fb> DrawBirdExt for Screen<'fb> {
    fn draw_bird(&mut self, b: &mut Bird) {
        self.draw_entity(&mut b.body);
        let x = b.body.hitbox.rect.x;
        let y = b.body.hitbox.rect.y;
        b.wing.set_position(Vec2i(x, y - WING_OFFSET));
        self.draw_sprite(&mut b.wing);
    }
}

} // verus!
