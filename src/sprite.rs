use vstd::prelude::*;
use std::rc::Rc;
use crate::animation::{Animation, AnimationView, next_frame};
use crate::screen::{Screen, ScreenView, blit_view};
use crate::texture::Texture;
use crate::types::{share, Rect, Vec2i};

verus! {

/// A picture from a shared texture, placed in the world, with animations that
/// pick which part of the texture shows.
pub struct Sprite {
    image: Rc<Texture>,
    pub frame: Rect,
    pub position: Vec2i,
    pub animations: Vec<Animation>,
    pub current_animation: usize,
}

pub struct SpriteView {
    pub image: Texture,
    pub frame: Rect,
    pub position: Vec2i,
    pub animations: Seq<AnimationView>,
    pub current_animation: usize,
}

impl View for Sprite {
    type V = SpriteView;

    closed spec fn view(&self) -> SpriteView {
        SpriteView {
            image: *self.image,
            frame: self.frame,
            position: self.position,
            animations: self.animations@.map_values(|a: Animation| a@),
            current_animation: self.current_animation,
        }
    }
}

impl SpriteView {
    /// The animation in use.
    pub open spec fn animation(&self) -> AnimationView {
        self.animations[self.current_animation as int]
    }

    /// The texture rectangle shown now: the current frame of the animation in use,
    /// counted from the texture's left edge.
    pub open spec fn shown_frame(&self) -> Rect {
        let a = self.animation();
        Rect { x: (a.current_frame * a.frame_width) as i32, y: a.start_y, w: a.frame_width, h: a.frame_height }
    }

    /// The animation in use exists and is well formed, and its current frame lies
    /// inside the RGBA texture.
    pub open spec fn drawable(&self) -> bool {
        let a = self.animation();
        &&& self.current_animation < self.animations.len()
        &&& a.wf()
        &&& self.image.wf()
        &&& self.image.depth == 4
        &&& a.current_frame * a.frame_width <= u16::MAX
        &&& a.current_frame * a.frame_width + a.frame_width <= self.image.width
        &&& 0 <= a.start_y
        &&& a.start_y + a.frame_height <= self.image.height
    }

    /// `self` is `before` with the animation in use ticked: its frame stayed or
    /// moved to the next one.
    pub open spec fn ticked(&self, before: SpriteView) -> bool {
        let i = before.current_animation as int;
        &&& self.image == before.image
        &&& self.frame == before.frame
        &&& self.position == before.position
        &&& self.current_animation == before.current_animation
        &&& self.animations.len() == before.animations.len()
        &&& forall|j: int| 0 <= j < self.animations.len() && j != i ==> #[trigger] self.animations[j] == before.animations[j]
        &&& self.animations[i].same_strip(before.animations[i])
        &&& self.animations[i].wf()
        &&& (self.animations[i].current_frame == before.animations[i].current_frame
            || self.animations[i].current_frame == next_frame(
            before.animations[i].current_frame,
            before.animations[i].frame_count,
            before.animations[i].do_loop,
        ))
    }
}

impl Sprite {
    /// A sprite with no animations yet.
    pub fn new(image: &Rc<Texture>, frame: Rect, position: Vec2i) -> (r: Self)
        ensures
            r@.image == **image,
            r@.frame == frame,
            r@.position == position,
            r@.animations.len() == 0,
            r@.current_animation == 0,
    {
        Self { image: share(image), frame, position, animations: Vec::new(), current_animation: 0 }
    }

    /// Moves the sprite to world position `position`.
    pub fn set_position(&mut self, position: Vec2i)
        ensures
            final(self)@ == (SpriteView { position, ..old(self)@ }),
    {
        self.position = position;
        proof {
            assert(self@.animations =~= old(self)@.animations);
        }
    }

    /// Shows texture rectangle `frame`.
    pub fn set_frame(&mut self, frame: Rect)
        ensures
            final(self)@ == (SpriteView { frame, ..old(self)@ }),
    {
        self.frame = frame;
        proof {
            assert(self@.animations =~= old(self)@.animations);
        }
    }

    /// Adds `a` after the sprite's other animations.
    pub fn add_animation(&mut self, a: Animation)
        ensures
            final(self)@ == (SpriteView { animations: old(self)@.animations.push(a@), ..old(self)@ }),
    {
        self.animations.push(a);
        proof {
            assert(self@.animations =~= old(self)@.animations.push(a@));
        }
    }

    pub fn set_animation(&mut self, index: usize)
        ensures
            final(self)@ == (SpriteView { current_animation: index, ..old(self)@ }),
    {
        self.current_animation = index;
        proof {
            assert(self@.animations =~= old(self)@.animations);
        }
    }
}

/// Something sprites can be drawn on.
pub trait DrawSpriteExt {
    /// The pixels it shows.
    spec fn frame_view(&self) -> ScreenView;

    /// Composites the sprite's current frame at its position, then ticks the
    /// animation in use.
    fn draw_sprite(&mut self, s: &mut Sprite)
        requires
            old(self).frame_view().wf(),
            old(s)@.drawable(),
        ensures
            final(self).frame_view() == blit_view(old(self).frame_view(), old(s)@.image, old(s)@.shown_frame(), old(s)@.position),
            final(s)@.ticked(old(s)@),
    ;
}

impl<'fb> DrawSpriteExt for Screen<'fb> {
    open spec fn frame_view(&self) -> ScreenView {
        self@
    }

    fn draw_sprite(&mut self, s: &mut Sprite) {
        let i = s.current_animation;
        let ghost before = s@;
        let new_frame = s.animations[i].strip_frame();
        let mut ca = s.animations.remove(i);
        ca.tick();
        s.animations.insert(i, ca);
        proof {
            assert(s@.animations =~= before.animations.update(i as int, ca@));
        }
        self.bitblt(&s.image, new_frame, s.position);
    }
}

} // verus!
