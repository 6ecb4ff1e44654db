//! The animations of a tilemap: each a sequence of textures shown one after the other, each
//! for the same time.

use vstd::prelude::*;

verus! {

/// An animation: the textures that it shows in turn, and for how many ticks of the host's
/// clock it shows each.
#[derive(Debug)]
pub struct RawTileAnimation {
    pub sequence: Vec<u32>,
    pub frame_duration: u32,
}

/// Why the table of animations refuses a call.
#[derive(Clone, Copy, Debug, PartialEq, Eq, Structural)]
pub enum AnimationError {
    /// No animation is registered under this number.
    Missing { animation: u32 },
    /// The animation shows no texture, or shows each for no time.
    Degenerate,
    /// The table holds as many animations as can be numbered.
    TableFull,
}

/// The mathematical value of a [`RawTileAnimation`].
pub struct AnimationView {
    pub sequence: Seq<u32>,
    pub frame_duration: u32,
}

impl View for RawTileAnimation {
    type V = AnimationView;

    open spec fn view(&self) -> AnimationView {
        AnimationView { sequence: self.sequence@, frame_duration: self.frame_duration }
    }
}

impl RawTileAnimation {
    /// An animation with the same value.
    pub fn duplicate(&self) -> (copy: RawTileAnimation)
        ensures
            copy@ == self@,
    {
        let mut sequence: Vec<u32> = Vec::new();
        let mut i: usize = 0;
        while i < self.sequence.len()
            invariant
                i <= self.sequence.len(),
                sequence@ == self.sequence@.subrange(0, i as int),
            decreases self.sequence.len() - i,
        {
            sequence.push(self.sequence[i]);
            i += 1;
        }
        assert(self.sequence@.subrange(0, self.sequence.len() as int) =~= self.sequence@);
        RawTileAnimation { sequence, frame_duration: self.frame_duration }
    }
}

/// The texture that `animation` shows once `elapsed` ticks have gone by: it starts over
/// after its last texture.
pub open spec fn frame_of(animation: AnimationView, elapsed: u64) -> u32
    recommends
        animation.sequence.len() > 0,
        animation.frame_duration > 0,
{
    animation.sequence[((elapsed / (animation.frame_duration as u64)) as int)
        % (animation.sequence.len() as int)]
}

/// The animations of a tilemap, numbered in the order in which they were registered.
#[derive(Debug)]
pub struct TilemapAnimations {
    pub(crate) animations: Vec<RawTileAnimation>,
}

impl View for TilemapAnimations {
    type V = Seq<AnimationView>;

    closed spec fn view(&self) -> Seq<AnimationView> {
        Seq::new(self.animations@.len(), |i: int| self.animations@[i]@)
    }
}

impl TilemapAnimations {
    /// Every animation shows a texture, each for some time, and the animations can be
    /// numbered.
    pub closed spec fn wf(&self) -> bool {
        &&& self.animations.len() <= u32::MAX
        &&& forall|i: int|
            0 <= i < self.animations.len() ==> (#[trigger] self.animations[i]).sequence.len() > 0
                && self.animations[i].frame_duration > 0
    }

    /// A table with no animation.
    pub fn new() -> (table: TilemapAnimations)
        ensures
            table.wf(),
            table@ == Seq::<AnimationView>::empty(),
    {
        TilemapAnimations { animations: Vec::new() }
    }

    /// Why `register` refuses `animation`, if it does.
    pub open spec fn register_error(self, animation: AnimationView) -> Option<AnimationError> {
        if animation.sequence.len() == 0 || animation.frame_duration == 0 {
            Some(AnimationError::Degenerate)
        } else if self@.len() >= u32::MAX {
            Some(AnimationError::TableFull)
        } else {
            None
        }
    }

    /// Registers `animation` and hands back the number that tiles refer to it by.
    pub fn register(&mut self, animation: RawTileAnimation) -> (registered: Result<
        u32,
        AnimationError,
    >)
        requires
            old(self).wf(),
        ensures
            final(self).wf(),
            match registered {
                Ok(number) => {
                    &&& old(self).register_error(animation@) is None
                    &&& number == old(self)@.len()
                    &&& final(self)@ == old(self)@.push(animation@)
                },
                Err(error) => {
                    &&& old(self).register_error(animation@) == Some(error)
                    &&& final(self)@ == old(self)@
                },
            },
    {
        if animation.sequence.len() == 0 || animation.frame_duration == 0 {
            return Err(AnimationError::Degenerate);
        }
        if self.animations.len() >= u32::MAX as usize {
            return Err(AnimationError::TableFull);
        }
        let number: u32 = self.animations.len() as u32;
        self.animations.push(animation);
        Ok(number)
    }

    /// The texture that the animation numbered `animation` shows once `elapsed` ticks have
    /// gone by.
    pub fn frame_at(&self, animation: u32, elapsed: u64) -> (frame: Result<u32, AnimationError>)
        requires
            self.wf(),
        ensures
            match frame {
                Ok(texture) => animation < self@.len() && texture == frame_of(
                    self@[animation as int],
                    elapsed,
                ),
                Err(error) => animation >= self@.len() && error == (AnimationError::Missing {
                    animation,
                }),
            },
    {
        if animation as usize >= self.animations.len() {
            return Err(AnimationError::Missing { animation });
        }
        let shown = &self.animations[animation as usize];
        let step: u64 = elapsed / (shown.frame_duration as u64);
        let at: usize = (step % (shown.sequence.len() as u64)) as usize;
        Ok(shown.sequence[at])
    }
}

} // verus!
