use vstd::prelude::*;

use crate::image::Image;
use crate::types::DisposalMethod;

verus! {

/// One frame of an animation: an image, how long it is shown, and how it
/// is disposed of before the next frame.
#[derive(Clone, Debug)]
pub struct Frame {
    pub image: Image,
    /// How long the frame is shown, in milliseconds.
    pub delay: u64,
    pub disposal: DisposalMethod,
}

impl Frame {
    /// A frame that shows `image` for no time and keeps it afterwards.
    pub fn new(image: Image) -> (r: Frame)
        ensures
            r.image.same_grid(&image),
            r.image.overlay_mode == image.overlay_mode,
            r.delay == 0,
            r.disposal == DisposalMethod::Keep,
    {
        Frame { image, delay: 0, disposal: DisposalMethod::Keep }
    }

    /// Two frames show the same pixels for the same time and are disposed of
    /// in the same way.
    pub open spec fn same_as(&self, other: &Frame) -> bool {
        &&& self.image.same_grid(&other.image)
        &&& self.image.overlay_mode == other.image.overlay_mode
        &&& self.delay == other.delay
        &&& self.disposal == other.disposal
    }

    /// A copy of this frame.
    pub fn duplicate(&self) -> (r: Frame)
        ensures
            r.same_as(self),
    {
        Frame { image: self.image.duplicate(), delay: self.delay, disposal: self.disposal }
    }

    pub fn get_delay(&self) -> (r: u64)
        ensures
            r == self.delay,
    {
        self.delay
    }

    pub fn get_dimensions(&self) -> (r: (u32, u32))
        ensures
            r == (self.image.width, self.image.height),
    {
        (self.image.width, self.image.height)
    }

    pub fn get_disposal(&self) -> (r: DisposalMethod)
        ensures
            r == self.disposal,
    {
        self.disposal
    }

    /// A copy of the frame's image.
    pub fn get_image(&self) -> (r: Image)
        ensures
            r.same_grid(&self.image),
            r.overlay_mode == self.image.overlay_mode,
    {
        self.image.duplicate()
    }

    pub fn set_delay(&mut self, delay: u64)
        ensures
            final(self).delay == delay,
            final(self).disposal == old(self).disposal,
            final(self).image == old(self).image,
    {
        self.delay = delay;
    }

    pub fn set_disposal(&mut self, disposal: DisposalMethod)
        ensures
            final(self).disposal == disposal,
            final(self).delay == old(self).delay,
            final(self).image == old(self).image,
    {
        self.disposal = disposal;
    }
}

/// The frames that a cursor standing at `consumed` still hands out.
pub open spec fn remaining(frames: Seq<Frame>, consumed: int) -> Seq<Frame> {
    frames.subrange(consumed, frames.len() as int)
}

/// An ordered sequence of frames with a single-pass cursor. The cursor only
/// moves forward: once every frame has been handed out it hands out nothing
/// more, while the frames themselves stay stored.
pub struct ImageSequence {
    frames: Vec<Frame>,
    cursor: usize,
}

impl ImageSequence {
    /// The stored frames.
    pub closed spec fn frames(&self) -> Seq<Frame> {
        self.frames@
    }

    /// How many frames the cursor has handed out.
    pub closed spec fn consumed(&self) -> int {
        self.cursor as int
    }

    pub closed spec fn wf(&self) -> bool {
        self.cursor <= self.frames@.len()
    }

    /// A sequence of `frames`, in order, with a fresh cursor.
    pub fn from_frames(frames: Vec<Frame>) -> (r: ImageSequence)
        ensures
            r.wf(),
            r.frames() == frames@,
            r.consumed() == 0,
    {
        ImageSequence { frames, cursor: 0 }
    }

    /// The number of stored frames, however far the cursor has moved.
    pub fn len(&self) -> (r: usize)
        ensures
            r == self.frames().len(),
    {
        self.frames.len()
    }

    pub fn is_empty(&self) -> (r: bool)
        ensures
            r == (self.frames().len() == 0),
    {
        self.frames.len() == 0
    }

    /// The stored frame at `index`, whatever the cursor has handed out.
    pub fn frame(&self, index: usize) -> (r: Option<&Frame>)
        ensures
            index < self.frames().len() ==> r == Some(&self.frames()[index as int]),
            index >= self.frames().len() ==> r is None,
    {
        if index < self.frames.len() {
            Some(&self.frames[index])
        } else {
            None
        }
    }

    /// The next frame under the cursor, or `None` once every frame has been
    /// handed out.
    pub fn next_frame(&mut self) -> (r: Option<Frame>)
        requires
            old(self).wf(),
        ensures
            final(self).wf(),
            final(self).frames() == old(self).frames(),
            old(self).consumed() < old(self).frames().len() ==> {
                &&& r is Some
                &&& r->Some_0.same_as(&old(self).frames()[old(self).consumed()])
                &&& final(self).consumed() == old(self).consumed() + 1
            },
            old(self).consumed() >= old(self).frames().len() ==> r is None && final(self).consumed()
                == old(self).consumed(),
    {
        if self.cursor < self.frames.len() {
            let f = self.frames[self.cursor].duplicate();
            self.cursor = self.cursor + 1;
            Some(f)
        } else {
            None
        }
    }

    /// Every frame the cursor has not handed out yet, in order; the cursor is
    /// left exhausted.
    pub fn drain(&mut self) -> (r: Vec<Frame>)
        requires
            old(self).wf(),
        ensures
            final(self).wf(),
            final(self).frames() == old(self).frames(),
            final(self).consumed() == final(self).frames().len(),
            r@.len() == remaining(old(self).frames(), old(self).consumed()).len(),
            forall|k: int|
                0 <= k < r@.len() ==> #[trigger] r@[k].same_as(&remaining(old(self).frames(), old(self).consumed())[k]),
    {
        let ghost start = self.cursor as int;
        let mut out: Vec<Frame> = Vec::new();
        while self.cursor < self.frames.len()
            invariant
                self.wf(),
                self.frames@ == old(self).frames@,
                start == old(self).cursor,
                start <= self.cursor,
                out@.len() == self.cursor - start,
                forall|k: int| 0 <= k < out@.len() ==> #[trigger] out@[k].same_as(&self.frames@[start + k]),
            decreases self.frames@.len() - self.cursor,
        {
            let f = self.frames[self.cursor].duplicate();
            out.push(f);
            self.cursor = self.cursor + 1;
        }
        assert forall|k: int| 0 <= k < out@.len() implies #[trigger] out@[k].same_as(
            &remaining(old(self).frames@, start)[k],
        ) by {
            assert(remaining(old(self).frames@, start)[k] == self.frames@[start + k]);
        }
        out
    }
}

/// The cursor is single-pass: from a fresh sequence of `n` frames a full
/// drain hands out all `n` frames in order, and a second drain from the
/// exhausted cursor hands out none, while `n` frames stay stored.
pub proof fn lemma_single_pass(frames: Seq<Frame>)
    ensures
        remaining(frames, 0) == frames,
        remaining(frames, frames.len() as int).len() == 0,
{
    assert(remaining(frames, 0) =~= frames);
}

} // verus!
