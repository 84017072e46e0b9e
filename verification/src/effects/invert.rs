//! Color inversion.

use vstd::prelude::*;
use crate::color::{Rgba, inverted};
use crate::frame::{Frame, same_shape};

verus! {

/// Replaces each pixel with its channel complement (alpha kept).
pub struct InvertEffect;

impl Default for InvertEffect {
    fn default() -> (e: Self) {
        InvertEffect
    }
}

/// The pixels of a frame after inversion.
pub open spec fn inverted_pixels(p: Seq<Rgba>) -> Seq<Rgba> {
    p.map_values(|c: Rgba| inverted(c))
}

impl InvertEffect {
    pub fn name(&self) -> (n: &'static str)
        ensures
            n@ == "invert"@,
    {
        "invert"
    }

    /// Inverts every pixel of the frame.
    pub fn apply(&self, frame: &mut Frame)
        ensures
            same_shape(final(frame)@, old(frame)@),
            final(frame).pixels@ == inverted_pixels(old(frame).pixels@),
    {
        let n = frame.pixels.len();
        let mut i: usize = 0;
        while i < n
            invariant
                frame.width == old(frame).width,
                frame.height == old(frame).height,
                n == frame.pixels@.len(),
                n == old(frame).pixels@.len(),
                i <= n,
                forall|j: int| 0 <= j < i ==> #[trigger] frame.pixels@[j] == inverted(old(frame).pixels@[j]),
                forall|j: int| i <= j < n ==> #[trigger] frame.pixels@[j] == old(frame).pixels@[j],
            decreases n - i,
        {
            let c = frame.pixels[i].invert();
            frame.pixels.set(i, c);
            i = i + 1;
        }
        assert(frame.pixels@ =~= inverted_pixels(old(frame).pixels@));
    }
}

/// Inverting a frame twice gives back the pixels it started with.
pub proof fn lemma_invert_twice(p: Seq<Rgba>)
    ensures
        inverted_pixels(inverted_pixels(p)) == p,
{
    assert(inverted_pixels(inverted_pixels(p)) =~= p);
}

} // verus!
