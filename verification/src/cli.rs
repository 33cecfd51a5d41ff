//! Render settings handed in from the outside.

use vstd::prelude::*;

verus! {

/// The knobs a rendering run is configured with.
pub struct RTArguments {
    pub spp: usize,
    pub bounce_depth: usize,
    pub image_width: usize,
    pub image_height: usize,
}

impl Default for RTArguments {
    /// The stock configuration: 64 samples per pixel, 32 bounces, and a
    /// 528 by 512 image.
    fn default() -> (r: Self)
        ensures
            r.spp == 64,
            r.bounce_depth == 32,
            r.image_width == 528,
            r.image_height == 512,
    {
        RTArguments { spp: 64, bounce_depth: 32, image_height: 512, image_width: 528 }
    }
}

} // verus!
