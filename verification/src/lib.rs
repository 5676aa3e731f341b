//! Verified kernel of a touchscreen Snake game.
//!
//! The heart of the crate is the raster blit engine in [`graphics`]: it decodes
//! an uncompressed 24-bit bitmap held as a raw byte buffer and copies its
//! pixels onto a destination [`graphics::Surface`] at an arbitrary origin,
//! under one of four 90-degree rotations, with a near-white color key acting
//! as transparency.  The byte-level model of the bitmap format lives in
//! [`bmp`].  Around that core sit the game-state rules ([`game`]), a
//! range-reduction layer over raw entropy words ([`random`]), and the
//! connection-state decisions of the ping/pong link ([`network`]).
//!
//! Hardware concerns (the display controller, the touch panel, the entropy
//! peripheral, the Ethernet device) stay outside this crate: the library works
//! on plain values and on its own in-memory surface, and a shell performs the
//! device traffic.

pub mod bmp;
pub mod game;
pub mod geom;
pub mod graphics;
pub mod network;
pub mod random;

use vstd::prelude::*;

verus! {

/// Width of the display surface in pixels.
pub const WIDTH: usize = 480;

/// Height of the display surface in pixels.
pub const HEIGHT: usize = 272;

} // verus!
