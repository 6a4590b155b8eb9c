//! A fractal clock: the three hands of an analog clock recursively branch
//! into rotated, shrunken, fading copies of themselves.
//!
//! All geometry is carried out in fixed-point arithmetic (see [`fixed`]):
//! a value `v` stands for the real number `v / SCALE`. The renderer in
//! front of this library evaluates the trigonometry and supplies each hand's
//! unit vector; everything from there to the final list of draw primitives
//! is computed and specified here.

pub mod color;
pub mod fixed;
pub mod render;
pub mod state;
pub mod fractal;
pub mod geom;
