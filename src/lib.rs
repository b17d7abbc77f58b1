//! A CHIP-8 style virtual machine: instruction interpreter, monochrome
//! framebuffer with XOR sprite blitting, and a deterministic byte source.
use vstd::prelude::*;

pub mod chip8;
pub mod display;
pub mod lemmas;
pub mod lsfr;

verus! {

} // verus!
