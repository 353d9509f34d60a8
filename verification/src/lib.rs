//! A small display-output layer: a busy-wait lock for shared device state and a
//! framebuffer device with mode selection, pixel encoding and rectangle fill.

pub mod sync;
pub mod uefi_fb;
