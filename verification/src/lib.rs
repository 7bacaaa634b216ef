//! Procedural generation of seamlessly tileable RGB wallpaper images:
//! an abstract raster-image contract, exact-rational wallpaper-group
//! coordinate remapping, bilinear sampling with wraparound, checkerboard
//! box drawing, ordered (web-safe) and error-diffusion dithering, and
//! the random scene generator that composes them.

pub mod basicrgbimage;
pub mod dither;
pub mod frac;
pub mod imageop;
pub mod random;
pub mod randomwp;
pub mod remap;
pub mod sample;
