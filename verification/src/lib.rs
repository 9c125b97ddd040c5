//! Turning raster images into stitchable needlepoint patterns.
//!
//! A pattern is a bounded palette, a colour for every cell, and a preview.
//! It is made in stages, each in a module of its own:
//!
//! * [`quantize`] reduces the pixels of an image to a palette by median cut;
//! * [`dither`] maps the image onto the palette, pixel by pixel, and names
//!   the neighbours that take the error where error is carried along;
//! * [`matcher`] maps the palette onto a catalog of thread colours and merges
//!   what falls on the same thread;
//! * [`assign`] gives every cell the identifier of its colour;
//! * [`pipeline`] runs the stages in order.
//!
//! All of it is done in whole numbers.  Distances in CIE Lab space and the
//! error carried by Floyd-Steinberg and Atkinson dithering are fractional;
//! they are left to the caller, who hands back ranking keys and the dithered
//! raster.
//!
//! Beside the patterns stand the project file ([`project`]), the thread
//! colour cards ([`threads`]) and the rules of licensing ([`licensing`]).

pub mod assign;
pub mod dither;
pub mod licensing;
pub mod matcher;
pub mod pattern;
pub mod pipeline;
pub mod project;
pub mod quantize;
pub mod raster;
pub mod text;
pub mod threads;
