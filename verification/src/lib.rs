//! Turns a bitmap into an ordered list of pointer actions that redraw it, pixel by pixel,
//! on a canvas that offers a fixed palette of 22 colors.
//!
//! A picture goes through the modules in this order:
//!
//! - [`image_converter`] makes it a thumbnail of the size of the canvas and brings it
//!   down to the palette, by way of [`dither`], which quantizes with or without error
//!   diffusion, and [`color_map`], which finds the nearest palette color;
//! - [`traversal`] decides which pixels a pass over the image draws, and [`queue`]
//!   holds them in drawing order, dark colors first;
//! - [`executor`] drains the queue one instruction at a time, until it is empty or
//!   the session is cancelled, and says what the pointer is to do for each
//!   instruction; [`drawer`] knows where the canvas and the colors are on the screen.
//!
//! [`colors`] holds the palette, [`bitmap`] the pixel grids, [`desktop`] the actions
//! of the pointer. [`cli`] reads numbers and boxes from text, and
//! [`image_downloader`] finds the pictures that a search page offers.
//!
//! Nothing here touches the screen, the network or the clock: the library computes,
//! and its caller acts.
pub mod bitmap;
pub mod cli;
pub mod color_map;
pub mod colors;
pub mod desktop;
pub mod dither;
pub mod drawer;
pub mod executor;
pub mod image_converter;
pub mod image_downloader;
pub mod queue;
pub mod traversal;
