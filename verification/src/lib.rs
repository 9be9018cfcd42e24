//! The verified core of a monitor for relativistic effects.
//!
//! A sender streams motion samples; the monitor shows, tick by tick, the
//! speed last seen, its Lorentz factor, the highest factor so far, and a strip
//! chart of the speeds. This crate holds the parts of the monitor that are
//! plain computation on integers, bytes and text, each with its contract:
//!
//! - `surface`: the pixel buffer and the one way to change a pixel;
//! - `raster`: straight lines;
//! - `text`: characters and lines of text in a bitmap font;
//! - `history`: the rolling history of display levels and its chart;
//! - `integrator`: the state carried from tick to tick, with the running peak;
//! - `screen`: the status block and the frame composed at every tick;
//! - `protocol`: what the ingestion service does with each frame it reads.
//!
//! What is left to the program around it: the network endpoint and the
//! decoding of samples, the window, and the single-precision arithmetic that
//! turns a sample into a speed and a factor.
pub mod history;
pub mod integrator;
pub mod protocol;
pub mod raster;
pub mod screen;
pub mod surface;
pub mod text;
