//! Driver model for a small color OLED panel on a 4-wire serial bus.
//!
//! The library renders a static label screen and a live counter by turning
//! drawing operations into an explicit trace of bus operations (commands,
//! data bursts, reset-line changes and delays).  A host shell performs the
//! trace on the physical bus; everything that decides *which* bytes go out,
//! and in which order, is verified here.

pub mod color;
pub mod geom;
pub mod link;
pub mod text_buf;
pub mod font;
pub mod session;
pub mod render;
pub mod frame;
