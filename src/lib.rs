//! Responsive image sets: which breakpoint widths an image gets, where each
//! generated variant is written, the `<img srcset>` markup that lists them,
//! and which files a directory walk processes, skips or leaves alone.

pub mod labels;
pub mod markup;
pub mod opts;
pub mod paths;
pub mod plan;
pub mod sizes;
pub mod walk;
