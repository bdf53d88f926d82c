//! Container image references: parsing into a structured value, writing the
//! canonical form back out, and rewriting the registry prefix of that form.
use vstd::prelude::*;

pub mod text;
pub mod image;
pub mod remap;

pub use image::ImageRef;
pub use remap::{canonicalize, remap, remap_images};

