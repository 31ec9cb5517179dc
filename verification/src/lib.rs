//! Builder for flat initrd boot images.
//!
//! An image is a header, a table of fixed-size entry descriptors, and a
//! packed data region holding each entry's name and content bytes, every
//! blob aligned to an eight-byte boundary. The whole layout is a pure
//! function of the ordered entry list; `image::to_initrd` computes it in a
//! single forward pass and is proved to emit exactly `image::image_spec`.

pub mod align;
pub mod image;
pub mod props;
