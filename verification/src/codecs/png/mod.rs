//! What the PNG format needs beyond the inflater: the filters of its
//! scanlines.

pub mod filter;
