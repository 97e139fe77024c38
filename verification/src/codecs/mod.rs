//! The codecs: what each format needs beyond the shared compression code.

pub mod jpeg;
pub mod png;
