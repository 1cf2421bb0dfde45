//! The codecs that the crate provides.

pub mod codecs;
pub mod interval;
pub mod record_builder;
pub mod records;
pub mod recursive;
