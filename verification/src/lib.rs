//! A library for serving FLV files with a `keyframes` index spliced into the
//! `onMetaData` script tag.
//!
//! The library scans an FLV byte stream, collects video keyframe positions,
//! synthesizes a replacement metadata tag whose `keyframes` object carries
//! self-consistent file offsets, records the splice as a [`patch::Patch`], and
//! presents a virtual patched byte view with full seek support.
pub mod amf0;
pub mod double;
pub mod flv;
pub mod flv_reader;
pub mod keyframes;
pub mod patch;
