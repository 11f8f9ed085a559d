//! Reading of AIFF audio containers from an in-memory byte stream.

pub mod chunks;
pub mod extended;
pub mod form;

pub mod ids;
pub mod reader;
pub mod samples;
