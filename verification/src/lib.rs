//! Streaming frame reassembly and TLV decoding for an FMCW radar sensor.
//!
//! The sensor sends its telemetry as a byte stream in which frames follow one
//! another without alignment or checksums. This crate finds the frames in such
//! a stream, decodes their headers and records, and states in contracts what
//! each step returns and what it leaves in the buffer.
//!
//! - [`wire`]: integers as they appear on the link.
//! - [`tlv_translator`]: frames, headers, records, and the decoding of a stream.
//! - [`reassembly`]: the buffer between the link and the decoder.
//! - [`stream_laws`]: what holds of frame extraction whatever the stream.
//! - [`fmcw_manager`], [`ipc`]: what the acquiring and the sending side decide.
//! - [`file_reader`], [`settings`], [`config`], [`text`]: settings and the
//!   command script, read from text.
//!
//! Nothing here touches a device, a file or a clock: the program round this
//! library reads and writes, and hands over plain values.

pub mod config;
pub mod file_reader;
pub mod fmcw_manager;
pub mod ipc;
pub mod reassembly;
pub mod settings;
pub mod stream_laws;
pub mod text;
pub mod tlv_translator;
pub mod wire;
