//! Streaming decoder for a compact binary container of genomic variants, with
//! typed extraction of one info field per record and a running sum and count
//! over the extracted values.
//!
//! A container is a byte string: a three-byte signature, a major and a minor
//! version byte, a length-prefixed block of header text, and then records laid
//! end to end until the bytes run out.  The header text declares the contigs
//! and the info and format fields; records refer to fields by the position of
//! their declaration.
//!
//! The way of the bytes: [`validator::validate`] checks signature and
//! version, [`header::parse`] reads the header into a
//! [`dictionary::Dictionary`], [`decoder::next_record`] decodes one
//! [`record::Record`] per call, [`extract::extract`] finds the value of a
//! named field in a record, and an [`aggregate::Aggregator`] counts and adds
//! what the records give.  [`pipeline::compute_field_average`] goes the whole
//! way.
//!
//! What each step returns is stated over functions from bytes to values:
//! [`validator::format_at`], [`header::header_at`], [`layout::record_at`],
//! [`extract::extracted`] and [`pipeline::field_average`].  The modules
//! [`encoding`] and [`rendering`] say what bytes and what text stand for a
//! record and for a declaration, and prove that reading gives back what was
//! written; [`laws`] holds what follows for whole containers.

pub mod aggregate;
pub mod cursor;
pub mod decoder;
pub mod dictionary;
pub mod encoding;
pub mod error;
pub mod extract;
pub mod header;
pub mod laws;
pub mod layout;
pub mod pipeline;
pub mod record;
pub mod rendering;
pub mod text;
pub mod validator;
pub mod wire;
