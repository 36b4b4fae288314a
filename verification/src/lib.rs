//! A schema-driven decoder for streams of XML lexical events.
//!
//! A [`schema::RecordSchema`] describes the shape of one record: its element
//! tag, its attribute fields, its child-element fields, its flattened-text
//! fields, or its raw-text field.  The decoder walks a [`events::TokenSource`]
//! (a pull cursor over lexical events) and produces a fully populated
//! [`value::Record`], applying optionality, repetition, default and
//! required-field rules, while skipping unrecognized content.

pub mod events;
pub mod schema;
pub mod value;
pub mod scalar;
pub mod model;
pub mod decode;
pub mod laws;
