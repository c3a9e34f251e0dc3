//! A library for building sequence diagrams interactively.
//!
//! The diagram itself is an ordered list of named participants and an ordered
//! list of events (messages and notes) that refer to participants by index.
//! Around that core sit a cursor abstraction over the two lists, a modal
//! editing workflow that walks multi-step operations, and a textual codec
//! that exchanges diagrams with a Mermaid-style `sequenceDiagram` notation.

pub mod model;
pub mod diagram;
pub mod selection;
pub mod editor;
pub mod text;
pub mod codec;
pub mod roundtrip;
pub mod workflow;
pub mod scroll;
pub mod layout;
