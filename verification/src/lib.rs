//! The event-producing core of an error tolerant, lossless JavaScript parser.
//!
//! A [`Parser`](parser::Parser) reads the lexemes of a
//! [`TokenSource`](token_source::TokenSource) and yields a flat list of
//! [`Event`](event::Event)s. Nodes are opened with a [`Marker`](marker::Marker)
//! and closed into a [`CompletedMarker`](marker::CompletedMarker). The functions
//! of [`explain`] compose the text with which the command line describes a rule.
//!
//! What holds of the parser as a whole is proved in [`laws`] and [`nesting`], what
//! each step does in [`effects`] and [`reading`], and what each function returns and
//! leaves behind in [`calls`].
pub mod calls;
pub mod diagnostic;
pub mod effects;
pub mod event;
pub mod explain;
pub mod laws;
pub mod marker;
pub mod nesting;
pub mod parser;
pub mod progress;
pub mod reading;
pub mod state;
pub mod text;
pub mod token_source;
pub mod syntax;
