//! Declarative routing: path templates, route tables, parameter extraction
//! and request dispatch.
pub mod dispatch;
pub mod extract;
pub mod pattern;
pub mod pattern_lemmas;
pub mod request;
pub mod response;
pub mod router;
pub mod routing_lemmas;
pub mod scalar;
pub mod table;
pub mod text;
