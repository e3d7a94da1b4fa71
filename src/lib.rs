//! Chooses, for a request, the message catalog whose locale best fits the client's
//! ranked language preferences, falling back to a configured default.

pub mod catalog;
pub mod negotiate;
pub mod text;
