//! A small verified core for a static "map" site: an index page is assembled
//! once at startup by splicing a generated listing fragment into an HTML
//! template, and every later request is answered from that immutable state.
//!
//! The modules hold the three pieces of that core: placeholder substitution
//! in a template ([`render`]), the HTML listing fragment built from a
//! directory scan ([`listing`]), and the dispatch of request paths onto the
//! precomputed pages ([`router`]).

pub mod listing;
pub mod pages;
pub mod render;
pub mod router;
