//! Decision logic of an authenticated print gateway: page-range parsing and
//! merging, job attributes, reply handling and the request gate.

pub mod merge;
pub mod numeral;
pub mod pages;
pub mod model;
pub mod reply;
pub mod submit;
pub mod gate;
pub mod bootstrap;
pub mod registry;
