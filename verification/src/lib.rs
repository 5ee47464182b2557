//! Kiriko's engine core: exact rational time, the retime curve, the document
//! model and its invertible operations, and the small pure helpers the editor
//! shell builds on.

pub mod anim;
pub mod beat;
pub mod divisor;
pub mod edits;
pub mod eval;
pub mod export;
pub mod markers;
pub mod model;
pub mod nesting;
pub mod ops;
pub mod ops_laws;
pub mod rational;
pub mod retime;
pub mod retime_laws;
pub mod shell;
pub mod speed_keys;
pub mod text;
pub mod time;
