use vstd::prelude::*;

pub mod backend;
pub mod config;
pub mod editor;
pub mod grid;
pub mod keys;
pub mod net;
pub mod paint;
pub mod protocol;
pub mod shell;
pub mod utf8_text;
pub mod widgets;

verus! {

} // verus!
