use vstd::prelude::*;

pub mod value;
pub mod model;
pub mod reader;
pub mod env;
pub mod ops;
pub mod eval;
pub mod semantics;
