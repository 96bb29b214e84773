//! A pluggable build pipeline: source files with optional front matter are
//! read into an immutable intermediate representation, threaded through an
//! ordered chain of user-registered transformation stages, and written out
//! by the host.

pub mod chain;
pub mod frontmatter;
pub mod globs;
pub mod ir;
pub mod json;
pub mod markdown;
pub mod shmap;
pub mod shtola;
pub mod strutil;

pub use chain::{Middleware, Middleware2, Ware, Ware2};
pub use ir::{BuildError, Config, ShFile, IR};
pub use shmap::ShMap;
pub use shtola::{Plugin, Shtola};
