//! Inspection of container image layers: a browsable directory tree of each layer's
//! archive, extracted subtree by subtree on demand; bounded-cost fingerprints of the
//! extracted files; and the comparison of two layers' fingerprints. Also the parsing and
//! analysis of Dockerfiles, and the state the application's views show.

use vstd::prelude::*;

pub mod error;
pub mod lex;
pub mod text;
pub mod content;
pub mod toc;
pub mod tree;
pub mod diff;
pub mod fingerprint;
pub mod layer_ref;
pub mod history;
pub mod staging;
pub mod progress;
pub mod records;
pub mod docker;
pub mod dockerfile;
pub mod dockerfile_parse;
pub mod blocks;
pub mod dockerfile_editor;
pub mod ui;

verus! {

} // verus!
