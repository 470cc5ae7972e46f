//! Decision logic of the NoRisk launcher's download services: where files go,
//! what is fetched from where, which local files are kept, and how the
//! outcomes of many downloads combine.
use vstd::prelude::*;

pub mod text;
pub mod paths;
pub mod outcome;
pub mod ids;
pub mod libraries;
pub mod pack;
pub mod assets;
pub mod asset_tree;
pub mod group_flow;
pub mod profile_run;
pub mod pack_run;
pub mod quilt;

verus! {

} // verus!
