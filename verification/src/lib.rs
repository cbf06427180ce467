//! Verified core of an HTTP client driven by JSON/YAML request documents.
#![allow(unused_imports)]

use vstd::prelude::*;

pub mod text;
pub mod trusted;
pub mod json;
pub mod floatlit;
pub mod yaml_util;
pub mod atom;
pub mod format_json;
pub mod format_yaml;
pub mod env;
pub mod glob;
pub mod cache;
pub mod config;
pub mod error;
pub mod request;
pub mod template;
pub mod shortcut;
pub mod input;
pub mod plan;
pub mod response;
pub mod help;
pub mod driver;
pub mod laws;

verus! {

} // verus!
