//! Executable semantics of small object languages (IMP/WHILE and TOML),
//! together with the replay arbiter that certifies candidate programs.

pub mod text;
pub mod markers;
pub mod certify;
pub mod imp;
pub mod toml;
pub mod imp_render;
pub mod rego;
pub mod printed_parses;

pub mod printed_names;
pub mod marker_names;
pub mod model_constructors;
