//! Discovery of custom Starlark builtin schemas and conversion of their
//! JSON stubs into the builtin model.

pub mod glob;
pub mod path;
pub mod manifest;
pub mod builtins;
