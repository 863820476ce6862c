//! Generators of JSON Streams applications and of their OpenAPI
//! specifications from a Qlerify event model.
pub mod collections;
pub mod common;
pub mod error;
pub mod json;
pub mod model;
pub mod openapi;
pub mod streams;
pub mod text;
