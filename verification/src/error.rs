//! The errors that the generators report.
use vstd::prelude::*;

verus! {

/// Why a model or a template could not be used.
pub enum ToolError {
    FieldNoName,
    InvalidPointer(String),
    Json(immutable_json::error::Error),
    JsonObject,
    JsonOrYaml,
    NoBoundedContext,
    NoCommand(String),
    NoDomainEvents,
    NoSchema(String),
    Yaml(serde_yaml::Error),
}

/// An error with its texts as sequences of characters; the errors of the
/// JSON and YAML crates are not modelled beyond their kind.
pub enum ToolErrorV {
    FieldNoName,
    InvalidPointer(Seq<char>),
    Json,
    JsonObject,
    JsonOrYaml,
    NoBoundedContext,
    NoCommand(Seq<char>),
    NoDomainEvents,
    NoSchema(Seq<char>),
    Yaml,
}

impl View for ToolError {
    type V = ToolErrorV;

    open spec fn view(&self) -> ToolErrorV {
        match self {
            ToolError::FieldNoName => ToolErrorV::FieldNoName,
            ToolError::InvalidPointer(s) => ToolErrorV::InvalidPointer(s@),
            ToolError::Json(_) => ToolErrorV::Json,
            ToolError::JsonObject => ToolErrorV::JsonObject,
            ToolError::JsonOrYaml => ToolErrorV::JsonOrYaml,
            ToolError::NoBoundedContext => ToolErrorV::NoBoundedContext,
            ToolError::NoCommand(s) => ToolErrorV::NoCommand(s@),
            ToolError::NoDomainEvents => ToolErrorV::NoDomainEvents,
            ToolError::NoSchema(s) => ToolErrorV::NoSchema(s@),
            ToolError::Yaml(_) => ToolErrorV::Yaml,
        }
    }
}

/// The model of a result whose success is modelled by `f`.
pub open spec fn result_view<T, V>(r: Result<T, ToolError>, f: spec_fn(T) -> V) -> Result<V, ToolErrorV> {
    match r {
        Ok(t) => Ok(f(t)),
        Err(e) => Err(e@),
    }
}

} // verus!
