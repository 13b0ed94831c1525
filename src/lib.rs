//! Generates routing and handler scaffolding from an API description: resolves
//! component references, groups operations by tag, normalizes paths and
//! identifiers, synthesizes handler stubs and routers, and checks that every
//! generated source parses before any of it is handed out.

pub mod collect;
pub mod emit;
pub mod model;
pub mod naming;
pub mod resolve;
pub mod synth;

pub use collect::{collect_handlers, describe_operation, process_operation, HandlerDescription, HandlerGroups};
pub use emit::{
    generate_artifacts, plan_units, validate_units, Artifact, GenerationError, OutputDir,
    SourceUnit,
};
pub use model::{
    Components, Document, HttpMethod, Operation, Parameter, ParameterLocation, PathItem, RefOr,
    RequestBody, Schema,
};
pub use naming::{adjust_content_type, modify_path_template};
pub use resolve::{
    reference_resolver, request_bodies_reference_resolver, resolve_parameter,
    resolve_request_body, schema_reference_resolver,
};
pub use synth::{
    generate_content_handlers, generate_handlers, generate_module_index, generate_router,
    generate_server, join, RouteEntry,
};
