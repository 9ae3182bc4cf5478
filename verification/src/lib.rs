//! A server-side reactive page library: handlers declare server-held state
//! cells, computed values derived from them, and callbacks invokable from the
//! browser; the library keeps a live connection synchronized with those values.
//!
//! The core is the reactive update engine: the arena that owns state cells,
//! the registries that dispatch closures and client events, the dependency
//! graph that recomputes derived values, and the compiler that turns a
//! rendered markup tree into targeted client-side patch scripts, orchestrated
//! by per-connection protocol step functions.
#![verifier::loop_isolation(false)]

pub mod attribute;
pub mod attributes;
pub mod closures;
pub mod computed;
pub mod config;
pub mod content;
pub mod context;
pub mod decimal;
pub mod element;
pub mod escape;
pub mod events;
pub mod funcs;
pub mod laws;
pub mod model;
pub mod protocol;
pub mod random_id;
pub mod reactive_js;
pub mod states;
pub mod strutil;
pub mod value;
