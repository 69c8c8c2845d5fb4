//! Module resolution, caching and standalone packaging for an embeddable
//! Luau scripting host.
//!
//! - `assoc`: association lists where the last entry for a key counts.
//! - `path`: normalized paths and the extension rules of the resolver.
//! - `context`: the library registry and the virtual script store.
//! - `cache`: the per-path require cache and its state machine.
//! - `require`: the order in which a request is resolved.
//! - `standalone`: the trailer that packs scripts into an executable.
//! - `global`, `library`: the names of the standard globals and libraries.

pub mod assoc;
pub mod cache;
pub mod context;
pub mod global;
pub mod library;
pub mod path;
pub mod require;
pub mod standalone;

pub use cache::{CacheEntry, CacheReply, RequireCache};
pub use context::{GlobalsContext, GlobalsContextBuilder, LuneModule, LuneModuleCreator};
pub use global::LuneStandardGlobal;
pub use library::LuneStandardLibrary;
pub use path::{resolve_path, PathComponent, ScriptPath};
pub use require::{
    candidate_paths, request_kind, require_step, resolve_paths, ProbeOutcome, RequestKind,
    RequireAction,
};
pub use standalone::{install_scripts, LuauScript, Metadata, MetadataError};
