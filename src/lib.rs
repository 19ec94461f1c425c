//! Resolution of qualified type paths to canonical type names.
//!
//! A path such as `std::option::Option<T>`, `option::Option<T>` or `r#Option<T>`
//! is normalized (raw prefixes and leading `::` removed) and looked up in a
//! table of custom mappings and, optionally, in built-in tables of Rust
//! primitives, prelude types and common standard-library types.

pub mod text;
pub mod utils;
pub mod syntax;
pub mod groups;
pub mod definitions;
pub mod storage;
pub mod phf_storage;
pub mod resolver;
pub mod laws;

pub use syntax::{parse_path, HasRaw, Ident, Path, PathSegment, StripRaw};
pub use groups::TypeGroups;
pub use storage::{EmptyStorage, MappingStorage, MappingTable};
pub use resolver::{
    create_static_resolver, DynamicPathResolver, PathResolver, PrimitivePathResolver,
    StaticPathResolver,
};
