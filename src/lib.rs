//! A single-node document store engine: the collection registry, the schema
//! derived from declared index fields, the ingest bookkeeping, the query
//! planner with its in-memory refinement, maintenance decisions and the
//! access gate for mutating and administrative requests.
pub mod access;
pub mod document;
pub mod fields;
pub mod ingest;
pub mod maintenance;
pub mod number;
pub mod query;
pub mod refine;
pub mod registry;
pub mod settings;
pub mod store;
pub mod schema;
pub mod text;
