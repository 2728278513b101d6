//! Any file to Markdown: the decisions of the conversion plugin.
//!
//! The plugin carries two entities over one conversion engine. The backend is
//! invoked by the model, as a tool: it acquires bytes and may ask a host to
//! enrich the document. The transform is invoked by the gateway, on a payload
//! in flight: it does no I/O and holds no host. They share one profile
//! registry, so both render the same document the same way.
//!
//! What the plugin will not do:
//!
//! - No filesystem access, ever. No argument names a path, and `file:` URIs are
//!   refused with an explanation ([`source`]).
//! - No fetching of URLs found inside documents. The opt-in `url` source
//!   fetches what the caller named, with every redirect hop resolved and
//!   checked again ([`fetch`]).
//! - No provider credentials. Enrichment is dispatched through the host, and
//!   it is fail-soft: it degrades the document with a warning, never the call
//!   ([`enrich`]).
//!
//! The engine, the host and the network stay outside. What they answer comes in
//! as a value, and what is to be done next goes out as one.

pub mod backend_entity;
pub mod codec;
pub mod codec_laws;
pub mod config;
pub mod convert;
pub mod convert_laws;
pub mod dispatch_laws;
pub mod document;
pub mod enrich;
pub mod enrich_counts;
pub mod enrich_laws;
pub mod enrich_outcome;
pub mod error;
pub mod fetch;
pub mod fetch_laws;
pub mod fetch_outcome;
pub mod fetch_targets;
pub mod json;
pub mod json_laws;
pub mod obs;
pub mod obs_laws;
pub mod source;
pub mod source_laws;
pub mod state;
pub mod state_laws;
pub mod stream;
pub mod text;
pub mod text_laws;
pub mod transform_entity;
pub mod transform_laws;

pub use config::{ProfileConfig, Sources};
pub use convert::Converted;
