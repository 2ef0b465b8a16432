//! Verified core of a local file-name search index.
//!
//! The index holds what is known about files and directories by their names. [`index`], [`sync`],
//! [`overview`] and [`refresh`] say what each operation makes of it, [`search`] what a query finds
//! in it, and [`laws`] and the other modules of laws what holds across operations. [`rpc`], [`pipe`] and [`mcp`]
//! hold the protocol by which other programs reach it.

pub mod bytes;
pub mod clock;
pub mod delta;
pub mod errors;
pub mod index;
pub mod json;
pub mod json_laws;
pub mod laws;
pub mod like;
pub mod maintenance;
pub mod mcp;
pub mod normalize;
pub mod ntfs;
pub mod overview;
pub mod path_laws;
pub mod paths;
pub mod pipe;
pub mod protocol_laws;
pub mod refresh;
pub mod result_laws;
pub mod root;
pub mod rpc;
pub mod scan_laws;
pub mod search;
pub mod search_ui;
pub mod startup;
pub mod surface_laws;
pub mod sync;
pub mod tables;
pub mod text;
pub mod text_laws;
pub mod tray;
pub mod tree_laws;
pub mod utf16;
pub mod view_laws;
pub mod volume;

pub use crate::errors::SearchError;
pub use crate::index::{ScanReport, SearchIndex};
pub use crate::overview::{AutoVolumeState, IndexStatus, IndexedRoot};
pub use crate::pipe::{call_pipe, serve_pipe, DEFAULT_PIPE_NAME};
pub use crate::rpc::handle_rpc;
pub use crate::search::{SearchItem, SearchRequest};
pub use crate::startup::local_fixed_volumes;
