//! An append-only on-disk store for color classes: shared, generation-wise
//! chains of 32-bit color fragments, addressed by fragment index.
//!
//! The crate holds the verified core: the fragment record codec, the
//! generation registry and its sidecar codec, the append protocol, and the
//! backward chain reader. File handling, memory maps and locking live with
//! the embedding program, which exchanges plain byte buffers with this core.

pub mod codec;
pub mod config;
pub mod errors;
pub mod fragment;
pub mod generation;
pub mod indices;
pub mod rangemap_api;
pub mod reader;
pub mod registry;
pub mod roaring_api;
pub mod sidecar;
pub mod table;

pub use config::ColorTableConfig;
pub use errors::ColorTableError;
pub use generation::Generation;
pub use fragment::{ColorFragment, ColorFragmentIndex, ColorId};
pub use registry::{GenerationState, Generations};
pub use table::ColorTable;
pub use reader::{color_class, parent_of, size_hint};
pub use indices::{into_bitmap, into_indices};
