//! Annotations of resources, remembered across restarts.
//!
//! A store keeps, for each seed, kind of resource and name, what a user has annotated: a label, a
//! description and writable tags. Changes come in one by one ([`AnnotationStore::apply`]). The
//! store is written to a checkpoint and restored from it.
//!
//! - [`annotation`]: annotations, changes and tags.
//! - [`store`]: the store and what its changes keep.
//! - [`checkpoint`]: the records of a checkpoint, and the round trip through them.
//! - [`layout`]: the checkpoint file by the texts in it.
//! - [`opening`], [`replace`], [`writer`]: what is done next when a store is opened, when the file
//!   is replaced, and when the writer gets a message. Whoever performs these steps reports back
//!   what came of them.
//! - [`location`], [`settings`]: paths and settings.
//! - [`error`]: why a checkpoint is refused.
//! - [`ordered_map`], [`text`]: a map in the order of its keys, and text.

pub mod annotation;
pub mod checkpoint;
pub mod error;
pub mod layout;
pub mod location;
pub mod opening;
pub mod ordered_map;
pub mod replace;
pub mod settings;
pub mod store;
pub mod text;
pub mod writer;

pub use annotation::{read_only_tag, Annotation, AnnotationChange, ResourceType, Tags};
pub use checkpoint::{CheckpointFile, CheckpointRead, CheckpointRecord};
pub use error::CheckpointError;
pub use location::{checkpoint_path, default_checkpoint_file, temp_path};
pub use store::AnnotationStore;
