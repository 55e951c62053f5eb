//! Gene-annotation feature store: parses GTF/GFF lines into records, keeps
//! them in an interval-indexed arena and links them into a
//! gene/transcript/exon hierarchy.

pub mod attributes;
pub mod bundle;
pub mod engine;
pub mod error;
pub mod exon;
pub mod factory;
pub mod group;
pub mod hierarchy;
pub mod ingest;
pub mod interval;
pub mod object;
pub mod order;
pub mod prelude;
pub mod query;
pub mod text;
pub mod transcript;
pub mod treader;
pub mod tree;
pub mod utils;

pub use crate::attributes::Attributes;
pub use crate::error::{FormatFault, GffError, LineFault};
pub use crate::group::Transcriptome;
pub use crate::hierarchy::DanglingParent;
pub use crate::interval::Interval;
pub use crate::object::GffObject;
pub use crate::transcript::TranscriptRef;
pub use crate::treader::TReader;
pub use crate::utils::{
    attr_is_gff, extract_attributes, extract_id, extract_parent_id, get_attr_value, is_gff, Types,
};
