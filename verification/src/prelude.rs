//! The items that most users of the library need.

pub use crate::attributes::Attributes;
pub use crate::error::{FormatFault, GffError, LineFault};
pub use crate::group::Transcriptome;
pub use crate::hierarchy::DanglingParent;
pub use crate::interval::Interval;
pub use crate::object::GffObject;
pub use crate::transcript::TranscriptRef;
pub use crate::treader::TReader;
pub use crate::utils::{
    attr_is_gff, extract_attributes, extract_id, extract_parent_id, get_attr_value, is_gff, Types,
};
