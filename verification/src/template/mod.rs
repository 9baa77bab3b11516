//! Spreadsheet templates: what they hold and where their pictures stand.
pub mod anchors;
pub mod audit;
pub mod digest;
pub mod drawings;
pub mod filled;
pub mod inspect;
pub mod media;

pub use crate::template::anchors::parse_drawing_anchors;
pub use crate::template::audit::write_template_version;
pub use crate::template::inspect::{
    column_letter, inspect, CellEntry, CellKind, DrawingEntry, MediaEntry, TemplateAudit,
};
