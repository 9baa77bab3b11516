//! From an invoice's data to a filled spreadsheet and its PDF.
pub mod fill;
pub mod pdf;
pub mod png;

pub use crate::render::fill::{InvoiceData, PortLine};
pub use crate::render::png::replace_media_in_xlsx;
