//! Extraction of a catalog of downloadable bulletins from one HTML page.
//!
//! The library turns the loosely structured cells of an HTML table into
//! typed records, looks records up by id, and encodes the catalog as JSON.

pub mod chars;
pub mod text;
pub mod record;
pub mod row;
pub mod scan;
pub mod catalog;
