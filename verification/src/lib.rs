//! Turns the rows of a CSV document into rendered text artifacts, one per row,
//! through Handlebars templates for the body and for the file name.

pub mod context;
pub mod payload;
pub mod pipeline;
pub mod row;
pub mod scan;
pub mod table;
pub mod template;
