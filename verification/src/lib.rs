//! Merging PDF documents and stamping headers and footers onto their pages,
//! with the object-graph logic stated and proved over mathematical models.

pub mod date;
pub mod error;
pub mod layout;
pub mod pdf;
pub mod text;

pub use error::Error;
