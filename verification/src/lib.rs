//! The rules of a small web application that searches a book tracker, hands
//! torrents to Transmission and imports finished downloads into a library.

pub mod adding;
pub mod auto_import;
pub mod error;
pub mod history;
pub mod import;
pub mod json;
pub mod names;
pub mod numbers;
pub mod outside;
pub mod paths;
pub mod search;
pub mod settings;
pub mod text;
pub mod transmission;
pub mod values;
pub mod words;
