pub mod config;
pub mod derive;
pub mod document;
pub mod error;
pub mod field;
pub mod provenance;
pub mod python;
pub mod text;
pub mod scalar;
pub mod value;
pub mod duration;
pub mod source;
pub mod resolver;
