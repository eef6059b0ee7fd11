//! What holds of the library as a whole, stated over inputs and results.

pub mod archives;
pub mod arguments;
pub mod choosing;
pub mod documents;
pub mod finding;
pub mod objects;
pub mod printing;
pub mod queries;
pub mod ranking;
pub mod reporting;
pub mod searching;
pub mod sheets;
pub mod tasks;
pub mod text;
pub mod validity;
