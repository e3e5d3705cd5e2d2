//! A static site generator's verified core.
pub mod text;
pub mod routes;
pub mod dates;
pub mod order;
pub mod markdown;
pub mod articles;
pub mod archive;
pub mod json;
pub mod html;
pub mod audit;
pub mod page_audit;
pub mod schema;
pub mod site;
pub mod diagrams;
