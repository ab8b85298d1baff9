//! A small blog server's core: slugs, HTTP request parsing, multipart forms,
//! responses and routing, with their contracts.

pub mod domain;
pub mod error;
pub mod form;
pub mod laws;
pub mod multi_exp;
pub mod request;
pub mod response;
pub mod route;
pub mod text;
