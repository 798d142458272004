//! The shape of a Swagger document's identifying fields, for routes backed
//! by such a document.

use vstd::prelude::*;

verus! {

/// The top of a Swagger document.
#[derive(Debug, Clone)]
pub struct SwaggerRequest {
    pub openapi: String,
    pub info: Option<String>,
}

/// A document's identifying information.
#[derive(Debug, Clone)]
pub struct Info {
    pub title: String,
    pub description: Option<String>,
    pub version: String,
}

} // verus!
