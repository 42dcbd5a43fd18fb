//! Verified core of a hotel-search pipeline: XML node extraction, merging of
//! supplier documents, digest computation and the decisions of the supplier,
//! adapter and processor services.

pub mod xml;
pub mod text;
pub mod random;
pub mod digest;
pub mod merge;
pub mod response;
pub mod processor;
pub mod adapter;
pub mod supplier;
