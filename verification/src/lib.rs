pub mod batch;
pub mod dict;
pub mod merge;
pub mod metadata;
pub mod options;
pub mod pdf;
pub mod plan;
pub mod response;
pub mod source;
pub mod text;
