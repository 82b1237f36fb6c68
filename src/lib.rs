//! Resolution of genome-assembly accessions against an archive's sharded
//! directory tree, with the decision logic for retrying downloads and for
//! running many accessions in rate-limited windows.
pub mod accession;
pub mod batch;
pub mod fetch;
pub mod pipeline;
pub mod resolve;
pub mod text;
