pub mod api;
pub mod audit;
pub mod cli;
pub mod consent;
pub mod corpus;
pub mod cortex;
pub mod digest;
pub mod driver;
pub mod ingest;
pub mod manager;
pub mod retrieval;
pub mod run;
pub mod shard;
pub mod sidecar;
pub mod smoke;
pub mod text;
pub mod time;
