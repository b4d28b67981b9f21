//! Indexing and search of a personal Bluesky archive: the replay of sealed
//! Jetstream segments, the live tail, the ingest rules, and the search
//! pipeline over what was indexed.
pub mod archive;
pub mod bytes;
pub mod call_laws;
pub mod cli;
pub mod config;
pub mod coverage;
pub mod encoding;
pub mod events;
pub mod format_laws;
pub mod hybrid;
pub mod ingest;
pub mod ingest_laws;
pub mod ipld;
pub mod jetstream;
pub mod json;
pub mod jss;
pub mod likes;
pub mod live;
pub mod models;
pub mod rank;
pub mod replay;
pub mod replay_laws;
pub mod runner;
pub mod search;
pub mod search_laws;
pub mod service_laws;
pub mod settings_laws;
pub mod step_laws;
pub mod store;
pub mod sweep;
pub mod text;
pub mod time;
pub mod time_laws;
pub mod wire;
pub mod wire_laws;
