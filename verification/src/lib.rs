//! Verified core of a desktop YouTube Music player: the play queue, the
//! parsers of what YouTube and its tools answer, and the decisions of the
//! audio engine.
pub mod model;
pub mod queue;
pub mod text;
pub mod links;
pub mod lyrics;
pub mod codec;
pub mod minter;
pub mod thumbs;
pub mod decode;
pub mod audio;
pub mod ytdlp;
pub mod clients;
pub mod select;
pub mod resolve;
pub mod json;
pub mod search;
pub mod radio;
pub mod browse;
pub mod playlist;
pub mod cache;
pub mod engine;
pub mod host;
pub mod store;
pub mod update;
pub mod spike;
pub mod cover;
