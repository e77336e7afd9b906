//! Playback without a player: the stream's addresses and errors, the fragmented MP4 that YouTube
//! serves, the music cache's byte ranges, and the list of stream clients.
pub mod resolver;
pub mod control;
pub mod engine;
pub mod fmp4;
pub mod reader;
pub mod song_cache;
pub mod stream;
pub mod stream_clients;
