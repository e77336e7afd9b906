//! Melogold: the rules of a YouTube Music player without the interface.
pub mod app_info;
pub mod chars;
pub mod countries;
pub mod images;
pub mod innertube;
pub mod json;
pub mod links;
pub mod localization;
pub mod logs;
pub mod mpris;
pub mod music;
pub mod paths;
pub mod playback;
pub mod plurals;
pub mod queue;
pub mod search_page;
pub mod seqs;
pub mod settings;
pub mod system;
pub mod text;
pub mod texts;
pub mod thumbnails;
