//! Deezer downloading and radio streaming: the decisions behind the tool.

pub mod text;
pub mod crypto;
pub mod json;
pub mod models;
pub mod cli;
pub mod files;
pub mod flac;
pub mod tags;
pub mod resolve;
pub mod report;
pub mod track;
pub mod saving;
pub mod batch;
pub mod download;
pub mod artist;
pub mod favorites;
pub mod order;
pub mod sort;
pub mod dedupe;
pub mod cleaning;
pub mod queue;
pub mod real32;
pub mod audio;
pub mod dsp;
pub mod stereo_lib;
pub mod icecast;
pub mod source;
pub mod hls;
pub mod api;
pub mod calls;
pub mod auth;
pub mod output;
pub mod search;
pub mod serve;
pub mod loudness;
pub mod link;
