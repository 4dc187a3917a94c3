use vstd::prelude::*;

pub mod text;
pub mod num;
pub mod pattern;
pub mod wfmu;
pub mod dates;
pub mod downloads;
pub mod live;
pub mod db;
pub mod playlist;
pub mod archive;
pub mod html;
pub mod live_pages;
pub mod schedule;
pub mod json;
pub mod rethink;
pub mod export;
pub mod commands;
pub mod audio;
pub mod history;
