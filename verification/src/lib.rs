//! The logic of a terminal feed reader.

pub mod app;
pub mod article;
pub mod comment;
pub mod config;
pub mod entity;
pub mod feed;
pub mod html;
pub mod image;
pub mod keep;
pub mod markup;
pub mod newsboat;
pub mod opml;
pub mod pattern;
pub mod prompt;
pub mod query;
pub mod refresh;
pub mod screen;
pub mod style;
pub mod terminal;
pub mod text;
pub mod view;
pub mod wrap;
