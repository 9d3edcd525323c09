//! Verified core of a TTML lyric processing toolkit.

pub mod text;
pub mod time;
pub mod types;
pub mod metadata;
pub mod validator;
pub mod model;
pub mod lys;
pub mod yrc;
pub mod lrc;
pub mod tokenize;
pub mod snippet;
pub mod checker;
pub mod xml;
pub mod parser;
pub mod generator;
pub mod issue_text;
pub mod bot;
pub mod rebuild;
