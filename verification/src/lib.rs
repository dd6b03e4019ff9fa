//! The verified core of the DST update publisher: reading the update feed
//! and page, the glossary index over the game's PO files and its search,
//! the translation exchange with a language model, and the decisions of one
//! publishing run.
pub mod bytes;
pub mod text;
pub mod variants;
pub mod byte_index;
pub mod models;
pub mod po_search;
pub mod po_file;
pub mod error;
pub mod update_page;
pub mod rss;
pub mod config;
pub mod cli;
pub mod translator;
pub mod publisher;
pub mod pipeline;
pub mod po_zip;
pub mod search_laws;
pub mod rank_laws;
pub mod stage_laws;
