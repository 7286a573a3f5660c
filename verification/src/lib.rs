//! The verified core of a local-first feed reader.

pub mod articles;
pub mod backup;
pub mod cli;
pub mod dates;
pub mod desk;
pub mod dialogs;
pub mod directory;
pub mod discovery;
pub mod domain;
pub mod error;
pub mod history;
pub mod html;
pub mod identity;
pub mod images;
pub mod ingestion;
pub mod integration;
pub mod intake;
pub mod json;
pub mod json_feed;
pub mod launch;
pub mod laws;
pub mod library;
pub mod markup;
pub mod network;
pub mod network_worker;
pub mod nostr;
pub mod nostr_worker;
pub mod opml;
pub mod order;
pub mod packing;
pub mod page_discovery;
pub mod pages;
pub mod parser;
pub mod pictures;
pub mod presentation;
pub mod reader;
pub mod records;
pub mod refresh;
pub mod retention;
pub mod schema;
pub mod search_index;
pub mod signals;
pub mod sorting;
pub mod subscriptions;
pub mod text;
pub mod unique;
pub mod web;
pub mod worker;
pub mod xml;
