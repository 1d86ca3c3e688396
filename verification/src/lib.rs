//! Catalog, specification and call-planning logic for the Korean public data portal (data.go.kr).

pub mod bundle;
pub mod caller;
pub mod captures;
pub mod catalog;
pub mod cli;
pub mod collect;
pub mod config;
pub mod crawl;
pub mod freq;
pub mod gateway;
pub mod html;
pub mod html_parser;
pub mod json;
pub mod json_text;
pub mod mcp;
pub mod scan;
pub mod signals;
pub mod survey;
pub mod swagger;
pub mod text;
pub mod types;
