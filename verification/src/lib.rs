//! The rules, routing decisions and record keeping of Net Sentinel, a local HTTP blocking proxy.

pub mod actions;
pub mod analytics;
pub mod assets;
pub mod chart;
pub mod config;
pub mod editor;
pub mod events;
pub mod export;
pub mod foreign;
pub mod globs;
pub mod groups;
pub mod http;
pub mod intercept;
pub mod notices;
pub mod pages;
pub mod preview;
pub mod probe;
pub mod response;
pub mod route;
pub mod rules;
pub mod service;
pub mod settings;
pub mod shell;
pub mod system;
pub mod text;
pub mod tunnel;
