pub mod activity;
pub mod boards;
pub mod chars;
pub mod charts;
pub mod counts;
pub mod state;
pub mod terms;
pub mod text;
pub mod turn_pass;
pub mod turn_table;
pub mod turns;
pub mod timeline;
pub mod workspace;
pub mod event_pass;
pub mod events;
pub mod export;
pub mod filters;
pub mod importer;
pub mod json;
pub mod logs;
pub mod models;
pub mod numbers;
pub mod parsers;
pub mod projects;
pub mod ranking;
