pub mod text;
pub mod value;
pub mod dialect;
pub mod relation_filter;
pub mod text_input;
pub mod json_buffer;
pub mod temporal;
pub mod cell_editor;
pub mod relation_edit;
pub mod relation_review;
pub mod mysql_version;
pub mod sql_activity;
pub mod clipboard;
pub mod logger;
pub mod agent_service;
pub mod display;
