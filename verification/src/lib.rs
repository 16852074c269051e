//! Document ingestion, navigation and prompt assembly for a campaign assistant.
pub mod text;
pub mod split;
pub mod error;
pub mod extractor;
pub mod chunker;
pub mod prompts;
pub mod numparse;
pub mod navigation;
pub mod sheet;
pub mod pipeline;
pub mod llm;
pub mod agent;
pub mod store;
pub mod ids;
pub mod story;
pub mod ocr;
pub mod form;
pub mod embed;
pub mod slots;
pub mod requests;
