pub mod config;
pub mod definitions;
pub mod discovery;
pub mod docstore;
pub mod docsync;
pub mod files;
pub mod findrefs;
pub mod folds;
pub mod linemap;
pub mod lookups;
pub mod lsp;
pub mod progress;
pub mod protocol;
pub mod references;
pub mod request;
pub mod response;
pub mod semantic;
pub mod startup;
pub mod tasks;
pub mod text;
pub mod textdoc;
pub mod transport;
pub mod xrefs;
