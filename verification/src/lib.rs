//! Verified core of the dowse local full-text search tool: the query-string
//! operator parser, the USN journal record decoder and rename-pairing
//! translator, index-root bookkeeping, the OCR work queue, and the small state
//! machines that the desktop shell drives.

pub mod text;
pub mod query;
pub mod frn_table;
pub mod usn_translate;
pub mod window_fx;
pub mod config;
pub mod i18n;
pub mod indexing_status;
pub mod rebuild;
pub mod state;
pub mod tray;
pub mod strmap;
pub mod paths;
pub mod meta;
pub mod ocr_queue;
pub mod highlight;
pub mod mcp;
pub mod logging;
pub mod commands;
pub mod indexer;
pub mod usn;
pub mod ocr_worker;
pub mod extract;
pub mod xml_text;
pub mod office;
pub mod window_drag;
pub mod root_ops;
