//! Detection-rule engine for macOS unified log records: Sigma-style rules are
//! compiled into selection trees and evaluated record by record.
pub mod text;
pub mod record;
pub mod yaml;
pub mod chars;
pub mod matchers;
pub mod selectionnodes;
pub mod condition_parser;
pub mod rulenode;
pub mod detection;
pub mod args;
pub mod laws;
