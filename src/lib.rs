//! Reading and rendering of the hierarchical test-run reports that Unity writes.
//!
//! A report is a tree of suites, cases and annotations (`report`). It is read from
//! XML (`parse`) and rendered to styled lines (`render`) that a terminal front end
//! can paint.

pub mod display;
pub mod parse;
pub mod render;
pub mod report;
pub mod runner;
pub mod tree;
pub mod xml;
