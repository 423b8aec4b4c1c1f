//! Functions, classes, imports and calls in source files of several languages.
//!
//! A path is planned and its text prepared (`pipeline`), by language (`language`,
//! `vue`); the text is parsed with a grammar (`grammar`, `engine`) into a tree of
//! plain values (`tree`) with the matches of the queries in it (`query`); from
//! these the entities are read (`functions`, `classes`, `imports`, `calls`) and
//! put together into a result (`parse`, `report`).
pub mod calls;
pub mod classes;
pub mod engine;
pub mod functions;
pub mod grammar;
pub mod imports;
pub mod language;
pub mod parse;
pub mod pipeline;
pub mod query;
pub mod report;
pub mod text;
pub mod tree;
pub mod vue;
