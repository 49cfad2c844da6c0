//! Keeps the per-language name tables of boss-encounter scripts in step with
//! the numeric identifiers that the scripts hold.
//!
//! A script names its enemies twice: once by identifier with a comment, once by
//! variable with a text. [`extract`] reads both tables out of a script and joins
//! them by that shared text. For each language, [`localizer`] plans which names
//! still lack a translation, [`fetch`] turns the page of the reference site for
//! an identifier into a translation, and [`merge`] puts the translations into
//! the text of the language's file without touching anything else in it.
//! [`commit`] orders the steps that put a new text in the place of a file, and
//! [`progress`] counts the outcomes of the lookups.
//!
//! This library reads and writes no file and makes no request: it works on
//! texts and tables, and leaves it to its caller to fetch and to store them.
//!
//! Texts are matched against patterns with the `regex` and `onig` crates and
//! tables are `indexmap::IndexMap` values. The few functions that call into
//! those crates stand in [`pattern`], [`table`] and [`fetch`]; their contracts
//! are taken on trust, everything else is proved.

pub mod commit;
pub mod extract;
pub mod fetch;
pub mod input;
pub mod localizer;
pub mod merge;
pub mod merge_laws;
pub mod merge_stable;
pub mod number;
pub mod pattern;
pub mod progress;
pub mod report;
pub mod table;
pub mod text;

pub use localizer::{LanguageData, Localizer};
