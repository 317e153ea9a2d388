//! Verified core of the EWE Wordnet editor: the wordnet data model and the pure
//! logic around it.

pub mod text;
pub mod ids;
pub mod model;
pub mod links;
pub mod members;
pub mod lexicon;
pub mod settings;
pub mod relations;
pub mod theme;
pub mod web;
pub mod subcat;
pub mod editor;
pub mod cli;
pub mod assemble;
pub mod concordance;
pub mod search;
pub mod stats;
