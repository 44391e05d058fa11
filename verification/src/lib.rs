//! Card proxy planning: parsing card lists, choosing printings, laying out
//! print orders and naming files, with every step checked by Verus.
use vstd::prelude::*;

pub mod assemble;
pub mod card_backs;
pub mod cardlist;
pub mod card_source;
pub mod card_store;
pub mod catalog;
pub mod collection;
pub mod collection_manager;
pub mod commands;
pub mod db_storage;
pub mod decklist;
pub mod error;
pub mod file_naming;
pub mod games;
pub mod image_provider;
pub mod keyed;
pub mod listing;
pub mod manifest;
pub mod models;
pub mod mpc;
pub mod order;
pub mod packs;
pub mod print_prep;
pub mod queries;
pub mod query;
pub mod seqs;
pub mod text;

verus! {

} // verus!
