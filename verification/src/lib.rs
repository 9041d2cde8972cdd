//! hecate: a bookmark tree shared by several browsers, with one hidden,
//! encrypted vault.

pub mod error;
pub mod node;
pub mod table;
pub mod text;

pub mod json;
pub mod page;

pub mod changes;
pub mod like;
pub mod load;
pub mod ops;
pub mod reads;
pub mod rows;
pub mod walk;

pub mod migrate;
pub mod store;

pub mod laws;
pub mod order;

pub mod cipher;
pub mod codec;
pub mod kdf;
pub mod vault;
pub mod vault_laws;

pub mod cli;
pub mod nm;
pub mod run;
pub mod serve;

pub mod change_laws;
pub mod command_laws;
pub mod json_laws;
pub mod kdf_laws;
pub mod migrate_laws;
pub mod search_laws;
pub mod tree_laws;
pub mod vault_request_laws;
pub mod wire_laws;
pub mod word_laws;
