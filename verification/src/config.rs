//! The settings of the tool.

use vstd::prelude::*;

verus! {

/// The settings: how to reach the Notion database, and where the notes lie.
#[derive(Debug, PartialEq)]
pub struct Config {
    pub notion_token: String,
    pub notion_database_id: String,
    pub notion_version: String,
    pub vault_path: String,
    /// Subfolder inside the vault to scan; the whole vault where absent.
    pub vault_subfolder: Option<String>,
}

} // verus!
