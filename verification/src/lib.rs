//! Provider, model and MCP settings of the Kimi Code command line.
//!
//! The settings are two files: `config.toml`, with the providers, the models that they serve
//! and the default model, and `mcp.json`, with the MCP servers. Every operation takes the text
//! of a file, or `None` where there is no such file, and gives back what was read, or the
//! write that is to be made.

pub mod changes;
pub mod choice_promises;
pub mod document_promises;
pub mod editing;
pub mod error;
pub mod file_promises;
pub mod filters;
pub mod json;
pub mod laws;
pub mod listing;
pub mod listing_promises;
pub mod mcp;
pub mod mcp_promises;
pub mod paths;
pub mod prepare_promises;
pub mod promises;
pub mod round_trips;
pub mod saving;
pub mod text;
pub mod text_promises;
pub mod toml_access;
pub mod toml_doc;

pub use crate::editing::{prepare_provider, remove_provider, set_current_provider, set_default_model};
pub use crate::error::AppError;
pub use crate::listing::{get_current_provider_id, get_provider, get_providers, read_kimi_config_json};
pub use crate::mcp::{read_kimi_mcp_servers_map, remove_server_from_kimi, set_kimi_mcp_servers_map};
pub use crate::mcp::{sync_single_server_to_kimi, ServerMap};
pub use crate::paths::{get_kimi_agents_md_path, get_kimi_config_dir, get_kimi_config_path};
pub use crate::paths::{get_kimi_mcp_path, get_kimi_skills_dir};
pub use crate::paths::{DEFAULT_KIMI_CONFIG_DIR, KIMI_CONFIG_FILE, KIMI_HOME_ENV};
pub use crate::saving::{write_kimi_config_source, write_prepared_config, FileWrite};
