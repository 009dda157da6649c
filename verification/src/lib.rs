//! Verified core of the coding-agent configuration manager.
pub mod error;
pub mod json;
pub mod text;
pub mod version;
pub mod omp_config;
pub mod yaml_section;
pub mod omp_ops;
pub mod omp_laws;
pub mod strops;
pub mod omp_adapter;
pub mod kimi_config;
pub mod kimi_laws;
pub mod mcp_kimi;
pub mod pi_config;
pub mod pi_jsonc;
pub mod pi_laws;
pub mod session_usage;
pub mod session_text;
pub mod kimi_sessions;
pub mod pi_sessions;
pub mod usage_laws;
pub mod omp_role_laws;
pub mod toml_sync;
pub mod jsonc_doc;
pub mod toml_doc;
pub mod omp_select_laws;
pub mod usage_event_laws;
