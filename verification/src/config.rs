//! The configuration that every component is handed.

use vstd::prelude::*;

verus! {

/// The settings of the service: where the tracker is, who calls it, and what
/// it creates. They are loaded once and never change.
#[derive(Debug, Clone, PartialEq, Eq)]
pub struct AppConfig {
    pub base_url: String,
    pub api_token: String,
    pub email: String,
    pub story_points_custom_field_id: String,
    pub project_key: String,
    pub issue_type_id: String,
}

} // verus!
