//! The bodies of the engine's requests and replies.

use vstd::prelude::*;

verus! {

/// The reply to a health check.
#[derive(Debug)]
pub struct HealthResponse {
    pub status: String,
    pub version: Option<String>,
}

/// The reply that says whether the engine still needs its first setup.
#[derive(Debug)]
pub struct SetupStatusResponse {
    pub needs_setup: bool,
    pub configured_providers: Vec<String>,
    pub has_api_key: Option<bool>,
}

/// The reply to the completion of the setup.
#[derive(Debug)]
pub struct SetupCompleteResponse {
    pub status: String,
}

/// Names the provider that the engine uses by default.
#[derive(Debug)]
pub struct ConfigLlmDefaultRequest {
    pub provider: String,
}

/// General settings of the engine; a field left out stays as it is.
#[derive(Debug)]
pub struct ConfigEngineRequest {
    pub data_dir: Option<String>,
    pub log_level: Option<String>,
    pub max_history: Option<u32>,
}

/// The intervals of the engine's background work, in minutes.
#[derive(Debug)]
pub struct ConfigBackgroundRequest {
    pub synthesis_interval_minutes: Option<u32>,
    pub consolidation_interval_minutes: Option<u32>,
    pub bm25_rebuild_interval_minutes: Option<u32>,
    pub drip_research_interval_minutes: Option<u32>,
}

/// Safety settings of the engine.
#[derive(Debug)]
pub struct ConfigSafetyRequest {
    pub honesty_section: Option<bool>,
    pub user_data_deletion: Option<bool>,
}

/// Research settings of the engine.
#[derive(Debug)]
pub struct ConfigResearchRequest {
    pub initial_scrape_on_boot: Option<bool>,
    pub periodic_interval_hours: Option<u32>,
}

} // verus!
