//! What the database keeps: learned strategies and probe results.

use vstd::prelude::*;
use crate::technique::TechniqueConfig;

verus! {

/// A strategy as stored.
#[derive(Debug, Clone)]
pub struct StrategyRecord {
    pub id: i64,
    pub name: String,
    pub techniques: Vec<TechniqueConfig>,
}

/// A probe result as stored.
#[derive(Debug, Clone)]
pub struct TestResultRecord {
    pub id: i64,
    pub domain: String,
    pub strategy_id: Option<i64>,
    pub technique: Option<String>,
    pub success: bool,
    pub latency_ms: Option<i64>,
    pub error_msg: Option<String>,
    /// When the probe ran, as the database writes times
    /// (`YYYY-MM-DD HH:MM:SS`).
    pub tested_at: String,
}

} // verus!
