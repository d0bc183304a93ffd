//! Scoring requests and results.

use crate::entity::Entity;
use vstd::prelude::*;

verus! {

/// Which side of its threshold a factor value must lie on for a rule to apply.
#[derive(Debug, Clone, Copy, PartialEq, Eq, Structural)]
pub enum Direction {
    Above,
    Below,
}

/// A scoring rule on one named factor.
#[derive(Debug, Clone)]
pub struct Rule {
    pub factor_name: String,
    pub weight: i64,
    pub threshold: i64,
    pub direction: Direction,
    pub penalty_or_bonus: i64,
}

/// A weighted interaction between two named factors.
#[derive(Debug, Clone)]
pub struct CorrelationPair {
    pub factor_a: String,
    pub factor_b: String,
    pub weight: i64,
}

/// Everything one scoring run needs.
pub struct ScoringRequest {
    pub entity: Entity,
    pub rules: Vec<Rule>,
    pub correlations: Vec<CorrelationPair>,
    pub iterations: u32,
}

/// The number of convergence passes a request asks for when it names none.
pub fn default_iterations() -> (r: u32)
    ensures
        r == 10,
{
    10
}

/// Coarse classification of a score in 0..=1000.
#[derive(Debug, Clone, Copy, PartialEq, Eq, Structural)]
pub enum RiskTier {
    Low,
    Medium,
    High,
    Critical,
}

/// What one rule did in the last pass.
#[derive(Debug, Clone)]
pub struct FactorResult {
    pub factor_name: String,
    pub value: Option<i64>,
    pub rule_applied: bool,
    pub contribution: i64,
    pub skipped: bool,
}

/// The outcome of a scoring run.
pub struct ScoringResult {
    pub score: i64,
    pub tier: RiskTier,
    pub breakdown: Vec<FactorResult>,
    pub correlation_adjustment: i64,
    pub iterations_run: u32,
}

/// A scoring result as plain values.
pub struct ScoringOutcome {
    pub score: i64,
    pub tier: RiskTier,
    pub breakdown: Seq<FactorResult>,
    pub correlation_adjustment: i64,
    pub iterations_run: u32,
}

impl View for ScoringResult {
    type V = ScoringOutcome;

    open spec fn view(&self) -> ScoringOutcome {
        ScoringOutcome {
            score: self.score,
            tier: self.tier,
            breakdown: self.breakdown@,
            correlation_adjustment: self.correlation_adjustment,
            iterations_run: self.iterations_run,
        }
    }
}

} // verus!
