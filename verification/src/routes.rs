//! The values the HTTP service receives and answers with, and how they are
//! built from scoring results and contract responses.

use crate::chain::ContractResponse;
use crate::client::{checksummed_address, ContractClient};
use crate::entity::Entity;
use crate::model::{CorrelationPair, RiskTier, Rule, ScoringRequest, ScoringResult};
use crate::score_math::tier_number;
use vstd::prelude::*;

verus! {

/// Answer of the health check.
pub struct HealthResponse {
    pub status: String,
    pub contract_address: String,
}

/// The health answer of the service whose contract client is `client`:
/// status `ok` and the contract's checksummed address.
pub fn health_response(client: &ContractClient) -> (r: HealthResponse)
    ensures
        r.status@ == "ok"@,
        r.contract_address@ == checksummed_address(client.address_bytes()),
{
    HealthResponse { status: "ok".to_owned(), contract_address: client.address_hex() }
}

/// Body of a scoring call: the entity, its correlation pairs and the
/// number of passes; the rules come from storage.
pub struct ScoreRequest {
    pub entity: Entity,
    pub correlations: Vec<CorrelationPair>,
    pub iterations: u32,
}

/// The number of passes a scoring call asks for when its body names none.
pub fn default_iterations() -> (r: u32)
    ensures
        r == 10,
{
    10
}

/// One engine's result in a benchmark.
pub struct BenchmarkEntry {
    pub label: String,
    pub score: i64,
    pub tier: i64,
    pub correlation_adjustment: i64,
    pub iterations_run: i64,
    pub duration_us: u128,
    pub gas_used: Option<u64>,
}

/// All engines' results of a benchmark.
pub struct BenchmarkResponse {
    pub benchmarks: Vec<BenchmarkEntry>,
}

/// Answer to storing a rule: the rule's id.
pub struct CreateRuleResponse {
    pub id: i64,
}

/// The scoring request of a call: its body with the stored rules.
pub fn scoring_request(body: ScoreRequest, rules: Vec<Rule>) -> (r: ScoringRequest)
    ensures
        r.entity@ == body.entity@,
        r.rules@ == rules@,
        r.correlations@ == body.correlations@,
        r.iterations == body.iterations,
{
    ScoringRequest {
        entity: body.entity,
        rules,
        correlations: body.correlations,
        iterations: body.iterations,
    }
}

/// A benchmark entry for a contract's answer.
pub fn entry_from_contract(label: &str, resp: ContractResponse, duration: u128) -> (r:
    BenchmarkEntry)
    ensures
        r.label@ == label@,
        r.score == resp.score,
        r.tier == resp.tier,
        r.correlation_adjustment == resp.correlation_adjustment,
        r.iterations_run == resp.iterations_run,
        r.duration_us == duration,
        r.gas_used == Some(resp.gas_used),
{
    BenchmarkEntry {
        label: label.to_owned(),
        score: resp.score,
        tier: resp.tier,
        correlation_adjustment: resp.correlation_adjustment,
        iterations_run: resp.iterations_run,
        duration_us: duration,
        gas_used: Some(resp.gas_used),
    }
}

/// A benchmark entry for an off-chain result: labelled `offchain_rust`,
/// with the tier as its number (0 low to 3 critical) and no gas.
pub fn entry_from_offchain(result: &ScoringResult, duration: u128) -> (r: BenchmarkEntry)
    ensures
        r.label@ == "offchain_rust"@,
        r.score == result.score,
        r.tier == tier_number(result.tier),
        r.correlation_adjustment == result.correlation_adjustment,
        r.iterations_run == result.iterations_run as i64,
        r.duration_us == duration,
        r.gas_used is None,
{
    BenchmarkEntry {
        label: "offchain_rust".to_owned(),
        score: result.score,
        tier: match result.tier {
            RiskTier::Low => 0,
            RiskTier::Medium => 1,
            RiskTier::High => 2,
            RiskTier::Critical => 3,
        },
        correlation_adjustment: result.correlation_adjustment,
        iterations_run: result.iterations_run as i64,
        duration_us: duration,
        gas_used: None,
    }
}

} // verus!
