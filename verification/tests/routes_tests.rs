use risk_scoring::chain::ContractResponse;
use risk_scoring::client::{ContractClient, SolidityContractClient};
use risk_scoring::entity::Entity;
use risk_scoring::model::{Direction, RiskTier, Rule, ScoringResult};
use risk_scoring::routes::{
    default_iterations, entry_from_contract, entry_from_offchain, health_response, scoring_request,
    ScoreRequest,
};
use risk_scoring::storage::{direction_from_label, direction_label};

#[test]
fn contract_entry_copies_response() {
    let resp = ContractResponse {
        score: 544,
        tier: 2,
        correlation_adjustment: 7,
        iterations_run: 5,
        gas_used: 123456,
    };
    let e = entry_from_contract("onchain_stylus", resp, 99);
    assert_eq!(e.label, "onchain_stylus");
    assert_eq!(e.score, 544);
    assert_eq!(e.tier, 2);
    assert_eq!(e.correlation_adjustment, 7);
    assert_eq!(e.iterations_run, 5);
    assert_eq!(e.duration_us, 99);
    assert_eq!(e.gas_used, Some(123456));
}

#[test]
fn offchain_entry_numbers_tier() {
    for (tier, n) in [
        (RiskTier::Low, 0),
        (RiskTier::Medium, 1),
        (RiskTier::High, 2),
        (RiskTier::Critical, 3),
    ] {
        let r = ScoringResult {
            score: 10,
            tier,
            breakdown: vec![],
            correlation_adjustment: -4,
            iterations_run: 10,
        };
        let e = entry_from_offchain(&r, 5);
        assert_eq!(e.label, "offchain_rust");
        assert_eq!(e.tier, n);
        assert_eq!(e.score, 10);
        assert_eq!(e.correlation_adjustment, -4);
        assert_eq!(e.iterations_run, 10);
        assert_eq!(e.duration_us, 5);
        assert_eq!(e.gas_used, None);
    }
}

#[test]
fn call_request_gets_stored_rules() {
    let mut e = Entity::new();
    e.insert("a".to_string(), 3);
    let body = ScoreRequest { entity: e, correlations: vec![], iterations: default_iterations() };
    let rules = vec![Rule {
        factor_name: "a".to_string(),
        weight: 1,
        threshold: 0,
        direction: Direction::Above,
        penalty_or_bonus: 5,
    }];
    let req = scoring_request(body, rules);
    assert_eq!(req.rules.len(), 1);
    assert_eq!(req.iterations, 10);
    assert_eq!(req.entity.get(&"a".to_string()), Some(3));
}

#[test]
fn direction_labels_round_trip() {
    assert_eq!(direction_label(Direction::Above), "above");
    assert_eq!(direction_label(Direction::Below), "below");
    assert_eq!(direction_from_label(&direction_label(Direction::Above)), Direction::Above);
    assert_eq!(direction_from_label(&direction_label(Direction::Below)), Direction::Below);
    assert_eq!(direction_from_label(&"sideways".to_string()), Direction::Below);
}

#[test]
fn client_parses_address() {
    let c = ContractClient::try_new("0x00000000000000000000000000000000000000ff", "http://localhost:8547")
        .unwrap();
    let mut want = [0u8; 20];
    want[19] = 0xff;
    assert_eq!(c.address(), want);
    assert_eq!(c.rpc_url(), "http://localhost:8547");
    let n = ContractClient::new("0x0000000000000000000000000000000000000000", "u");
    assert_eq!(n.address(), [0u8; 20]);
}

#[test]
fn client_refuses_bad_address() {
    assert!(ContractClient::try_new("not an address", "u").is_none());
    assert!(SolidityContractClient::try_new("0x1234", "u").is_none());
    let s = SolidityContractClient::try_new("0x1111111111111111111111111111111111111111", "v").unwrap();
    assert_eq!(s.address(), [0x11u8; 20]);
    assert_eq!(s.rpc_url(), "v");
}

#[test]
fn client_parses_upper_prefix_and_mixed_case() {
    let c = ContractClient::try_new("0XAbCdEf0000000000000000000000000000000001", "u").unwrap();
    let mut want = [0u8; 20];
    want[0] = 0xab;
    want[1] = 0xcd;
    want[2] = 0xef;
    want[19] = 0x01;
    assert_eq!(c.address(), want);
}

#[test]
fn health_reports_checksummed_address() {
    let zero = ContractClient::new("0x0000000000000000000000000000000000000000", "u");
    let h = health_response(&zero);
    assert_eq!(h.status, "ok");
    assert_eq!(h.contract_address, "0x0000000000000000000000000000000000000000");
    let ones = ContractClient::new("0x1111111111111111111111111111111111111111", "u");
    let h = health_response(&ones);
    assert_eq!(h.contract_address, "0x1111111111111111111111111111111111111111");
}
