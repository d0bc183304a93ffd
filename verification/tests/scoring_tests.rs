use risk_scoring::engine::ScoringEngine;
use risk_scoring::entity::Entity;
use risk_scoring::chain::prepare_call_data;
use risk_scoring::model::{
    default_iterations, CorrelationPair, Direction, RiskTier, Rule, ScoringRequest,
};
use risk_scoring::scoring::{evaluate, evaluate_checked};

fn entity(pairs: &[(&str, i64)]) -> Entity {
    let mut e = Entity::new();
    for (k, v) in pairs {
        e.insert(k.to_string(), *v);
    }
    e
}

fn rule(name: &str, weight: i64, threshold: i64, direction: Direction, bonus: i64) -> Rule {
    Rule {
        factor_name: name.to_string(),
        weight,
        threshold,
        direction,
        penalty_or_bonus: bonus,
    }
}

fn pair(a: &str, b: &str, weight: i64) -> CorrelationPair {
    CorrelationPair { factor_a: a.to_string(), factor_b: b.to_string(), weight }
}

fn credit_request(iterations: u32) -> ScoringRequest {
    ScoringRequest {
        entity: entity(&[("credit_score", 720), ("debt_ratio", 45), ("late_payments", 2)]),
        rules: vec![
            rule("credit_score", 3, 650, Direction::Above, 80),
            rule("debt_ratio", 2, 40, Direction::Below, 60),
            rule("late_payments", 1, 1, Direction::Above, -30),
            rule("income", 5, 1000, Direction::Above, 10),
        ],
        correlations: vec![pair("credit_score", "debt_ratio", 5), pair("credit_score", "missing", 3)],
        iterations,
    }
}

#[test]
fn single_rule_single_pass() {
    let req = ScoringRequest {
        entity: entity(&[("credit", 700)]),
        rules: vec![rule("credit", 2, 600, Direction::Above, 50)],
        correlations: vec![],
        iterations: 1,
    };
    let r = evaluate(&req);
    assert_eq!(r.score, 500);
    assert_eq!(r.tier, RiskTier::Medium);
    assert_eq!(r.iterations_run, 1);
    assert_eq!(r.correlation_adjustment, 0);
    assert_eq!(r.breakdown.len(), 1);
    assert_eq!(r.breakdown[0].factor_name, "credit");
    assert_eq!(r.breakdown[0].value, Some(700));
    assert!(r.breakdown[0].rule_applied);
    assert_eq!(r.breakdown[0].contribution, 100);
    assert!(!r.breakdown[0].skipped);
}

#[test]
fn single_rule_default_passes_feed_back_bias() {
    let req = ScoringRequest {
        entity: entity(&[("credit", 700)]),
        rules: vec![rule("credit", 2, 600, Direction::Above, 50)],
        correlations: vec![],
        iterations: 0,
    };
    let r = evaluate(&req);
    assert_eq!(r.score, 526);
    assert_eq!(r.tier, RiskTier::High);
    assert_eq!(r.iterations_run, 10);
    assert_eq!(r.breakdown[0].contribution, 105);
}

#[test]
fn credit_scenario_breakdown() {
    let r = evaluate(&credit_request(0));
    assert_eq!(r.score, 362);
    assert_eq!(r.tier, RiskTier::Medium);
    assert_eq!(r.correlation_adjustment, 0);
    assert_eq!(r.iterations_run, 10);
    assert_eq!(r.breakdown.len(), 4);
    assert_eq!(r.breakdown[0].contribution, 245);
    assert!(r.breakdown[0].rule_applied);
    assert_eq!(r.breakdown[1].value, Some(45));
    assert!(!r.breakdown[1].rule_applied);
    assert_eq!(r.breakdown[1].contribution, 0);
    assert_eq!(r.breakdown[2].contribution, -29);
    assert_eq!(r.breakdown[3].factor_name, "income");
    assert!(r.breakdown[3].skipped);
    assert_eq!(r.breakdown[3].value, None);
    assert!(!r.breakdown[3].rule_applied);
    assert_eq!(r.breakdown[3].contribution, 0);
}

#[test]
fn credit_scenario_one_pass() {
    let r = evaluate(&credit_request(1));
    assert_eq!(r.score, 349);
    assert_eq!(r.breakdown[0].contribution, 240);
    assert_eq!(r.breakdown[2].contribution, -30);
}

#[test]
fn correlation_adjusts_score() {
    let req = ScoringRequest {
        entity: entity(&[("income", 60000), ("savings", 30000), ("age", 41)]),
        rules: vec![
            rule("income", 4, 50000, Direction::Above, 70),
            rule("savings", 2, 20000, Direction::Above, 40),
            rule("age", 1, 25, Direction::Below, 90),
        ],
        correlations: vec![pair("income", "savings", 20), pair("age", "unknown", 7)],
        iterations: 5,
    };
    let r = evaluate(&req);
    assert_eq!(r.score, 544);
    assert_eq!(r.tier, RiskTier::High);
    assert_eq!(r.correlation_adjustment, 7);
    assert_eq!(r.iterations_run, 5);
    assert_eq!(r.breakdown[0].contribution, 290);
    assert_eq!(r.breakdown[1].contribution, 85);
    assert!(!r.breakdown[2].rule_applied);
}

#[test]
fn correlation_only() {
    let req = ScoringRequest {
        entity: entity(&[("a", 100000), ("b", 100000)]),
        rules: vec![],
        correlations: vec![pair("a", "b", 1)],
        iterations: 3,
    };
    let r = evaluate(&req);
    assert_eq!(r.score, 2);
    assert_eq!(r.tier, RiskTier::Low);
    assert_eq!(r.correlation_adjustment, 2);
    assert!(r.breakdown.is_empty());
}

#[test]
fn empty_request_scores_zero() {
    let req = ScoringRequest {
        entity: Entity::new(),
        rules: vec![],
        correlations: vec![],
        iterations: default_iterations(),
    };
    let r = evaluate(&req);
    assert_eq!(r.score, 0);
    assert_eq!(r.tier, RiskTier::Low);
    assert_eq!(r.iterations_run, 10);
}

#[test]
fn score_clamped_at_thousand() {
    let req = ScoringRequest {
        entity: entity(&[("x", 50)]),
        rules: vec![rule("x", 1, 10, Direction::Above, 100)],
        correlations: vec![],
        iterations: 0,
    };
    let r = evaluate(&req);
    assert_eq!(r.score, 1000);
    assert_eq!(r.tier, RiskTier::Critical);
}

#[test]
fn negative_weight_leaves_score_zero() {
    let req = ScoringRequest {
        entity: entity(&[("v", 5)]),
        rules: vec![rule("v", -3, 0, Direction::Above, 20)],
        correlations: vec![],
        iterations: 1,
    };
    let r = evaluate(&req);
    assert_eq!(r.score, 0);
    assert_eq!(r.breakdown[0].contribution, -60);
}

#[test]
fn overflowing_weight_is_refused() {
    let req = ScoringRequest {
        entity: entity(&[("a", 1)]),
        rules: vec![rule("a", 1 << 40, 0, Direction::Above, 1)],
        correlations: vec![],
        iterations: 1,
    };
    assert!(evaluate_checked(&req).is_none());
    // the weight is converted even when the factor is absent
    let req2 = ScoringRequest {
        entity: entity(&[("a", 1)]),
        rules: vec![rule("missing", 1 << 40, 0, Direction::Above, 1)],
        correlations: vec![],
        iterations: 1,
    };
    assert!(evaluate_checked(&req2).is_none());
}

#[test]
fn overflowing_correlation_is_refused() {
    let req = ScoringRequest {
        entity: entity(&[("big", 2_000_000_000)]),
        rules: vec![],
        correlations: vec![pair("big", "big", 1000)],
        iterations: 1,
    };
    assert!(evaluate_checked(&req).is_none());
}

#[test]
fn evaluate_checked_agrees_with_evaluate() {
    let req = credit_request(4);
    let a = evaluate_checked(&req).unwrap();
    let b = evaluate(&req);
    assert_eq!(a.score, b.score);
    assert_eq!(a.tier, b.tier);
    assert_eq!(a.correlation_adjustment, b.correlation_adjustment);
}

#[test]
fn offchain_and_contract_agree() {
    for req in [credit_request(0), credit_request(2)] {
        let off = evaluate(&req);
        let (f, w, t, d, b, ca, cb, cw, it) = prepare_call_data(&req);
        let on = ScoringEngine {}.evaluate(f, w, t, d, b, ca, cb, cw, it);
        let tier = match off.tier {
            RiskTier::Low => 0,
            RiskTier::Medium => 1,
            RiskTier::High => 2,
            RiskTier::Critical => 3,
        };
        assert_eq!(on, vec![off.score, tier, off.correlation_adjustment, off.iterations_run as i64]);
    }
}

fn credit_rules(scale: i64) -> Vec<Rule> {
    vec![
        rule("credit_score", 3 * scale, 650, Direction::Above, 80),
        rule("debt_ratio", 2 * scale, 40, Direction::Below, 60),
        rule("late_payments", scale, 1, Direction::Above, -30),
    ]
}

fn credit_entity() -> Entity {
    entity(&[("credit_score", 720), ("debt_ratio", 45), ("late_payments", 2)])
}

#[test]
fn absent_rule_appends_skipped_entry() {
    let base = ScoringRequest {
        entity: credit_entity(),
        rules: credit_rules(1),
        correlations: vec![pair("credit_score", "debt_ratio", 5)],
        iterations: 0,
    };
    let mut more_rules = credit_rules(1);
    more_rules.push(rule("income", 5, 1000, Direction::Above, 10));
    let more = ScoringRequest {
        entity: credit_entity(),
        rules: more_rules,
        correlations: vec![pair("credit_score", "debt_ratio", 5)],
        iterations: 0,
    };
    let r = evaluate(&base);
    let m = evaluate(&more);
    assert_eq!(m.score, r.score);
    assert_eq!(m.tier, r.tier);
    assert_eq!(m.correlation_adjustment, r.correlation_adjustment);
    assert_eq!(m.breakdown.len(), r.breakdown.len() + 1);
    for i in 0..r.breakdown.len() {
        assert_eq!(m.breakdown[i].contribution, r.breakdown[i].contribution);
        assert_eq!(m.breakdown[i].rule_applied, r.breakdown[i].rule_applied);
    }
    let last = &m.breakdown[r.breakdown.len()];
    assert_eq!(last.factor_name, "income");
    assert_eq!(last.value, None);
    assert!(!last.rule_applied);
    assert_eq!(last.contribution, 0);
    assert!(last.skipped);
}

#[test]
fn zero_pair_changes_nothing() {
    let mk = |pairs: Vec<CorrelationPair>| ScoringRequest {
        entity: entity(&[("a", 41), ("b", 60000), ("zero", 0)]),
        rules: vec![rule("a", 1, 25, Direction::Below, 90)],
        correlations: pairs,
        iterations: 3,
    };
    let r = evaluate(&mk(vec![pair("a", "b", 20)]));
    for extra in [pair("a", "zero", 50), pair("b", "missing", 50), pair("a", "b", 0)] {
        let m = evaluate(&mk(vec![pair("a", "b", 20), extra]));
        assert_eq!(m.score, r.score);
        assert_eq!(m.tier, r.tier);
        assert_eq!(m.correlation_adjustment, r.correlation_adjustment);
        assert_eq!(m.breakdown.len(), r.breakdown.len());
    }
}

#[test]
fn scaled_weights_keep_score_and_applied_rules() {
    let base = ScoringRequest {
        entity: credit_entity(),
        rules: credit_rules(1),
        correlations: vec![],
        iterations: 0,
    };
    let r = evaluate(&base);
    for c in [2, 7, 1000] {
        let scaled = ScoringRequest {
            entity: credit_entity(),
            rules: credit_rules(c),
            correlations: vec![],
            iterations: 0,
        };
        let s = evaluate(&scaled);
        assert_eq!(s.score, r.score);
        assert_eq!(s.tier, r.tier);
        assert_eq!(s.iterations_run, r.iterations_run);
        assert_eq!(s.breakdown.len(), r.breakdown.len());
        for i in 0..r.breakdown.len() {
            assert_eq!(s.breakdown[i].rule_applied, r.breakdown[i].rule_applied);
            assert_eq!(s.breakdown[i].value, r.breakdown[i].value);
        }
    }
}

#[test]
fn summing_order_decides_overflow() {
    // off-chain the rules are summed in request order (a, c, b), where the
    // partial sums stay in range; the contract sums in factor order
    // (a, b, c), where the second partial sum overflows
    let big = 1i64 << 19;
    let req = ScoringRequest {
        entity: entity(&[("a", 1), ("b", 1), ("c", 1)]),
        rules: vec![
            rule("a", big, 0, Direction::Above, big),
            rule("c", big, 0, Direction::Above, -big),
            rule("b", big, 0, Direction::Above, big),
        ],
        correlations: vec![],
        iterations: 1,
    };
    let off = evaluate_checked(&req).unwrap();
    assert_eq!(off.score, 1000);
    let (f, w, t, d, b, ca, cb, cw, it) = prepare_call_data(&req);
    assert_eq!(ScoringEngine {}.evaluate_checked(f, w, t, d, b, ca, cb, cw, it), None);
}
