use risk_scoring::chain::{parse_result, prepare_call_data};
use risk_scoring::engine::ScoringEngine;
use risk_scoring::entity::Entity;
use risk_scoring::model::{CorrelationPair, Direction, Rule, ScoringRequest};

fn rule(name: &str, weight: i64, threshold: i64, direction: Direction, bonus: i64) -> Rule {
    Rule {
        factor_name: name.to_string(),
        weight,
        threshold,
        direction,
        penalty_or_bonus: bonus,
    }
}

#[test]
fn contract_on_parallel_arrays() {
    let out = ScoringEngine {}.evaluate(
        vec![720, 45, 2],
        vec![3, 2, 1],
        vec![650, 40, 1],
        vec![1, 0, 1],
        vec![80, 60, -30],
        vec![0],
        vec![1],
        vec![5],
        0,
    );
    assert_eq!(out, vec![362, 1, 0, 10]);
}

#[test]
fn contract_with_correlation() {
    let out = ScoringEngine {}.evaluate(
        vec![41, 60000, 30000],
        vec![1, 4, 2],
        vec![25, 50000, 20000],
        vec![0, 1, 1],
        vec![90, 70, 40],
        vec![1],
        vec![2],
        vec![20],
        5,
    );
    assert_eq!(out, vec![544, 2, 7, 5]);
}

#[test]
fn contract_skips_rules_and_pairs_without_factors() {
    // the second rule and the pair name positions with no factor
    let out = ScoringEngine {}.evaluate(
        vec![700],
        vec![2, 9],
        vec![600],
        vec![1],
        vec![50],
        vec![0, 3],
        vec![5, 0],
        vec![],
        1,
    );
    assert_eq!(out, vec![500, 1, 0, 1]);
}

#[test]
fn contract_overflow_is_none() {
    let out = ScoringEngine {}.evaluate_checked(
        vec![1],
        vec![1 << 40],
        vec![0],
        vec![1],
        vec![1],
        vec![],
        vec![],
        vec![],
        1,
    );
    assert_eq!(out, None);
}

#[test]
fn prepare_orders_by_factor_name_and_pads() {
    let mut e = Entity::new();
    e.insert("late_payments".to_string(), 2);
    e.insert("credit_score".to_string(), 720);
    e.insert("debt_ratio".to_string(), 45);
    let req = ScoringRequest {
        entity: e,
        rules: vec![
            rule("debt_ratio", 2, 40, Direction::Below, 60),
            rule("income", 5, 1000, Direction::Above, 10),
            rule("debt_ratio", 7, 30, Direction::Above, 11),
        ],
        correlations: vec![
            CorrelationPair {
                factor_a: "late_payments".to_string(),
                factor_b: "credit_score".to_string(),
                weight: 4,
            },
            CorrelationPair {
                factor_a: "credit_score".to_string(),
                factor_b: "nothing".to_string(),
                weight: 9,
            },
        ],
        iterations: 0,
    };
    let (f, w, t, d, b, ca, cb, cw, it) = prepare_call_data(&req);
    assert_eq!(f, vec![720, 45, 2]);
    // the last rule for debt_ratio wins; other positions get defaults
    assert_eq!(w, vec![0, 7, 0]);
    assert_eq!(t, vec![0, 30, 0]);
    assert_eq!(d, vec![1, 1, 1]);
    assert_eq!(b, vec![0, 11, 0]);
    assert_eq!(ca, vec![2]);
    assert_eq!(cb, vec![0]);
    assert_eq!(cw, vec![4]);
    assert_eq!(it, 10);
}

#[test]
fn prepare_below_direction_code() {
    let mut e = Entity::new();
    e.insert("x".to_string(), 1);
    let req = ScoringRequest {
        entity: e,
        rules: vec![rule("x", 1, 2, Direction::Below, 3)],
        correlations: vec![],
        iterations: 7,
    };
    let (f, w, t, d, b, ca, _cb, _cw, it) = prepare_call_data(&req);
    assert_eq!(f, vec![1]);
    assert_eq!(w, vec![1]);
    assert_eq!(t, vec![2]);
    assert_eq!(d, vec![0]);
    assert_eq!(b, vec![3]);
    assert!(ca.is_empty());
    assert_eq!(it, 7);
}

#[test]
fn parse_full_answer() {
    let r = parse_result(vec![544, 2, 7, 5], 21000);
    assert_eq!(r.score, 544);
    assert_eq!(r.tier, 2);
    assert_eq!(r.correlation_adjustment, 7);
    assert_eq!(r.iterations_run, 5);
    assert_eq!(r.gas_used, 21000);
}

#[test]
fn parse_short_answer_defaults_to_zero() {
    let r = parse_result(vec![12], 1);
    assert_eq!(r.score, 12);
    assert_eq!(r.tier, 0);
    assert_eq!(r.correlation_adjustment, 0);
    assert_eq!(r.iterations_run, 0);
    let r = parse_result(vec![], 0);
    assert_eq!(r.score, 0);
}

#[test]
fn reading_the_contract_answer_gives_its_fields() {
    let out = ScoringEngine {}.evaluate(
        vec![41, 60000, 30000],
        vec![1, 4, 2],
        vec![25, 50000, 20000],
        vec![0, 1, 1],
        vec![90, 70, 40],
        vec![1],
        vec![2],
        vec![20],
        5,
    );
    let r = parse_result(out, 777);
    assert_eq!(r.score, 544);
    assert_eq!(r.tier, 2);
    assert_eq!(r.correlation_adjustment, 7);
    assert_eq!(r.iterations_run, 5);
    assert_eq!(r.gas_used, 777);
}

#[test]
fn bonus_needed_only_where_rule_applies() {
    // the only rule does not apply (50 is not below 40), so no bonus is read
    let out = ScoringEngine {}.evaluate(
        vec![50],
        vec![1],
        vec![40],
        vec![0],
        vec![],
        vec![],
        vec![],
        vec![],
        1,
    );
    assert_eq!(out, vec![0, 0, 0, 1]);
}

#[test]
fn out_of_range_pair_is_passed_over() {
    let base = ScoringEngine {}.evaluate(
        vec![41, 60000, 30000],
        vec![1, 4, 2],
        vec![25, 50000, 20000],
        vec![0, 1, 1],
        vec![90, 70, 40],
        vec![1],
        vec![2],
        vec![20],
        5,
    );
    let more = ScoringEngine {}.evaluate(
        vec![41, 60000, 30000],
        vec![1, 4, 2],
        vec![25, 50000, 20000],
        vec![0, 1, 1],
        vec![90, 70, 40],
        vec![1, 3],
        vec![2, 0],
        vec![20, 99],
        5,
    );
    assert_eq!(more, base);
}

#[test]
fn rule_slots_past_factors_are_ignored() {
    let base = ScoringEngine {}.evaluate(
        vec![720, 45],
        vec![3, 2],
        vec![650, 40],
        vec![1, 0],
        vec![80, 60],
        vec![],
        vec![],
        vec![],
        2,
    );
    let more = ScoringEngine {}.evaluate(
        vec![720, 45],
        vec![3, 2, 9, 4],
        vec![650, 40, 1, 1],
        vec![1, 0, 1, 1],
        vec![80, 60, 100, 100],
        vec![],
        vec![],
        vec![],
        2,
    );
    assert_eq!(more, base);
}

#[test]
fn absent_rule_leaves_call_data_unchanged() {
    let mk = |rules: Vec<Rule>| {
        let mut e = Entity::new();
        e.insert("credit_score".to_string(), 720);
        e.insert("debt_ratio".to_string(), 45);
        ScoringRequest {
            entity: e,
            rules,
            correlations: vec![CorrelationPair {
                factor_a: "credit_score".to_string(),
                factor_b: "debt_ratio".to_string(),
                weight: 4,
            }],
            iterations: 3,
        }
    };
    let base = prepare_call_data(&mk(vec![
        rule("debt_ratio", 2, 40, Direction::Below, 60),
        rule("credit_score", 3, 650, Direction::Above, 80),
    ]));
    let more = prepare_call_data(&mk(vec![
        rule("debt_ratio", 2, 40, Direction::Below, 60),
        rule("income", 5, 1000, Direction::Above, 10),
        rule("credit_score", 3, 650, Direction::Above, 80),
    ]));
    assert_eq!(more, base);
    assert_eq!(base.1, vec![3, 2]);
}
