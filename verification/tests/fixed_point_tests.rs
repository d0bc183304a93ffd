use risk_scoring::model::{Direction, RiskTier};
use risk_scoring::score_math::{
    bias_exec, clamp_exec, correlation_term, damped_series, effective_iterations_exec, finish,
    next_score, rule_passes_exec, rule_term, tier_for,
};

const ONE: i64 = 1 << 24;

#[test]
fn rule_term_is_bonus_plus_five_bias_times_weight() {
    // (10 + 0 * 5) * 2 = 20
    assert_eq!(rule_term(10, 0, 2 * ONE), Some(20 * ONE));
    // (50 + 0.5 * 5) * 2 = 105
    assert_eq!(rule_term(50, ONE / 2, 2 * ONE), Some(105 * ONE));
}

#[test]
fn rule_term_overflow_is_none() {
    assert_eq!(rule_term(1 << 40, 0, ONE), None);
    assert_eq!(rule_term(1, 0, i64::MAX), Some(i64::MAX));
    assert_eq!(rule_term(2, 0, i64::MAX), None);
}

#[test]
fn next_score_scales_raw_by_total_weight() {
    // 100 / (2 * 100) * 1000 = 500
    assert_eq!(next_score(0, 100 * ONE, 2 * ONE), Some(500 * ONE));
}

#[test]
fn next_score_keeps_score_without_positive_weight() {
    assert_eq!(next_score(42, 100 * ONE, 0), Some(42));
    assert_eq!(next_score(42, 100 * ONE, -ONE), Some(42));
}

#[test]
fn bias_is_zero_first_then_score_over_thousand() {
    assert_eq!(bias_exec(0, 500 * ONE), Some(0));
    assert_eq!(bias_exec(1, 500 * ONE), Some(ONE / 2));
}

#[test]
fn damped_series_of_one() {
    assert_eq!(damped_series(ONE), Some(342537));
    assert_eq!(damped_series(0), Some(0));
}

#[test]
fn correlation_term_exact_value() {
    assert_eq!(correlation_term(60000, 30000, 20), Some(1233134));
    assert_eq!(correlation_term(0, 30000, 20), Some(0));
}

#[test]
fn correlation_term_overflow_is_none() {
    assert_eq!(correlation_term(2_000_000_000, 2_000_000_000, 1000), None);
    assert_eq!(correlation_term(1 << 40, 1, 1), None);
}

#[test]
fn finish_clamps_and_reports_adjustment() {
    assert_eq!(finish(300 * ONE, 1233134), Some((307, 7)));
    assert_eq!(finish(5000 * ONE, 0), Some((1000, 0)));
    assert_eq!(finish(-5 * ONE, 0), Some((0, 0)));
}

#[test]
fn clamp_limits() {
    assert_eq!(clamp_exec(-3, 0, 1000), 0);
    assert_eq!(clamp_exec(1001, 0, 1000), 1000);
    assert_eq!(clamp_exec(17, 0, 1000), 17);
}

#[test]
fn tier_boundaries() {
    assert_eq!(tier_for(0), RiskTier::Low);
    assert_eq!(tier_for(250), RiskTier::Low);
    assert_eq!(tier_for(251), RiskTier::Medium);
    assert_eq!(tier_for(500), RiskTier::Medium);
    assert_eq!(tier_for(501), RiskTier::High);
    assert_eq!(tier_for(750), RiskTier::High);
    assert_eq!(tier_for(751), RiskTier::Critical);
    assert_eq!(tier_for(1000), RiskTier::Critical);
}

#[test]
fn tier_is_monotone_on_samples() {
    let mut last = 0;
    for s in 0..=1000 {
        let n = match tier_for(s) {
            RiskTier::Low => 0,
            RiskTier::Medium => 1,
            RiskTier::High => 2,
            RiskTier::Critical => 3,
        };
        assert!(n >= last);
        last = n;
    }
}

#[test]
fn zero_iterations_means_ten() {
    assert_eq!(effective_iterations_exec(0), 10);
    assert_eq!(effective_iterations_exec(3), 3);
}

#[test]
fn directions() {
    assert!(rule_passes_exec(Direction::Above, 5, 5));
    assert!(!rule_passes_exec(Direction::Above, 4, 5));
    assert!(rule_passes_exec(Direction::Below, 5, 5));
    assert!(!rule_passes_exec(Direction::Below, 6, 5));
}
