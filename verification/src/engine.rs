//! The on-chain form of the scoring engine: the request comes as parallel
//! arrays indexed by factor position, and the result as four integers
//! `[score, tier, correlation adjustment, passes]`.

use crate::fixed_point::{fx_add, fx_checked_add, fx_from_i64, fx_from_int};
use crate::score_math::{
    bias_exec, correlation_term, effective_iterations, effective_iterations_exec, finish,
    next_score, rule_term, spec_bias, spec_correlation_term, spec_finish, spec_next_score,
    rule_passes, spec_rule_term, tier_for, tier_number, tier_of,
};
use crate::model::Direction;
use vstd::prelude::*;

verus! {

/// The scoring contract. It keeps no state.
pub struct ScoringEngine {}

/// The arrays of one request: factor values, and per factor position the
/// rule's weight, threshold, direction (1 means above, anything else
/// below) and bonus.
pub struct EngineRules {
    pub factors: Seq<i64>,
    pub weights: Seq<i64>,
    pub thresholds: Seq<i64>,
    pub directions: Seq<i64>,
    pub bonuses: Seq<i64>,
}

/// Whether rule `i` applies: direction 1 asks for a value at or above the
/// threshold, any other direction for a value at or below it.
pub open spec fn engine_passes(r: EngineRules, i: int) -> bool {
    if r.directions[i] == 1 {
        r.factors[i] >= r.thresholds[i]
    } else {
        r.factors[i] <= r.thresholds[i]
    }
}

/// Rule `i` of the contract applies exactly when the shared condition
/// holds for its direction code (1 above, any other code below), its
/// factor value and its threshold, negative values included.
pub proof fn lemma_engine_passes_condition(r: EngineRules, i: int)
    ensures
        engine_passes(r, i) == rule_passes(
            if r.directions[i] == 1 {
                Direction::Above
            } else {
                Direction::Below
            },
            r.factors[i],
            r.thresholds[i],
        ),
{
}

/// The contract runs as many passes as it is asked for, and 10 when asked
/// for none; its answer reports that number.
pub proof fn lemma_engine_reports_passes(
    r: EngineRules,
    corr_a: Seq<u32>,
    corr_b: Seq<u32>,
    corr_weights: Seq<i64>,
    iterations: u32,
)
    requires
        engine_outcome(r, corr_a, corr_b, corr_weights, iterations) is Some,
    ensures
        engine_outcome(r, corr_a, corr_b, corr_weights, iterations)->0.len() == 4,
        iterations != 0 ==> engine_outcome(r, corr_a, corr_b, corr_weights, iterations)->0[3]
            == iterations,
        iterations == 0 ==> engine_outcome(r, corr_a, corr_b, corr_weights, iterations)->0[3]
            == 10,
{
}

/// What rule `i` adds to the (raw score, total weight) of a pass; a rule
/// without a factor at its position is passed over.
pub open spec fn engine_rule_step(r: EngineRules, bias: i64, i: int, st: (i64, i64)) -> Option<
    (i64, i64),
> {
    if i >= r.factors.len() {
        Some(st)
    } else {
        match fx_from_int(r.weights[i] as int) {
            None => None,
            Some(weight) => match fx_add(st.1, weight) {
                None => None,
                Some(total) => if engine_passes(r, i) {
                    match spec_rule_term(r.bonuses[i], bias, weight) {
                        None => None,
                        Some(weighted) => match fx_add(st.0, weighted) {
                            None => None,
                            Some(raw) => Some((raw, total)),
                        },
                    }
                } else {
                    Some((st.0, total))
                },
            },
        }
    }
}

/// A pass over the first `n` rules.
pub open spec fn engine_pass(r: EngineRules, bias: i64, n: nat) -> Option<(i64, i64)>
    decreases n,
{
    if n == 0 {
        Some((0, 0))
    } else {
        match engine_pass(r, bias, (n - 1) as nat) {
            None => None,
            Some(st) => engine_rule_step(r, bias, n - 1, st),
        }
    }
}

/// The score after `k` passes over all rules.
pub open spec fn engine_iterate(r: EngineRules, k: nat) -> Option<i64>
    decreases k,
{
    if k == 0 {
        Some(0)
    } else {
        match engine_iterate(r, (k - 1) as nat) {
            None => None,
            Some(score) => match spec_bias((k - 1) as nat, score) {
                None => None,
                Some(bias) => match engine_pass(r, bias, r.weights.len()) {
                    None => None,
                    Some(st) => spec_next_score(score, st.0, st.1),
                },
            },
        }
    }
}

/// Sum of the terms of the first `n` correlation pairs; a pair naming a
/// position without a factor is passed over.
pub open spec fn engine_correlations(
    factors: Seq<i64>,
    corr_a: Seq<u32>,
    corr_b: Seq<u32>,
    corr_weights: Seq<i64>,
    n: nat,
) -> Option<i64>
    decreases n,
{
    if n == 0 {
        Some(0)
    } else {
        match engine_correlations(factors, corr_a, corr_b, corr_weights, (n - 1) as nat) {
            None => None,
            Some(sum) => {
                let a = corr_a[n - 1] as int;
                let b = corr_b[n - 1] as int;
                if a >= factors.len() || b >= factors.len() {
                    Some(sum)
                } else {
                    match spec_correlation_term(factors[a], factors[b], corr_weights[n - 1]) {
                        None => None,
                        Some(t) => fx_add(sum, t),
                    }
                }
            },
        }
    }
}

/// What the contract answers: `[score, tier number, correlation
/// adjustment, passes]`, or `None` when a fixed-point operation overflows.
pub open spec fn engine_outcome(
    r: EngineRules,
    corr_a: Seq<u32>,
    corr_b: Seq<u32>,
    corr_weights: Seq<i64>,
    iterations: u32,
) -> Option<Seq<i64>> {
    let iters = effective_iterations(iterations);
    match engine_iterate(r, iters as nat) {
        None => None,
        Some(score) => match engine_correlations(
            r.factors,
            corr_a,
            corr_b,
            corr_weights,
            corr_a.len(),
        ) {
            None => None,
            Some(correlation) => match spec_finish(score, correlation) {
                None => None,
                Some(fin) => Some(
                    seq![fin.0, tier_number(tier_of(fin.0 as int)), fin.1, iters as i64],
                ),
            },
        },
    }
}

/// How many rules the contract reads: those that have a factor.
pub open spec fn rules_read(num_rules: nat, num_factors: nat) -> nat {
    if num_rules < num_factors {
        num_rules
    } else {
        num_factors
    }
}

/// Every rule that is read and applies has a bonus (the bonus is read only
/// for a rule that applies).
pub open spec fn bonuses_cover(r: EngineRules) -> bool {
    forall|i: int|
        0 <= i < rules_read(r.weights.len(), r.factors.len()) && #[trigger] engine_passes(r, i)
            ==> i < r.bonuses.len()
}

/// The arrays are long enough for every index the contract reads: each
/// rule that has a factor has a threshold and direction, and a bonus where
/// it applies; each first index has a second index, and each pair of
/// in-range positions has a weight.
pub open spec fn arrays_cover(
    r: EngineRules,
    corr_a: Seq<u32>,
    corr_b: Seq<u32>,
    corr_weights: Seq<i64>,
) -> bool {
    &&& rules_read(r.weights.len(), r.factors.len()) <= r.thresholds.len()
    &&& rules_read(r.weights.len(), r.factors.len()) <= r.directions.len()
    &&& bonuses_cover(r)
    &&& corr_a.len() <= corr_b.len()
    &&& forall|i: int|
        0 <= i < corr_a.len() && (corr_a[i] as int) < r.factors.len() && (corr_b[i] as int)
            < r.factors.len() ==> i < corr_weights.len()
}

proof fn lemma_engine_correlations_prefix(
    factors: Seq<i64>,
    corr_a: Seq<u32>,
    corr_b: Seq<u32>,
    corr_weights: Seq<i64>,
    more_a: Seq<u32>,
    more_b: Seq<u32>,
    more_weights: Seq<i64>,
    k: nat,
)
    requires
        k <= corr_a.len(),
        k <= corr_b.len(),
        k <= corr_weights.len(),
        k <= more_a.len(),
        k <= more_b.len(),
        k <= more_weights.len(),
        forall|i: int|
            0 <= i < k ==> more_a[i] == corr_a[i] && more_b[i] == corr_b[i] && more_weights[i]
                == corr_weights[i],
    ensures
        engine_correlations(factors, more_a, more_b, more_weights, k) == engine_correlations(
            factors,
            corr_a,
            corr_b,
            corr_weights,
            k,
        ),
    decreases k,
{
    if k > 0 {
        lemma_engine_correlations_prefix(
            factors,
            corr_a,
            corr_b,
            corr_weights,
            more_a,
            more_b,
            more_weights,
            (k - 1) as nat,
        );
    }
}

/// A correlation pair naming a position without a factor is passed over:
/// appending it leaves the contract's answer unchanged.
pub proof fn lemma_out_of_range_pair_appended(
    r: EngineRules,
    corr_a: Seq<u32>,
    corr_b: Seq<u32>,
    corr_weights: Seq<i64>,
    x: u32,
    y: u32,
    z: i64,
    iterations: u32,
)
    requires
        corr_a.len() == corr_b.len(),
        corr_b.len() == corr_weights.len(),
        (x as int) >= r.factors.len() || (y as int) >= r.factors.len(),
    ensures
        engine_outcome(r, corr_a.push(x), corr_b.push(y), corr_weights.push(z), iterations)
            == engine_outcome(r, corr_a, corr_b, corr_weights, iterations),
{
    let n = corr_a.len();
    lemma_engine_correlations_prefix(
        r.factors,
        corr_a,
        corr_b,
        corr_weights,
        corr_a.push(x),
        corr_b.push(y),
        corr_weights.push(z),
        n,
    );
    assert(corr_a.push(x)[n as int] == x);
    assert(corr_b.push(y)[n as int] == y);
}

/// The rule arrays cut to the first `n` positions.
pub open spec fn rules_cut(r: EngineRules, n: nat) -> EngineRules {
    EngineRules {
        factors: r.factors,
        weights: r.weights.take(n as int),
        thresholds: r.thresholds.take(n as int),
        directions: r.directions.take(n as int),
        bonuses: r.bonuses.take(n as int),
    }
}

proof fn lemma_engine_pass_cut(r: EngineRules, bias: i64, k: nat)
    requires
        k <= r.factors.len(),
        r.factors.len() <= r.weights.len(),
        r.factors.len() <= r.thresholds.len(),
        r.factors.len() <= r.directions.len(),
        r.factors.len() <= r.bonuses.len(),
    ensures
        engine_pass(rules_cut(r, r.factors.len()), bias, k) == engine_pass(r, bias, k),
    decreases k,
{
    if k > 0 {
        lemma_engine_pass_cut(r, bias, (k - 1) as nat);
        let c = rules_cut(r, r.factors.len());
        let i = k - 1;
        assert(c.weights[i] == r.weights[i]);
        assert(c.thresholds[i] == r.thresholds[i]);
        assert(c.directions[i] == r.directions[i]);
        assert(c.bonuses[i] == r.bonuses[i]);
        assert(engine_passes(c, i) == engine_passes(r, i));
    }
}

proof fn lemma_engine_pass_past_factors(r: EngineRules, bias: i64, k: nat)
    requires
        r.factors.len() <= k,
    ensures
        engine_pass(r, bias, k) == engine_pass(r, bias, r.factors.len()),
    decreases k,
{
    if k > r.factors.len() {
        lemma_engine_pass_past_factors(r, bias, (k - 1) as nat);
    }
}

proof fn lemma_engine_iterate_cut(r: EngineRules, k: nat)
    requires
        r.factors.len() <= r.weights.len(),
        r.factors.len() <= r.thresholds.len(),
        r.factors.len() <= r.directions.len(),
        r.factors.len() <= r.bonuses.len(),
    ensures
        engine_iterate(rules_cut(r, r.factors.len()), k) == engine_iterate(r, k),
    decreases k,
{
    if k > 0 {
        let j = (k - 1) as nat;
        lemma_engine_iterate_cut(r, j);
        let c = rules_cut(r, r.factors.len());
        match engine_iterate(r, j) {
            None => {},
            Some(score) => match spec_bias(j, score) {
                None => {},
                Some(bias) => {
                    lemma_engine_pass_cut(r, bias, r.factors.len());
                    lemma_engine_pass_past_factors(r, bias, r.weights.len());
                    assert(c.weights.len() == r.factors.len());
                },
            },
        }
    }
}

/// Rule positions past the last factor are ignored: cutting the rule arrays
/// to the number of factors leaves the contract's answer unchanged.
pub proof fn lemma_rules_past_factors_ignored(
    r: EngineRules,
    corr_a: Seq<u32>,
    corr_b: Seq<u32>,
    corr_weights: Seq<i64>,
    iterations: u32,
)
    requires
        r.factors.len() <= r.weights.len(),
        r.factors.len() <= r.thresholds.len(),
        r.factors.len() <= r.directions.len(),
        r.factors.len() <= r.bonuses.len(),
    ensures
        engine_outcome(rules_cut(r, r.factors.len()), corr_a, corr_b, corr_weights, iterations)
            == engine_outcome(r, corr_a, corr_b, corr_weights, iterations),
{
    lemma_engine_iterate_cut(r, effective_iterations(iterations) as nat);
}

proof fn lemma_engine_pass_none(r: EngineRules, bias: i64, k: nat, m: nat)
    requires
        k <= m,
        engine_pass(r, bias, k) is None,
    ensures
        engine_pass(r, bias, m) is None,
    decreases m - k,
{
    if k < m {
        lemma_engine_pass_none(r, bias, k, (m - 1) as nat);
    }
}

proof fn lemma_engine_iterate_none(r: EngineRules, k: nat, m: nat)
    requires
        k <= m,
        engine_iterate(r, k) is None,
    ensures
        engine_iterate(r, m) is None,
    decreases m - k,
{
    if k < m {
        lemma_engine_iterate_none(r, k, (m - 1) as nat);
    }
}

proof fn lemma_engine_correlations_none(
    factors: Seq<i64>,
    corr_a: Seq<u32>,
    corr_b: Seq<u32>,
    corr_weights: Seq<i64>,
    k: nat,
    m: nat,
)
    requires
        k <= m,
        engine_correlations(factors, corr_a, corr_b, corr_weights, k) is None,
    ensures
        engine_correlations(factors, corr_a, corr_b, corr_weights, m) is None,
    decreases m - k,
{
    if k < m {
        lemma_engine_correlations_none(factors, corr_a, corr_b, corr_weights, k, (m - 1) as nat);
    }
}

/// The rule arrays of a call, as plain sequences.
pub open spec fn rules_of(
    factors: Seq<i64>,
    weights: Seq<i64>,
    thresholds: Seq<i64>,
    directions: Seq<i64>,
    bonuses: Seq<i64>,
) -> EngineRules {
    EngineRules { factors, weights, thresholds, directions, bonuses }
}

fn engine_run_pass(
    factors: &Vec<i64>,
    weights: &Vec<i64>,
    thresholds: &Vec<i64>,
    directions: &Vec<i64>,
    bonuses: &Vec<i64>,
    bias: i64,
) -> (res: Option<(i64, i64)>)
    requires
        rules_read(weights@.len(), factors@.len()) <= thresholds@.len(),
        rules_read(weights@.len(), factors@.len()) <= directions@.len(),
        bonuses_cover(rules_of(factors@, weights@, thresholds@, directions@, bonuses@)),
    ensures
        res == engine_pass(
            rules_of(factors@, weights@, thresholds@, directions@, bonuses@),
            bias,
            weights@.len(),
        ),
{
    let ghost r = rules_of(factors@, weights@, thresholds@, directions@, bonuses@);
    let num_rules = weights.len();
    let num_factors = factors.len();
    let mut raw: i64 = 0;
    let mut total: i64 = 0;
    let mut i: usize = 0;
    while i < num_rules
        invariant
            r == rules_of(factors@, weights@, thresholds@, directions@, bonuses@),
            num_rules == weights@.len(),
            num_factors == factors@.len(),
            rules_read(weights@.len(), factors@.len()) <= thresholds@.len(),
            rules_read(weights@.len(), factors@.len()) <= directions@.len(),
            bonuses_cover(r),
            0 <= i <= num_rules,
            engine_pass(r, bias, i as nat) == Some((raw, total)),
        decreases num_rules - i,
    {
        if i < num_factors {
            let weight = match fx_from_i64(weights[i]) {
                Some(w) => w,
                None => {
                    proof {
                        lemma_engine_pass_none(r, bias, (i + 1) as nat, num_rules as nat);
                    }
                    return None;
                },
            };
            total = match fx_checked_add(total, weight) {
                Some(t) => t,
                None => {
                    proof {
                        lemma_engine_pass_none(r, bias, (i + 1) as nat, num_rules as nat);
                    }
                    return None;
                },
            };
            let value = factors[i];
            let threshold = thresholds[i];
            let passes = if directions[i] == 1 {
                value >= threshold
            } else {
                value <= threshold
            };
            proof {
                assert(passes == engine_passes(r, i as int));
            }
            if passes {
                let weighted = match rule_term(bonuses[i], bias, weight) {
                    Some(x) => x,
                    None => {
                        proof {
                            lemma_engine_pass_none(r, bias, (i + 1) as nat, num_rules as nat);
                        }
                        return None;
                    },
                };
                raw = match fx_checked_add(raw, weighted) {
                    Some(x) => x,
                    None => {
                        proof {
                            lemma_engine_pass_none(r, bias, (i + 1) as nat, num_rules as nat);
                        }
                        return None;
                    },
                };
            }
        }
        i = i + 1;
    }
    Some((raw, total))
}

fn engine_run_correlations(
    factors: &Vec<i64>,
    corr_a: &Vec<u32>,
    corr_b: &Vec<u32>,
    corr_weights: &Vec<i64>,
) -> (res: Option<i64>)
    requires
        corr_a@.len() <= corr_b@.len(),
        forall|i: int|
            0 <= i < corr_a@.len() && (corr_a@[i] as int) < factors@.len() && (corr_b@[i] as int)
                < factors@.len() ==> i < corr_weights@.len(),
    ensures
        res == engine_correlations(factors@, corr_a@, corr_b@, corr_weights@, corr_a@.len()),
{
    let num_corr = corr_a.len();
    let num_factors = factors.len();
    let mut sum: i64 = 0;
    let mut i: usize = 0;
    while i < num_corr
        invariant
            num_corr == corr_a@.len(),
            num_factors == factors@.len(),
            corr_a@.len() <= corr_b@.len(),
            forall|j: int|
                0 <= j < corr_a@.len() && (corr_a@[j] as int) < factors@.len() && (
                corr_b@[j] as int) < factors@.len() ==> j < corr_weights@.len(),
            0 <= i <= num_corr,
            engine_correlations(factors@, corr_a@, corr_b@, corr_weights@, i as nat) == Some(sum),
        decreases num_corr - i,
    {
        let idx_a = corr_a[i] as usize;
        let idx_b = corr_b[i] as usize;
        if idx_a < num_factors && idx_b < num_factors {
            let t = match correlation_term(factors[idx_a], factors[idx_b], corr_weights[i]) {
                Some(x) => x,
                None => {
                    proof {
                        lemma_engine_correlations_none(
                            factors@,
                            corr_a@,
                            corr_b@,
                            corr_weights@,
                            (i + 1) as nat,
                            num_corr as nat,
                        );
                    }
                    return None;
                },
            };
            sum = match fx_checked_add(sum, t) {
                Some(x) => x,
                None => {
                    proof {
                        lemma_engine_correlations_none(
                            factors@,
                            corr_a@,
                            corr_b@,
                            corr_weights@,
                            (i + 1) as nat,
                            num_corr as nat,
                        );
                    }
                    return None;
                },
            };
        }
        i = i + 1;
    }
    Some(sum)
}

fn tier_code(score: i64) -> (r: i64)
    ensures
        r == tier_number(tier_of(score as int)),
{
    match tier_for(score) {
        crate::model::RiskTier::Low => 0,
        crate::model::RiskTier::Medium => 1,
        crate::model::RiskTier::High => 2,
        crate::model::RiskTier::Critical => 3,
    }
}

impl ScoringEngine {
    /// Scores the request given as parallel arrays, or gives `None` when a
    /// fixed-point operation overflows (where the arithmetic would panic).
    pub fn evaluate_checked(
        &self,
        factors: Vec<i64>,
        weights: Vec<i64>,
        thresholds: Vec<i64>,
        directions: Vec<i64>,
        bonuses: Vec<i64>,
        corr_a: Vec<u32>,
        corr_b: Vec<u32>,
        corr_weights: Vec<i64>,
        iterations: u32,
    ) -> (res: Option<Vec<i64>>)
        requires
            arrays_cover(
                rules_of(factors@, weights@, thresholds@, directions@, bonuses@),
                corr_a@,
                corr_b@,
                corr_weights@,
            ),
        ensures
            match res {
                Some(v) => engine_outcome(
                    rules_of(factors@, weights@, thresholds@, directions@, bonuses@),
                    corr_a@,
                    corr_b@,
                    corr_weights@,
                    iterations,
                ) == Some(v@),
                None => engine_outcome(
                    rules_of(factors@, weights@, thresholds@, directions@, bonuses@),
                    corr_a@,
                    corr_b@,
                    corr_weights@,
                    iterations,
                ) is None,
            },
    {
        let ghost r = rules_of(factors@, weights@, thresholds@, directions@, bonuses@);
        let iters = effective_iterations_exec(iterations);
        let mut score: i64 = 0;
        let mut k: u32 = 0;
        while k < iters
            invariant
                r == rules_of(factors@, weights@, thresholds@, directions@, bonuses@),
                arrays_cover(r, corr_a@, corr_b@, corr_weights@),
                0 <= k <= iters,
                iters == effective_iterations(iterations),
                engine_iterate(r, k as nat) == Some(score),
            decreases iters - k,
        {
            let bias = match bias_exec(k, score) {
                Some(b) => b,
                None => {
                    proof {
                        lemma_engine_iterate_none(r, (k + 1) as nat, iters as nat);
                    }
                    return None;
                },
            };
            let st = match engine_run_pass(&factors, &weights, &thresholds, &directions, &bonuses, bias) {
                Some(p) => p,
                None => {
                    proof {
                        lemma_engine_iterate_none(r, (k + 1) as nat, iters as nat);
                    }
                    return None;
                },
            };
            score = match next_score(score, st.0, st.1) {
                Some(s) => s,
                None => {
                    proof {
                        lemma_engine_iterate_none(r, (k + 1) as nat, iters as nat);
                    }
                    return None;
                },
            };
            k = k + 1;
        }
        let correlation = engine_run_correlations(&factors, &corr_a, &corr_b, &corr_weights)?;
        let (normalized, adjustment) = finish(score, correlation)?;
        let tier = tier_code(normalized);
        let out: Vec<i64> = vec![normalized, tier, adjustment, iters as i64];
        proof {
            assert(out@ =~= seq![normalized, tier, adjustment, iters as i64]);
        }
        Some(out)
    }

    /// Scores the request given as parallel arrays:
    /// `[score, tier, correlation adjustment, passes]`. The caller must make
    /// sure that the arrays cover every index read and that no fixed-point
    /// operation overflows (`evaluate_checked` tells).
    pub fn evaluate(
        &self,
        factors: Vec<i64>,
        weights: Vec<i64>,
        thresholds: Vec<i64>,
        directions: Vec<i64>,
        bonuses: Vec<i64>,
        corr_a: Vec<u32>,
        corr_b: Vec<u32>,
        corr_weights: Vec<i64>,
        iterations: u32,
    ) -> (res: Vec<i64>)
        requires
            arrays_cover(
                rules_of(factors@, weights@, thresholds@, directions@, bonuses@),
                corr_a@,
                corr_b@,
                corr_weights@,
            ),
            engine_outcome(
                rules_of(factors@, weights@, thresholds@, directions@, bonuses@),
                corr_a@,
                corr_b@,
                corr_weights@,
                iterations,
            ) is Some,
        ensures
            engine_outcome(
                rules_of(factors@, weights@, thresholds@, directions@, bonuses@),
                corr_a@,
                corr_b@,
                corr_weights@,
                iterations,
            ) == Some(res@),
            res@.len() == 4,
            0 <= res@[0] <= 1000,
            res@[1] == tier_number(tier_of(res@[0] as int)),
            res@[3] == effective_iterations(iterations) as i64,
    {
        match self.evaluate_checked(
            factors,
            weights,
            thresholds,
            directions,
            bonuses,
            corr_a,
            corr_b,
            corr_weights,
            iterations,
        ) {
            Some(v) => v,
            None => Vec::new(),
        }
    }
}

} // verus!
