//! The off-chain engine and the contract agree: scoring a request directly,
//! and scoring the arrays that `prepare_call_data` makes of it, give the
//! same score, tier, correlation adjustment and number of passes.

use crate::chain::{factor_values, columns_match, last_rule_at, pair_columns, prepared_from, rule_columns};
use crate::engine::{
    engine_correlations, engine_iterate, engine_outcome, engine_pass, engine_passes, rules_of,
    EngineRules,
};
use crate::entity::{lemma_position_lookup, lookup, position};
use crate::fixed_point::{fx_div, fx_from_int, fx_mul, scale};
use crate::model::{CorrelationPair, Rule, ScoringRequest};
use crate::score_math::{
    fx, lemma_zero_correlation_term, rule_passes, spec_bias, spec_correlation_term, spec_damped,
    spec_rule_term, tier_number,
};
use crate::scoring::{spec_correlations, spec_evaluate, spec_iterate, spec_pass, value_or_zero};
use vstd::prelude::*;

verus! {

/// No two rules name the same factor.
pub open spec fn distinct_rule_factors(rules: Seq<Rule>) -> bool {
    forall|i: int, j: int|
        0 <= i < j < rules.len() ==> #[trigger] rules[i].factor_name@ != #[trigger] rules[j].factor_name@
}

/// `f(0) + ... + f(m - 1)`.
pub open spec fn sum_to(f: spec_fn(int) -> int, m: nat) -> int
    decreases m,
{
    if m == 0 {
        0
    } else {
        sum_to(f, (m - 1) as nat) + f(m - 1)
    }
}

proof fn lemma_sum_ext(f: spec_fn(int) -> int, g: spec_fn(int) -> int, m: nat)
    requires
        forall|p: int| 0 <= p < m ==> #[trigger] f(p) == g(p),
    ensures
        sum_to(f, m) == sum_to(g, m),
    decreases m,
{
    if m > 0 {
        lemma_sum_ext(f, g, (m - 1) as nat);
    }
}

proof fn lemma_sum_point(f: spec_fn(int) -> int, g: spec_fn(int) -> int, m: nat, q: int)
    requires
        forall|p: int| 0 <= p < m && p != q ==> #[trigger] f(p) == g(p),
    ensures
        0 <= q < m ==> sum_to(g, m) == sum_to(f, m) - f(q) + g(q),
        !(0 <= q < m) ==> sum_to(g, m) == sum_to(f, m),
    decreases m,
{
    if m > 0 {
        lemma_sum_point(f, g, (m - 1) as nat, q);
    }
}

/// The exact value of `(bonus + bias * 5) * weight` on raw bits.
pub open spec fn term_value(bonus: i64, bias: i64, weight: int) -> int {
    ((bonus * scale() + (bias * fx(5)) / scale()) * weight) / scale()
}

proof fn lemma_rule_term_value(bonus: i64, bias: i64, weight: i64)
    requires
        spec_rule_term(bonus, bias, weight) is Some,
    ensures
        spec_rule_term(bonus, bias, weight)->0 as int == term_value(bonus, bias, weight as int),
{
}

/// What a rule adds to the raw score of a pass with the given bias.
pub open spec fn rule_raw(entity: Seq<(Seq<char>, i64)>, rule: Rule, bias: i64) -> int {
    match lookup(entity, rule.factor_name@) {
        Some(v) => if rule_passes(rule.direction, v, rule.threshold) {
            term_value(rule.penalty_or_bonus, bias, rule.weight * scale())
        } else {
            0
        },
        None => 0,
    }
}

/// What a rule adds to the total weight of a pass.
pub open spec fn rule_weight(entity: Seq<(Seq<char>, i64)>, rule: Rule) -> int {
    match lookup(entity, rule.factor_name@) {
        Some(v) => rule.weight * scale(),
        None => 0,
    }
}

/// Sum of `g` over the first `n` rules.
pub open spec fn sum_by_rule(rules: Seq<Rule>, n: nat, g: spec_fn(Rule) -> int) -> int {
    sum_to(|i: int| g(rules[i]), n)
}

/// Sum of `g` over the rules at positions `0..m` (nothing where a position
/// has no rule among the first `n`).
pub open spec fn sum_by_position(
    entity: Seq<(Seq<char>, i64)>,
    rules: Seq<Rule>,
    n: nat,
    g: spec_fn(Rule) -> int,
    m: nat,
) -> int {
    sum_to(
        |p: int|
            match last_rule_at(entity, rules, n, p) {
                Some(r) => g(r),
                None => 0,
            },
        m,
    )
}

proof fn lemma_last_rule_index(entity: Seq<(Seq<char>, i64)>, rules: Seq<Rule>, n: nat, p: int) -> (i:
    int)
    requires
        n <= rules.len(),
        last_rule_at(entity, rules, n, p) is Some,
    ensures
        0 <= i < n,
        rules[i] == last_rule_at(entity, rules, n, p)->0,
        position(entity, rules[i].factor_name@) == Some(p),
    decreases n,
{
    if position(entity, rules[n - 1].factor_name@) == Some(p) {
        n - 1
    } else {
        lemma_last_rule_index(entity, rules, (n - 1) as nat, p)
    }
}

/// Summing by position equals summing by rule, when no two rules name the
/// same factor and `g` vanishes on rules whose factor is absent.
proof fn lemma_position_sum(
    entity: Seq<(Seq<char>, i64)>,
    rules: Seq<Rule>,
    n: nat,
    g: spec_fn(Rule) -> int,
)
    requires
        n <= rules.len(),
        distinct_rule_factors(rules),
        forall|r: Rule| position(entity, r.factor_name@) is None ==> #[trigger] g(r) == 0,
    ensures
        sum_by_position(entity, rules, n, g, entity.len()) == sum_by_rule(rules, n, g),
    decreases n,
{
    let m = entity.len();
    let fpos = |p: int|
        match last_rule_at(entity, rules, n, p) {
            Some(r) => g(r),
            None => 0,
        };
    if n == 0 {
        let zero = |p: int| 0int;
        lemma_sum_ext(fpos, zero, m);
        lemma_sum_point(zero, zero, m, -1);
        assert(sum_to(zero, m) == 0) by {
            lemma_sum_zero(m);
        }
    } else {
        let k = (n - 1) as nat;
        lemma_position_sum(entity, rules, k, g);
        let fprev = |p: int|
            match last_rule_at(entity, rules, k, p) {
                Some(r) => g(r),
                None => 0,
            };
        let rule = rules[k as int];
        match position(entity, rule.factor_name@) {
            Some(q) => {
                lemma_position_lookup(entity, rule.factor_name@);
                if last_rule_at(entity, rules, k, q) is Some {
                    let i = lemma_last_rule_index(entity, rules, k, q);
                    lemma_position_lookup(entity, rules[i].factor_name@);
                    assert(rules[i].factor_name@ == rule.factor_name@);
                    assert(rules[i].factor_name@ != rules[k as int].factor_name@);
                }
                assert forall|p: int| 0 <= p < m && p != q implies #[trigger] fprev(p) == fpos(p) by {
                }
                lemma_sum_point(fprev, fpos, m, q);
                assert(fpos(q) == g(rule));
                assert(fprev(q) == 0);
            },
            None => {
                assert forall|p: int| 0 <= p < m implies #[trigger] fprev(p) == fpos(p) by {
                }
                lemma_sum_ext(fprev, fpos, m);
                assert(g(rule) == 0);
            },
        }
        assert(sum_by_rule(rules, n, g) == sum_by_rule(rules, k, g) + g(rule));
    }
}

proof fn lemma_sum_zero(m: nat)
    ensures
        sum_to(|p: int| 0int, m) == 0,
    decreases m,
{
    if m > 0 {
        lemma_sum_zero((m - 1) as nat);
    }
}

/// An off-chain pass that does not overflow sums the rules' terms and
/// weights exactly.
proof fn lemma_pass_sums(entity: Seq<(Seq<char>, i64)>, rules: Seq<Rule>, bias: i64, n: nat)
    requires
        n <= rules.len(),
        spec_pass(entity, rules, bias, n) is Some,
    ensures
        ({
            let st = spec_pass(entity, rules, bias, n)->0;
            &&& st.0 as int == sum_by_rule(rules, n, |r: Rule| rule_raw(entity, r, bias))
            &&& st.1 as int == sum_by_rule(rules, n, |r: Rule| rule_weight(entity, r))
        }),
    decreases n,
{
    if n > 0 {
        let k = (n - 1) as nat;
        lemma_pass_sums(entity, rules, bias, k);
        let rule = rules[k as int];
        let st = spec_pass(entity, rules, bias, k)->0;
        if lookup(entity, rule.factor_name@) is Some {
            let v = lookup(entity, rule.factor_name@)->0;
            let w = fx_from_int(rule.weight as int)->0;
            if rule_passes(rule.direction, v, rule.threshold) {
                lemma_rule_term_value(rule.penalty_or_bonus, bias, w);
            }
        }
    }
}

/// The contract's term at position `p`.
pub open spec fn col_raw(r: EngineRules, bias: i64, p: int) -> int {
    if engine_passes(r, p) {
        term_value(r.bonuses[p], bias, r.weights[p] * scale())
    } else {
        0
    }
}

/// The contract's weight at position `p`.
pub open spec fn col_weight(r: EngineRules, p: int) -> int {
    r.weights[p] * scale()
}

/// A contract pass that does not overflow sums the positions' terms and
/// weights exactly.
proof fn lemma_engine_pass_sums(r: EngineRules, bias: i64, m: nat)
    requires
        m <= r.weights.len(),
        r.weights.len() == r.factors.len(),
        engine_pass(r, bias, m) is Some,
    ensures
        ({
            let st = engine_pass(r, bias, m)->0;
            &&& st.0 as int == sum_to(|p: int| col_raw(r, bias, p), m)
            &&& st.1 as int == sum_to(|p: int| col_weight(r, p), m)
        }),
    decreases m,
{
    if m > 0 {
        let k = (m - 1) as nat;
        lemma_engine_pass_sums(r, bias, k);
        let w = fx_from_int(r.weights[k as int] as int)->0;
        if engine_passes(r, k as int) {
            lemma_rule_term_value(r.bonuses[k as int], bias, w);
        }
    }
}

/// The contract's term and weight at a position are those of the rule at
/// that position, and nothing where there is none.
proof fn lemma_columns_terms(
    entity: Seq<(Seq<char>, i64)>,
    rules: Seq<Rule>,
    r: EngineRules,
    bias: i64,
    p: int,
)
    requires
        0 <= p < entity.len(),
        r.factors == factor_values(entity),
        r.weights.len() == entity.len(),
        columns_match(entity, rules, rules.len(), r.weights, r.thresholds, r.directions, r.bonuses),
    ensures
        col_raw(r, bias, p) == match last_rule_at(entity, rules, rules.len(), p) {
            Some(rule) => rule_raw(entity, rule, bias),
            None => 0,
        },
        col_weight(r, p) == match last_rule_at(entity, rules, rules.len(), p) {
            Some(rule) => rule_weight(entity, rule),
            None => 0,
        },
{
    let c = rule_columns(last_rule_at(entity, rules, rules.len(), p));
    assert(r.weights[p] == c.0);
    match last_rule_at(entity, rules, rules.len(), p) {
        Some(rule) => {
            let i = lemma_last_rule_index(entity, rules, rules.len(), p);
            lemma_position_lookup(entity, rule.factor_name@);
            assert(r.factors[p] == entity[p].1);
        },
        None => {
            assert(r.weights[p] == 0);
        },
    }
}

/// Both engines compute the same score after every pass, when neither
/// overflows.
proof fn lemma_iterations_agree(
    entity: Seq<(Seq<char>, i64)>,
    rules: Seq<Rule>,
    r: EngineRules,
    k: nat,
)
    requires
        distinct_rule_factors(rules),
        r.factors == factor_values(entity),
        r.weights.len() == entity.len(),
        columns_match(entity, rules, rules.len(), r.weights, r.thresholds, r.directions, r.bonuses),
        spec_iterate(entity, rules, k) is Some,
        engine_iterate(r, k) is Some,
    ensures
        ({
            let it = spec_iterate(entity, rules, k)->0;
            it.0 == engine_iterate(r, k)->0
        }),
    decreases k,
{
    if k > 0 {
        let j = (k - 1) as nat;
        lemma_iterations_agree(entity, rules, r, j);
        let score = engine_iterate(r, j)->0;
        let bias = spec_bias(j, score)->0;
        let n = rules.len();
        let m = entity.len();
        lemma_pass_sums(entity, rules, bias, n);
        lemma_engine_pass_sums(r, bias, m);
        let graw = |rule: Rule| rule_raw(entity, rule, bias);
        let gw = |rule: Rule| rule_weight(entity, rule);
        assert forall|rule: Rule| position(entity, rule.factor_name@) is None implies #[trigger] graw(rule)
            == 0 by {
            lemma_position_lookup(entity, rule.factor_name@);
        }
        assert forall|rule: Rule| position(entity, rule.factor_name@) is None implies #[trigger] gw(rule)
            == 0 by {
            lemma_position_lookup(entity, rule.factor_name@);
        }
        lemma_position_sum(entity, rules, n, graw);
        lemma_position_sum(entity, rules, n, gw);
        let craw = |q: int| col_raw(r, bias, q);
        let praw = |q: int|
            match last_rule_at(entity, rules, n, q) {
                Some(rule) => graw(rule),
                None => 0,
            };
        assert forall|p: int| 0 <= p < m implies #[trigger] craw(p) == praw(p) by {
            lemma_columns_terms(entity, rules, r, bias, p);
        }
        lemma_sum_ext(craw, praw, m);
        let cw = |q: int| col_weight(r, q);
        let pw = |q: int|
            match last_rule_at(entity, rules, n, q) {
                Some(rule) => gw(rule),
                None => 0,
            };
        assert forall|p: int| 0 <= p < m implies #[trigger] cw(p) == pw(p) by {
            lemma_columns_terms(entity, rules, r, bias, p);
        }
        lemma_sum_ext(cw, pw, m);
    }
}

proof fn lemma_pair_columns_prefix(
    entity: Seq<(Seq<char>, i64)>,
    pairs: Seq<CorrelationPair>,
    n: nat,
    total: nat,
)
    requires
        n <= total,
    ensures
        pair_columns(entity, pairs, n).len() <= pair_columns(entity, pairs, total).len(),
        forall|i: int|
            0 <= i < pair_columns(entity, pairs, n).len() ==> #[trigger] pair_columns(
                entity,
                pairs,
                n,
            )[i] == pair_columns(entity, pairs, total)[i],
    decreases total - n,
{
    if n < total {
        lemma_pair_columns_prefix(entity, pairs, n, (total - 1) as nat);
    }
}

/// Both engines sum the same correlation terms, when neither overflows.
proof fn lemma_correlations_agree(
    entity: Seq<(Seq<char>, i64)>,
    pairs: Seq<CorrelationPair>,
    factors: Seq<i64>,
    corr_a: Seq<u32>,
    corr_b: Seq<u32>,
    corr_weights: Seq<i64>,
    n: nat,
)
    requires
        n <= pairs.len(),
        entity.len() <= 0x1_0000_0000,
        factors == factor_values(entity),
        corr_a.len() == pair_columns(entity, pairs, pairs.len()).len(),
        corr_b.len() == corr_a.len(),
        corr_weights.len() == corr_a.len(),
        forall|i: int|
            0 <= i < corr_a.len() ==> {
                let c = pair_columns(entity, pairs, pairs.len())[i];
                &&& #[trigger] corr_a[i] == c.0
                &&& corr_b[i] == c.1
                &&& corr_weights[i] == c.2
            },
        spec_correlations(entity, pairs, n) is Some,
        engine_correlations(
            factors,
            corr_a,
            corr_b,
            corr_weights,
            pair_columns(entity, pairs, n).len(),
        ) is Some,
    ensures
        spec_correlations(entity, pairs, n) == engine_correlations(
            factors,
            corr_a,
            corr_b,
            corr_weights,
            pair_columns(entity, pairs, n).len(),
        ),
    decreases n,
{
    if n > 0 {
        let k = (n - 1) as nat;
        let p = pairs[k as int];
        let m = pair_columns(entity, pairs, k).len();
        lemma_position_lookup(entity, p.factor_a@);
        lemma_position_lookup(entity, p.factor_b@);
        lemma_pair_columns_prefix(entity, pairs, n, pairs.len());
        match (position(entity, p.factor_a@), position(entity, p.factor_b@)) {
            (Some(a), Some(b)) => {
                assert(pair_columns(entity, pairs, n).len() == m + 1);
                assert(pair_columns(entity, pairs, n)[m as int] == (a as u32, b as u32, p.weight));
                assert(corr_a[m as int] == a as u32);
                assert((a as u32) as int == a);
                assert((b as u32) as int == b);
                lemma_correlations_agree(entity, pairs, factors, corr_a, corr_b, corr_weights, k);
                assert(factors[a] == entity[a].1);
                assert(factors[b] == entity[b].1);
            },
            _ => {
                assert(pair_columns(entity, pairs, n) == pair_columns(entity, pairs, k));
                lemma_correlations_agree(entity, pairs, factors, corr_a, corr_b, corr_weights, k);
                let va = value_or_zero(entity, p.factor_a@);
                let vb = value_or_zero(entity, p.factor_b@);
                lemma_zero_correlation_term(va, vb, p.weight);
            },
        }
    }
}

/// The two engines agree: for a request whose rules name distinct factors,
/// the contract, run on the call data made from the request, answers the
/// score, tier number, correlation adjustment and number of passes of the
/// off-chain result, whenever neither overflows.
pub proof fn lemma_offchain_matches_contract(
    request: ScoringRequest,
    factors: Seq<i64>,
    weights: Seq<i64>,
    thresholds: Seq<i64>,
    directions: Seq<i64>,
    bonuses: Seq<i64>,
    corr_a: Seq<u32>,
    corr_b: Seq<u32>,
    corr_weights: Seq<i64>,
    iterations: u32,
)
    requires
        prepared_from(
            request.entity@,
            request.rules@,
            request.correlations@,
            request.iterations,
            factors,
            weights,
            thresholds,
            directions,
            bonuses,
            corr_a,
            corr_b,
            corr_weights,
            iterations,
        ),
        distinct_rule_factors(request.rules@),
        request.entity@.len() <= 0x1_0000_0000,
        spec_evaluate(request) is Some,
        engine_outcome(
            rules_of(factors, weights, thresholds, directions, bonuses),
            corr_a,
            corr_b,
            corr_weights,
            iterations,
        ) is Some,
    ensures
        ({
            let out = spec_evaluate(request)->0;
            engine_outcome(
                rules_of(factors, weights, thresholds, directions, bonuses),
                corr_a,
                corr_b,
                corr_weights,
                iterations,
            ) == Some(
                seq![
                    out.score,
                    tier_number(out.tier),
                    out.correlation_adjustment,
                    out.iterations_run as i64,
                ],
            )
        }),
{
    let entity = request.entity@;
    let rules = request.rules@;
    let pairs = request.correlations@;
    let r = rules_of(factors, weights, thresholds, directions, bonuses);
    lemma_iterations_agree(entity, rules, r, iterations as nat);
    lemma_correlations_agree(entity, pairs, factors, corr_a, corr_b, corr_weights, pairs.len());
}

} // verus!
