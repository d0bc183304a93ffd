//! Off-chain scoring of a request: rules looked up by factor name.

use crate::entity::{lookup, Entity};
use crate::fixed_point::{
    div_toward_zero, fx_add, fx_checked_add, fx_from_i64, fx_from_int, fx_mul, fx_to_i64, fx_to_int,
    scale,
};
use crate::model::{
    CorrelationPair, FactorResult, Rule, ScoringOutcome, ScoringRequest, ScoringResult,
};
use crate::score_math::{
    bias_exec, correlation_term, effective_iterations, effective_iterations_exec, finish, fx,
    lemma_to_int_fits, lemma_zero_correlation_term, next_score, rule_passes, rule_passes_exec, rule_term, spec_bias,
    spec_correlation_term, spec_finish, spec_next_score, spec_rule_term, tier_for, tier_of,
};
use vstd::prelude::*;

verus! {

/// State of a pass after some rules: raw score, total weight of the rules
/// whose factor is present, and the per-rule breakdown.
pub type PassState = (i64, i64, Seq<FactorResult>);

/// What one rule adds to a pass.
pub open spec fn spec_rule_step(
    entity: Seq<(Seq<char>, i64)>,
    rule: Rule,
    bias: i64,
    st: PassState,
) -> Option<PassState> {
    match fx_from_int(rule.weight as int) {
        None => None,
        Some(weight) => match lookup(entity, rule.factor_name@) {
            None => Some(
                (
                    st.0,
                    st.1,
                    st.2.push(
                        FactorResult {
                            factor_name: rule.factor_name,
                            value: None,
                            rule_applied: false,
                            contribution: 0,
                            skipped: true,
                        },
                    ),
                ),
            ),
            Some(value) => match fx_add(st.1, weight) {
                None => None,
                Some(total) => if rule_passes(rule.direction, value, rule.threshold) {
                    match spec_rule_term(rule.penalty_or_bonus, bias, weight) {
                        None => None,
                        Some(weighted) => match fx_add(st.0, weighted) {
                            None => None,
                            Some(raw) => Some(
                                (
                                    raw,
                                    total,
                                    st.2.push(
                                        FactorResult {
                                            factor_name: rule.factor_name,
                                            value: Some(value),
                                            rule_applied: true,
                                            contribution: fx_to_int(weighted) as i64,
                                            skipped: false,
                                        },
                                    ),
                                ),
                            ),
                        },
                    }
                } else {
                    Some(
                        (
                            st.0,
                            total,
                            st.2.push(
                                FactorResult {
                                    factor_name: rule.factor_name,
                                    value: Some(value),
                                    rule_applied: false,
                                    contribution: 0,
                                    skipped: false,
                                },
                            ),
                        ),
                    )
                },
            },
        },
    }
}

/// A pass over the first `n` rules.
pub open spec fn spec_pass(
    entity: Seq<(Seq<char>, i64)>,
    rules: Seq<Rule>,
    bias: i64,
    n: nat,
) -> Option<PassState>
    decreases n,
{
    if n == 0 {
        Some((0, 0, Seq::empty()))
    } else {
        match spec_pass(entity, rules, bias, (n - 1) as nat) {
            None => None,
            Some(st) => spec_rule_step(entity, rules[n - 1], bias, st),
        }
    }
}

/// Score and breakdown after `k` passes over all rules.
pub open spec fn spec_iterate(entity: Seq<(Seq<char>, i64)>, rules: Seq<Rule>, k: nat) -> Option<
    (i64, Seq<FactorResult>),
>
    decreases k,
{
    if k == 0 {
        Some((0, Seq::empty()))
    } else {
        match spec_iterate(entity, rules, (k - 1) as nat) {
            None => None,
            Some(prev) => match spec_bias((k - 1) as nat, prev.0) {
                None => None,
                Some(bias) => match spec_pass(entity, rules, bias, rules.len()) {
                    None => None,
                    Some(st) => match spec_next_score(prev.0, st.0, st.1) {
                        None => None,
                        Some(score) => Some((score, st.2)),
                    },
                },
            },
        }
    }
}

/// The value of a factor, zero when the entity lacks it.
pub open spec fn value_or_zero(entity: Seq<(Seq<char>, i64)>, name: Seq<char>) -> i64 {
    match lookup(entity, name) {
        Some(v) => v,
        None => 0,
    }
}

/// Sum of the terms of the first `n` correlation pairs.
pub open spec fn spec_correlations(
    entity: Seq<(Seq<char>, i64)>,
    pairs: Seq<CorrelationPair>,
    n: nat,
) -> Option<i64>
    decreases n,
{
    if n == 0 {
        Some(0)
    } else {
        match spec_correlations(entity, pairs, (n - 1) as nat) {
            None => None,
            Some(sum) => {
                let p = pairs[n - 1];
                match spec_correlation_term(
                    value_or_zero(entity, p.factor_a@),
                    value_or_zero(entity, p.factor_b@),
                    p.weight,
                ) {
                    None => None,
                    Some(t) => fx_add(sum, t),
                }
            },
        }
    }
}

/// The outcome of scoring a request, `None` when a fixed-point operation
/// overflows.
pub open spec fn spec_evaluate(request: ScoringRequest) -> Option<ScoringOutcome> {
    let iterations = effective_iterations(request.iterations);
    let entity = request.entity@;
    match spec_iterate(entity, request.rules@, iterations as nat) {
        None => None,
        Some(passes) => match spec_correlations(
            entity,
            request.correlations@,
            request.correlations@.len(),
        ) {
            None => None,
            Some(correlation) => match spec_finish(passes.0, correlation) {
                None => None,
                Some(fin) => Some(
                    ScoringOutcome {
                        score: fin.0,
                        tier: tier_of(fin.0 as int),
                        breakdown: passes.1,
                        correlation_adjustment: fin.1,
                        iterations_run: iterations,
                    },
                ),
            },
        },
    }
}

/// What the breakdown says of rule `i`: its name, the factor's value, and
/// whether it was skipped or applied.
pub open spec fn reports_rule(entity: Seq<(Seq<char>, i64)>, rule: Rule, f: FactorResult) -> bool {
    let value = lookup(entity, rule.factor_name@);
    &&& f.factor_name == rule.factor_name
    &&& f.value == value
    &&& f.skipped == (value is None)
    &&& f.skipped ==> !f.rule_applied && f.contribution == 0
    &&& !f.skipped ==> f.rule_applied == rule_passes(rule.direction, value->0, rule.threshold)
    &&& !f.rule_applied ==> f.contribution == 0
}

/// The breakdown has one entry per rule, in rule order, each reporting its rule.
pub open spec fn breakdown_reports(
    entity: Seq<(Seq<char>, i64)>,
    rules: Seq<Rule>,
    n: nat,
    breakdown: Seq<FactorResult>,
) -> bool {
    &&& breakdown.len() == n
    &&& forall|i: int| 0 <= i < n ==> reports_rule(entity, rules[i], #[trigger] breakdown[i])
}

/// A pass reports every rule it went over.
pub proof fn lemma_pass_reports(
    entity: Seq<(Seq<char>, i64)>,
    rules: Seq<Rule>,
    bias: i64,
    n: nat,
)
    requires
        n <= rules.len(),
        spec_pass(entity, rules, bias, n) is Some,
    ensures
        ({
            let st = spec_pass(entity, rules, bias, n)->0;
            breakdown_reports(entity, rules, n, st.2)
        }),
    decreases n,
{
    if n > 0 {
        lemma_pass_reports(entity, rules, bias, (n - 1) as nat);
        let prev_st = spec_pass(entity, rules, bias, (n - 1) as nat)->0;
        let cur_st = spec_pass(entity, rules, bias, n)->0;
        let prev = prev_st.2;
        let cur = cur_st.2;
        assert forall|i: int| 0 <= i < n implies reports_rule(entity, rules[i], #[trigger] cur[i]) by {
            if i < n - 1 {
                assert(cur[i] == prev[i]);
            }
        }
    }
}

/// The breakdown after one or more passes reports every rule.
pub proof fn lemma_iterate_reports(entity: Seq<(Seq<char>, i64)>, rules: Seq<Rule>, k: nat)
    requires
        k > 0,
        spec_iterate(entity, rules, k) is Some,
    ensures
        ({
            let it = spec_iterate(entity, rules, k)->0;
            breakdown_reports(entity, rules, rules.len(), it.1)
        }),
{
    let prev = spec_iterate(entity, rules, (k - 1) as nat)->0;
    let bias = spec_bias((k - 1) as nat, prev.0)->0;
    lemma_pass_reports(entity, rules, bias, rules.len());
}

/// Laws of a scoring run: the score lies in `0..=1000`, the tier is the
/// tier of the score, the number of passes is the requested one (10 when
/// none is asked for), and the breakdown has one entry per rule reporting
/// its factor's value and whether the rule was skipped or applied.
pub proof fn lemma_evaluate_laws(request: ScoringRequest)
    requires
        spec_evaluate(request) is Some,
    ensures
        ({
            let out = spec_evaluate(request)->0;
            &&& 0 <= out.score <= 1000
            &&& out.tier == tier_of(out.score as int)
            &&& out.iterations_run == effective_iterations(request.iterations)
            &&& breakdown_reports(request.entity@, request.rules@, request.rules@.len(), out.breakdown)
        }),
{
    let iterations = effective_iterations(request.iterations);
    lemma_iterate_reports(request.entity@, request.rules@, iterations as nat);
}

/// The number of passes reported is the number requested, and 10 when
/// none is requested.
pub proof fn lemma_evaluate_reports_passes(request: ScoringRequest)
    requires
        spec_evaluate(request) is Some,
    ensures
        request.iterations != 0 ==> spec_evaluate(request)->0.iterations_run == request.iterations,
        request.iterations == 0 ==> spec_evaluate(request)->0.iterations_run == 10,
{
}

/// The breakdown entry of a rule whose factor is absent.
pub open spec fn skipped_entry(rule: Rule) -> FactorResult {
    FactorResult {
        factor_name: rule.factor_name,
        value: None,
        rule_applied: false,
        contribution: 0,
        skipped: true,
    }
}

proof fn lemma_pass_prefix(
    entity: Seq<(Seq<char>, i64)>,
    rules: Seq<Rule>,
    more: Seq<Rule>,
    bias: i64,
    k: nat,
)
    requires
        k <= rules.len(),
        k <= more.len(),
        forall|i: int| 0 <= i < k ==> more[i] == rules[i],
    ensures
        spec_pass(entity, more, bias, k) == spec_pass(entity, rules, bias, k),
    decreases k,
{
    if k > 0 {
        lemma_pass_prefix(entity, rules, more, bias, (k - 1) as nat);
    }
}

proof fn lemma_iterate_absent_rule(
    entity: Seq<(Seq<char>, i64)>,
    rules: Seq<Rule>,
    rule: Rule,
    k: nat,
)
    requires
        lookup(entity, rule.factor_name@) is None,
        fx_from_int(rule.weight as int) is Some,
        spec_iterate(entity, rules, k) is Some,
    ensures
        ({
            let it = spec_iterate(entity, rules, k)->0;
            spec_iterate(entity, rules.push(rule), k) == Some(
                (it.0, if k == 0 { it.1 } else { it.1.push(skipped_entry(rule)) }),
            )
        }),
    decreases k,
{
    if k > 0 {
        let j = (k - 1) as nat;
        lemma_iterate_absent_rule(entity, rules, rule, j);
        let prev = spec_iterate(entity, rules, j)->0;
        let bias = spec_bias(j, prev.0)->0;
        let more = rules.push(rule);
        lemma_pass_prefix(entity, rules, more, bias, rules.len());
        assert(more[rules.len() as int] == rule);
        assert(spec_pass(entity, more, bias, more.len()) == spec_rule_step(
            entity,
            rule,
            bias,
            spec_pass(entity, rules, bias, rules.len())->0,
        ));
    }
}

/// Appending a rule on a factor the entity lacks changes nothing but the
/// breakdown, which gains one skipped entry for it (provided its weight
/// converts, as every rule's weight must).
pub proof fn lemma_absent_rule_appended(request: ScoringRequest, more: ScoringRequest, rule: Rule)
    requires
        more.entity@ == request.entity@,
        more.rules@ == request.rules@.push(rule),
        more.correlations@ == request.correlations@,
        more.iterations == request.iterations,
        lookup(request.entity@, rule.factor_name@) is None,
        fx_from_int(rule.weight as int) is Some,
        spec_evaluate(request) is Some,
    ensures
        ({
            let out = spec_evaluate(request)->0;
            spec_evaluate(more) == Some(
                ScoringOutcome { breakdown: out.breakdown.push(skipped_entry(rule)), ..out },
            )
        }),
{
    let iterations = effective_iterations(request.iterations);
    lemma_iterate_absent_rule(request.entity@, request.rules@, rule, iterations as nat);
}

proof fn lemma_correlations_prefix(
    entity: Seq<(Seq<char>, i64)>,
    pairs: Seq<CorrelationPair>,
    more: Seq<CorrelationPair>,
    k: nat,
)
    requires
        k <= pairs.len(),
        k <= more.len(),
        forall|i: int| 0 <= i < k ==> more[i] == pairs[i],
    ensures
        spec_correlations(entity, more, k) == spec_correlations(entity, pairs, k),
    decreases k,
{
    if k > 0 {
        lemma_correlations_prefix(entity, pairs, more, (k - 1) as nat);
    }
}

/// Appending a correlation pair with a zero factor value (an absent factor
/// counts as zero) or a zero weight changes nothing (provided its values
/// and weight convert, as every pair's must).
pub proof fn lemma_zero_pair_appended(
    request: ScoringRequest,
    more: ScoringRequest,
    pair: CorrelationPair,
)
    requires
        more.entity@ == request.entity@,
        more.rules@ == request.rules@,
        more.correlations@ == request.correlations@.push(pair),
        more.iterations == request.iterations,
        value_or_zero(request.entity@, pair.factor_a@) == 0 || value_or_zero(
            request.entity@,
            pair.factor_b@,
        ) == 0 || pair.weight == 0,
        spec_correlation_term(
            value_or_zero(request.entity@, pair.factor_a@),
            value_or_zero(request.entity@, pair.factor_b@),
            pair.weight,
        ) is Some,
        spec_evaluate(request) is Some,
    ensures
        spec_evaluate(more) == spec_evaluate(request),
{
    let e = request.entity@;
    let ps = request.correlations@;
    let qs = more.correlations@;
    lemma_correlations_prefix(e, ps, qs, ps.len());
    lemma_zero_correlation_term(value_or_zero(e, pair.factor_a@), value_or_zero(e, pair.factor_b@), pair.weight);
    assert(qs[ps.len() as int] == pair);
    let sum = spec_correlations(e, ps, ps.len())->0;
    assert(spec_correlations(e, qs, qs.len()) == fx_add(sum, 0));
}

/// `scaled` is `rules` with every weight multiplied by `c`, all else kept.
pub open spec fn weights_scaled(rules: Seq<Rule>, scaled: Seq<Rule>, c: int) -> bool {
    &&& scaled.len() == rules.len()
    &&& forall|i: int|
        #![trigger scaled[i]]
        0 <= i < rules.len() ==> {
            &&& scaled[i].weight == c * rules[i].weight
            &&& scaled[i].factor_name == rules[i].factor_name
            &&& scaled[i].threshold == rules[i].threshold
            &&& scaled[i].direction == rules[i].direction
            &&& scaled[i].penalty_or_bonus == rules[i].penalty_or_bonus
        }
}

/// Two breakdowns that agree in everything but the contributions.
pub open spec fn same_but_contributions(a: Seq<FactorResult>, b: Seq<FactorResult>) -> bool {
    &&& a.len() == b.len()
    &&& forall|i: int|
        #![trigger a[i]]
        0 <= i < a.len() ==> {
            &&& a[i].factor_name == b[i].factor_name
            &&& a[i].value == b[i].value
            &&& a[i].rule_applied == b[i].rule_applied
            &&& a[i].skipped == b[i].skipped
        }
}

proof fn lemma_mul_by_whole(a: int, w: int)
    ensures
        (a * (w * scale())) / scale() == a * w,
{
    assert(a * (w * scale()) == scale() * (a * w)) by (nonlinear_arith);
    vstd::arithmetic::div_mod::lemma_div_multiples_vanish(a * w, scale());
}

proof fn lemma_div_toward_zero_scaled(c: int, x: int, y: int)
    requires
        c > 0,
        y != 0,
    ensures
        div_toward_zero(c * x, c * y) == div_toward_zero(x, y),
{
    let ax = if x >= 0 { x } else { -x };
    let ay = if y > 0 { y } else { -y };
    vstd::arithmetic::div_mod::lemma_div_multiples_vanish_quotient(c, ax, ay);
    assert(c * ax == if c * x >= 0 { c * x } else { -(c * x) }) by (nonlinear_arith)
        requires
            c > 0,
            ax == if x >= 0 { x } else { -x },
    ;
    assert(c * ay == if c * y > 0 { c * y } else { -(c * y) }) by (nonlinear_arith)
        requires
            c > 0,
            ay == if y > 0 { y } else { -y },
    ;
    assert((c * x >= 0) == (x >= 0)) by (nonlinear_arith)
        requires
            c > 0,
    ;
    assert((c * y > 0) == (y > 0)) by (nonlinear_arith)
        requires
            c > 0,
    ;
}

proof fn lemma_rule_step_scaled(
    entity: Seq<(Seq<char>, i64)>,
    rule: Rule,
    srule: Rule,
    c: int,
    bias: i64,
    st: PassState,
    sst: PassState,
)
    requires
        c > 0,
        srule.weight == c * rule.weight,
        srule.factor_name == rule.factor_name,
        srule.threshold == rule.threshold,
        srule.direction == rule.direction,
        srule.penalty_or_bonus == rule.penalty_or_bonus,
        sst.0 == c * st.0,
        sst.1 == c * st.1,
        same_but_contributions(st.2, sst.2),
        spec_rule_step(entity, rule, bias, st) is Some,
        spec_rule_step(entity, srule, bias, sst) is Some,
    ensures
        ({
            let r = spec_rule_step(entity, rule, bias, st)->0;
            let s = spec_rule_step(entity, srule, bias, sst)->0;
            &&& s.0 == c * r.0
            &&& s.1 == c * r.1
            &&& same_but_contributions(r.2, s.2)
        }),
{
    let r = spec_rule_step(entity, rule, bias, st)->0;
    let s = spec_rule_step(entity, srule, bias, sst)->0;
    let w = fx_from_int(rule.weight as int)->0;
    let sw = fx_from_int(srule.weight as int)->0;
    assert(w == rule.weight * scale());
    assert(sw == c * w) by (nonlinear_arith)
        requires
            sw == srule.weight * scale(),
            srule.weight == c * rule.weight,
            w == rule.weight * scale(),
    ;
    match lookup(entity, rule.factor_name@) {
        None => {},
        Some(value) => {
            assert(s.1 == c * r.1) by (nonlinear_arith)
                requires
                    s.1 == sst.1 + sw,
                    r.1 == st.1 + w,
                    sst.1 == c * st.1,
                    sw == c * w,
            ;
            if rule_passes(rule.direction, value, rule.threshold) {
                let b = fx_from_int(rule.penalty_or_bonus as int)->0;
                let shift = fx_mul(bias, fx(5))->0;
                let adjusted = fx_add(b, shift)->0;
                lemma_mul_by_whole(adjusted as int, rule.weight as int);
                lemma_mul_by_whole(adjusted as int, srule.weight as int);
                let t = fx_mul(adjusted, w)->0;
                let ts = fx_mul(adjusted, sw)->0;
                assert(t == adjusted * rule.weight);
                assert(ts == adjusted * srule.weight);
                assert(ts == c * t) by (nonlinear_arith)
                    requires
                        ts == adjusted * srule.weight,
                        t == adjusted * rule.weight,
                        srule.weight == c * rule.weight,
                ;
                assert(s.0 == c * r.0) by (nonlinear_arith)
                    requires
                        s.0 == sst.0 + ts,
                        r.0 == st.0 + t,
                        sst.0 == c * st.0,
                        ts == c * t,
                ;
            }
        },
    }
    assert forall|i: int| #![trigger r.2[i]] 0 <= i < r.2.len() implies {
        &&& r.2[i].factor_name == s.2[i].factor_name
        &&& r.2[i].value == s.2[i].value
        &&& r.2[i].rule_applied == s.2[i].rule_applied
        &&& r.2[i].skipped == s.2[i].skipped
    } by {
        if i < st.2.len() {
            assert(r.2[i] == st.2[i]);
            assert(s.2[i] == sst.2[i]);
        }
    }
}

proof fn lemma_pass_scaled(
    entity: Seq<(Seq<char>, i64)>,
    rules: Seq<Rule>,
    scaled: Seq<Rule>,
    c: int,
    bias: i64,
    n: nat,
)
    requires
        c > 0,
        n <= rules.len(),
        weights_scaled(rules, scaled, c),
        spec_pass(entity, rules, bias, n) is Some,
        spec_pass(entity, scaled, bias, n) is Some,
    ensures
        ({
            let r = spec_pass(entity, rules, bias, n)->0;
            let s = spec_pass(entity, scaled, bias, n)->0;
            &&& s.0 == c * r.0
            &&& s.1 == c * r.1
            &&& same_but_contributions(r.2, s.2)
        }),
    decreases n,
{
    if n > 0 {
        let m = (n - 1) as nat;
        lemma_pass_scaled(entity, rules, scaled, c, bias, m);
        let i = m as int;
        assert(scaled[i].weight == c * rules[i].weight);
        lemma_rule_step_scaled(
            entity,
            rules[i],
            scaled[i],
            c,
            bias,
            spec_pass(entity, rules, bias, m)->0,
            spec_pass(entity, scaled, bias, m)->0,
        );
    } else {
        assert(c * 0 == 0) by (nonlinear_arith);
    }
}

proof fn lemma_next_score_scaled(c: int, score: i64, raw: i64, total: i64, sraw: i64, stotal: i64)
    requires
        c > 0,
        sraw == c * raw,
        stotal == c * total,
        spec_next_score(score, raw, total) is Some,
        spec_next_score(score, sraw, stotal) is Some,
    ensures
        spec_next_score(score, sraw, stotal) == spec_next_score(score, raw, total),
{
    assert((stotal > 0) == (total > 0)) by (nonlinear_arith)
        requires
            c > 0,
            stotal == c * total,
    ;
    if total > 0 {
        assert(fx(100) == 100 * scale());
        lemma_mul_by_whole(total as int, 100);
        lemma_mul_by_whole(stotal as int, 100);
        let m = fx_mul(total, fx(100))->0;
        let sm = fx_mul(stotal, fx(100))->0;
        assert(m == total * 100);
        assert(sm == stotal * 100);
        assert(sm == c * m) by (nonlinear_arith)
            requires
                sm == stotal * 100,
                m == total * 100,
                stotal == c * total,
        ;
        assert(sraw * scale() == c * (raw * scale())) by (nonlinear_arith)
            requires
                sraw == c * raw,
        ;
        lemma_div_toward_zero_scaled(c, raw * scale(), m as int);
    }
}

proof fn lemma_iterate_scaled(entity: Seq<(Seq<char>, i64)>, rules: Seq<Rule>, scaled: Seq<Rule>, c: int, k: nat)
    requires
        c > 0,
        weights_scaled(rules, scaled, c),
        spec_iterate(entity, rules, k) is Some,
        spec_iterate(entity, scaled, k) is Some,
    ensures
        ({
            let r = spec_iterate(entity, rules, k)->0;
            let s = spec_iterate(entity, scaled, k)->0;
            &&& s.0 == r.0
            &&& same_but_contributions(r.1, s.1)
        }),
    decreases k,
{
    if k > 0 {
        let j = (k - 1) as nat;
        lemma_iterate_scaled(entity, rules, scaled, c, j);
        let prev = spec_iterate(entity, rules, j)->0;
        let bias = spec_bias(j, prev.0)->0;
        lemma_pass_scaled(entity, rules, scaled, c, bias, rules.len());
        let p = spec_pass(entity, rules, bias, rules.len())->0;
        let q = spec_pass(entity, scaled, bias, scaled.len())->0;
        lemma_next_score_scaled(c, prev.0, p.0, p.1, q.0, q.1);
    }
}

/// Multiplying every rule weight by the same positive factor changes
/// neither the score, the tier, the correlation adjustment nor the number
/// of passes, and of the breakdown only the contributions: which rules
/// applied stays the same. Stated where both requests score without an
/// overflow.
pub proof fn lemma_weights_scaled(request: ScoringRequest, more: ScoringRequest, c: int)
    requires
        c > 0,
        more.entity@ == request.entity@,
        weights_scaled(request.rules@, more.rules@, c),
        more.correlations@ == request.correlations@,
        more.iterations == request.iterations,
        spec_evaluate(request) is Some,
        spec_evaluate(more) is Some,
    ensures
        ({
            let out = spec_evaluate(request)->0;
            let sout = spec_evaluate(more)->0;
            &&& sout.score == out.score
            &&& sout.tier == out.tier
            &&& sout.correlation_adjustment == out.correlation_adjustment
            &&& sout.iterations_run == out.iterations_run
            &&& same_but_contributions(out.breakdown, sout.breakdown)
        }),
{
    let iterations = effective_iterations(request.iterations);
    lemma_iterate_scaled(request.entity@, request.rules@, more.rules@, c, iterations as nat);
}

proof fn lemma_pass_none(entity: Seq<(Seq<char>, i64)>, rules: Seq<Rule>, bias: i64, k: nat, m: nat)
    requires
        k <= m,
        spec_pass(entity, rules, bias, k) is None,
    ensures
        spec_pass(entity, rules, bias, m) is None,
    decreases m - k,
{
    if k < m {
        lemma_pass_none(entity, rules, bias, k, (m - 1) as nat);
    }
}

proof fn lemma_iterate_none(entity: Seq<(Seq<char>, i64)>, rules: Seq<Rule>, k: nat, m: nat)
    requires
        k <= m,
        spec_iterate(entity, rules, k) is None,
    ensures
        spec_iterate(entity, rules, m) is None,
    decreases m - k,
{
    if k < m {
        lemma_iterate_none(entity, rules, k, (m - 1) as nat);
    }
}

proof fn lemma_correlations_none(
    entity: Seq<(Seq<char>, i64)>,
    pairs: Seq<CorrelationPair>,
    k: nat,
    m: nat,
)
    requires
        k <= m,
        spec_correlations(entity, pairs, k) is None,
    ensures
        spec_correlations(entity, pairs, m) is None,
    decreases m - k,
{
    if k < m {
        lemma_correlations_none(entity, pairs, k, (m - 1) as nat);
    }
}

/// One pass over all rules with the given bias.
fn run_pass(entity: &Entity, rules: &Vec<Rule>, bias: i64) -> (r: Option<(i64, i64, Vec<FactorResult>)>)
    ensures
        match r {
            Some(x) => spec_pass(entity@, rules@, bias, rules@.len()) == Some((x.0, x.1, x.2@)),
            None => spec_pass(entity@, rules@, bias, rules@.len()) is None,
        },
{
    let mut raw: i64 = 0;
    let mut total: i64 = 0;
    let mut breakdown: Vec<FactorResult> = Vec::new();
    let n = rules.len();
    let mut i: usize = 0;
    proof {
        assert(breakdown@ =~= Seq::<FactorResult>::empty());
    }
    while i < n
        invariant
            n == rules@.len(),
            0 <= i <= n,
            spec_pass(entity@, rules@, bias, i as nat) == Some((raw, total, breakdown@)),
        decreases n - i,
    {
        let rule = &rules[i];
        let weight = match fx_from_i64(rule.weight) {
            Some(w) => w,
            None => {
                proof {
                    lemma_pass_none(entity@, rules@, bias, (i + 1) as nat, n as nat);
                }
                return None;
            },
        };
        match entity.get(&rule.factor_name) {
            None => {
                breakdown.push(
                    FactorResult {
                        factor_name: rule.factor_name.clone(),
                        value: None,
                        rule_applied: false,
                        contribution: 0,
                        skipped: true,
                    },
                );
            },
            Some(value) => {
                total = match fx_checked_add(total, weight) {
                    Some(t) => t,
                    None => {
                        proof {
                            lemma_pass_none(entity@, rules@, bias, (i + 1) as nat, n as nat);
                        }
                        return None;
                    },
                };
                let passes = rule_passes_exec(rule.direction, value, rule.threshold);
                let contribution: i64 = if passes {
                    let weighted = match rule_term(rule.penalty_or_bonus, bias, weight) {
                        Some(x) => x,
                        None => {
                            proof {
                                lemma_pass_none(entity@, rules@, bias, (i + 1) as nat, n as nat);
                            }
                            return None;
                        },
                    };
                    raw = match fx_checked_add(raw, weighted) {
                        Some(x) => x,
                        None => {
                            proof {
                                lemma_pass_none(entity@, rules@, bias, (i + 1) as nat, n as nat);
                            }
                            return None;
                        },
                    };
                    proof {
                        lemma_to_int_fits(weighted);
                    }
                    fx_to_i64(weighted)
                } else {
                    0
                };
                breakdown.push(
                    FactorResult {
                        factor_name: rule.factor_name.clone(),
                        value: Some(value),
                        rule_applied: passes,
                        contribution,
                        skipped: false,
                    },
                );
            },
        }
        i = i + 1;
    }
    Some((raw, total, breakdown))
}

/// Sum of the correlation terms of all pairs.
fn run_correlations(entity: &Entity, pairs: &Vec<CorrelationPair>) -> (r: Option<i64>)
    ensures
        r == spec_correlations(entity@, pairs@, pairs@.len()),
{
    let mut sum: i64 = 0;
    let n = pairs.len();
    let mut i: usize = 0;
    while i < n
        invariant
            n == pairs@.len(),
            0 <= i <= n,
            spec_correlations(entity@, pairs@, i as nat) == Some(sum),
        decreases n - i,
    {
        let pair = &pairs[i];
        let a: i64 = match entity.get(&pair.factor_a) {
            Some(v) => v,
            None => 0,
        };
        let b: i64 = match entity.get(&pair.factor_b) {
            Some(v) => v,
            None => 0,
        };
        let t = match correlation_term(a, b, pair.weight) {
            Some(x) => x,
            None => {
                proof {
                    lemma_correlations_none(entity@, pairs@, (i + 1) as nat, n as nat);
                }
                return None;
            },
        };
        sum = match fx_checked_add(sum, t) {
            Some(x) => x,
            None => {
                proof {
                    lemma_correlations_none(entity@, pairs@, (i + 1) as nat, n as nat);
                }
                return None;
            },
        };
        i = i + 1;
    }
    Some(sum)
}

/// Scores a request, or gives `None` when a fixed-point operation
/// overflows (where the arithmetic would panic).
pub fn evaluate_checked(request: &ScoringRequest) -> (r: Option<ScoringResult>)
    ensures
        match r {
            Some(res) => spec_evaluate(*request) == Some(res@),
            None => spec_evaluate(*request) is None,
        },
{
    let iterations = effective_iterations_exec(request.iterations);
    let mut score: i64 = 0;
    let mut breakdown: Vec<FactorResult> = Vec::new();
    let mut k: u32 = 0;
    proof {
        assert(breakdown@ =~= Seq::<FactorResult>::empty());
    }
    while k < iterations
        invariant
            0 <= k <= iterations,
            iterations == effective_iterations(request.iterations),
            spec_iterate(request.entity@, request.rules@, k as nat) == Some((score, breakdown@)),
        decreases iterations - k,
    {
        let bias = match bias_exec(k, score) {
            Some(b) => b,
            None => {
                proof {
                    lemma_iterate_none(request.entity@, request.rules@, (k + 1) as nat, iterations as nat);
                }
                return None;
            },
        };
        let pass = match run_pass(&request.entity, &request.rules, bias) {
            Some(p) => p,
            None => {
                proof {
                    lemma_iterate_none(request.entity@, request.rules@, (k + 1) as nat, iterations as nat);
                }
                return None;
            },
        };
        let (raw, total, bd) = pass;
        score = match next_score(score, raw, total) {
            Some(s) => s,
            None => {
                proof {
                    lemma_iterate_none(request.entity@, request.rules@, (k + 1) as nat, iterations as nat);
                }
                return None;
            },
        };
        breakdown = bd;
        k = k + 1;
    }
    let correlation = run_correlations(&request.entity, &request.correlations)?;
    let (normalized, adjustment) = finish(score, correlation)?;
    let tier = tier_for(normalized);
    Some(
        ScoringResult {
            score: normalized,
            tier,
            breakdown,
            correlation_adjustment: adjustment,
            iterations_run: iterations,
        },
    )
}

/// Scores a request. The caller must make sure that no fixed-point
/// operation overflows (`evaluate_checked` tells); the score lies in
/// `0..=1000` and the breakdown reports every rule.
pub fn evaluate(request: &ScoringRequest) -> (r: ScoringResult)
    requires
        spec_evaluate(*request) is Some,
    ensures
        spec_evaluate(*request) == Some(r@),
        0 <= r.score <= 1000,
        r.tier == tier_of(r.score as int),
        r.iterations_run == effective_iterations(request.iterations),
        breakdown_reports(request.entity@, request.rules@, request.rules@.len(), r.breakdown@),
{
    proof {
        lemma_evaluate_laws(*request);
    }
    match evaluate_checked(request) {
        Some(res) => res,
        None => ScoringResult {
            score: 0,
            tier: crate::model::RiskTier::Low,
            breakdown: Vec::new(),
            correlation_adjustment: 0,
            iterations_run: 0,
        },
    }
}

} // verus!
