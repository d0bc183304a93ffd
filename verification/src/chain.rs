//! Conversion between a scoring request and the parallel arrays that the
//! scoring contracts take, and between the contracts' answer and a response.

use crate::engine::{arrays_cover, engine_outcome, rules_of, EngineRules};
use crate::entity::{lemma_position_lookup, lookup, position, Entity};
use crate::model::{CorrelationPair, Direction, Rule, ScoringRequest};
use crate::score_math::{effective_iterations, effective_iterations_exec, tier_number, tier_of};
use vstd::prelude::*;

verus! {

/// What a contract answered, with the gas its call was estimated to use.
#[derive(Debug)]
pub struct ContractResponse {
    pub score: i64,
    pub tier: i64,
    pub correlation_adjustment: i64,
    pub iterations_run: i64,
    pub gas_used: u64,
}

/// The contracts' code for a direction: 1 for above, 0 for below.
pub open spec fn direction_code(d: Direction) -> i64 {
    match d {
        Direction::Above => 1,
        Direction::Below => 0,
    }
}

/// The last of the first `n` rules whose factor sits at position `j` of
/// the entity, if any.
pub open spec fn last_rule_at(entity: Seq<(Seq<char>, i64)>, rules: Seq<Rule>, n: nat, j: int) -> Option<
    Rule,
>
    decreases n,
{
    if n == 0 {
        None
    } else if position(entity, rules[n - 1].factor_name@) == Some(j) {
        Some(rules[n - 1])
    } else {
        last_rule_at(entity, rules, (n - 1) as nat, j)
    }
}

/// Weight, threshold, direction code and bonus that the arrays carry for a
/// position: those of its rule, or `(0, 0, 1, 0)` when it has none.
pub open spec fn rule_columns(r: Option<Rule>) -> (i64, i64, i64, i64) {
    match r {
        Some(rule) => (
            rule.weight,
            rule.threshold,
            direction_code(rule.direction),
            rule.penalty_or_bonus,
        ),
        None => (0, 0, 1, 0),
    }
}

/// The four rule arrays agree, position by position, with the last of the
/// first `n` rules at that position.
pub open spec fn columns_match(
    entity: Seq<(Seq<char>, i64)>,
    rules: Seq<Rule>,
    n: nat,
    weights: Seq<i64>,
    thresholds: Seq<i64>,
    directions: Seq<i64>,
    bonuses: Seq<i64>,
) -> bool {
    &&& thresholds.len() == weights.len()
    &&& directions.len() == weights.len()
    &&& bonuses.len() == weights.len()
    &&& forall|j: int|
        0 <= j < weights.len() ==> {
            let c = rule_columns(last_rule_at(entity, rules, n, j));
            &&& #[trigger] weights[j] == c.0
            &&& thresholds[j] == c.1
            &&& directions[j] == c.2
            &&& bonuses[j] == c.3
        }
}

/// The correlation pairs of the first `n` whose two factors are both
/// present, as (position of a, position of b, weight).
pub open spec fn pair_columns(
    entity: Seq<(Seq<char>, i64)>,
    pairs: Seq<CorrelationPair>,
    n: nat,
) -> Seq<(u32, u32, i64)>
    decreases n,
{
    if n == 0 {
        Seq::empty()
    } else {
        let prev = pair_columns(entity, pairs, (n - 1) as nat);
        let p = pairs[n - 1];
        match (position(entity, p.factor_a@), position(entity, p.factor_b@)) {
            (Some(a), Some(b)) => prev.push((a as u32, b as u32, p.weight)),
            _ => prev,
        }
    }
}

/// The factor values of an entity, in its order.
pub open spec fn factor_values(entity: Seq<(Seq<char>, i64)>) -> Seq<i64> {
    entity.map_values(|e: (Seq<char>, i64)| e.1)
}

/// The part of the call data that does not depend on the rules: factor
/// values in entity order, one rule slot per factor, per correlation pair
/// whose two factors are present their positions and the pair's weight,
/// and the number of passes.
pub open spec fn values_and_pairs_match(
    entity: Seq<(Seq<char>, i64)>,
    pairs: Seq<CorrelationPair>,
    requested_iterations: u32,
    factors: Seq<i64>,
    weights: Seq<i64>,
    corr_a: Seq<u32>,
    corr_b: Seq<u32>,
    corr_weights: Seq<i64>,
    iterations: u32,
) -> bool {
    let cols = pair_columns(entity, pairs, pairs.len());
    &&& factors == factor_values(entity)
    &&& weights.len() == entity.len()
    &&& corr_a.len() == cols.len()
    &&& corr_b.len() == cols.len()
    &&& corr_weights.len() == cols.len()
    &&& forall|i: int|
        0 <= i < cols.len() ==> {
            &&& #[trigger] corr_a[i] == cols[i].0
            &&& corr_b[i] == cols[i].1
            &&& corr_weights[i] == cols[i].2
        }
    &&& iterations == effective_iterations(requested_iterations)
}

/// The call data of a request: factor values in entity order; per
/// position the columns of the last rule naming that factor (defaults
/// where none does); per correlation pair whose two factors are present,
/// their positions and the pair's weight; and the number of passes.
pub open spec fn prepared_from(
    entity: Seq<(Seq<char>, i64)>,
    rules: Seq<Rule>,
    pairs: Seq<CorrelationPair>,
    requested_iterations: u32,
    factors: Seq<i64>,
    weights: Seq<i64>,
    thresholds: Seq<i64>,
    directions: Seq<i64>,
    bonuses: Seq<i64>,
    corr_a: Seq<u32>,
    corr_b: Seq<u32>,
    corr_weights: Seq<i64>,
    iterations: u32,
) -> bool {
    &&& values_and_pairs_match(
        entity,
        pairs,
        requested_iterations,
        factors,
        weights,
        corr_a,
        corr_b,
        corr_weights,
        iterations,
    )
    &&& columns_match(entity, rules, rules.len(), weights, thresholds, directions, bonuses)
}

/// The call data asks for as many passes as the request does, and for 10
/// when the request asks for none.
pub proof fn lemma_prepared_passes(
    entity: Seq<(Seq<char>, i64)>,
    rules: Seq<Rule>,
    pairs: Seq<CorrelationPair>,
    requested_iterations: u32,
    factors: Seq<i64>,
    weights: Seq<i64>,
    thresholds: Seq<i64>,
    directions: Seq<i64>,
    bonuses: Seq<i64>,
    corr_a: Seq<u32>,
    corr_b: Seq<u32>,
    corr_weights: Seq<i64>,
    iterations: u32,
)
    requires
        prepared_from(
            entity,
            rules,
            pairs,
            requested_iterations,
            factors,
            weights,
            thresholds,
            directions,
            bonuses,
            corr_a,
            corr_b,
            corr_weights,
            iterations,
        ),
    ensures
        requested_iterations != 0 ==> iterations == requested_iterations,
        requested_iterations == 0 ==> iterations == 10,
{
}

proof fn lemma_last_rule_inserted(
    entity: Seq<(Seq<char>, i64)>,
    rules: Seq<Rule>,
    k: int,
    rule: Rule,
    m: nat,
    j: int,
)
    requires
        0 <= k <= rules.len(),
        m <= rules.len(),
        position(entity, rule.factor_name@) is None,
    ensures
        m <= k ==> last_rule_at(entity, rules.insert(k, rule), m, j) == last_rule_at(
            entity,
            rules,
            m,
            j,
        ),
        m >= k ==> last_rule_at(entity, rules.insert(k, rule), m + 1, j) == last_rule_at(
            entity,
            rules,
            m,
            j,
        ),
    decreases m,
{
    let more = rules.insert(k, rule);
    if m > 0 {
        lemma_last_rule_inserted(entity, rules, k, rule, (m - 1) as nat, j);
    }
    if m >= k {
        assert(more[k] == rule);
        if m > k {
            assert(more[m as int] == rules[m - 1]);
        }
    }
    if m <= k && m > 0 {
        assert(more[m - 1] == rules[m - 1]);
    }
}

/// A rule naming a factor the entity lacks, inserted anywhere among the
/// rules, leaves the call data unchanged: the same arrays are the call data
/// of both requests.
pub proof fn lemma_absent_rule_ignored(
    entity: Seq<(Seq<char>, i64)>,
    rules: Seq<Rule>,
    k: int,
    rule: Rule,
    pairs: Seq<CorrelationPair>,
    requested_iterations: u32,
    factors: Seq<i64>,
    weights: Seq<i64>,
    thresholds: Seq<i64>,
    directions: Seq<i64>,
    bonuses: Seq<i64>,
    corr_a: Seq<u32>,
    corr_b: Seq<u32>,
    corr_weights: Seq<i64>,
    iterations: u32,
)
    requires
        0 <= k <= rules.len(),
        lookup(entity, rule.factor_name@) is None,
    ensures
        prepared_from(
            entity,
            rules.insert(k, rule),
            pairs,
            requested_iterations,
            factors,
            weights,
            thresholds,
            directions,
            bonuses,
            corr_a,
            corr_b,
            corr_weights,
            iterations,
        ) == prepared_from(
            entity,
            rules,
            pairs,
            requested_iterations,
            factors,
            weights,
            thresholds,
            directions,
            bonuses,
            corr_a,
            corr_b,
            corr_weights,
            iterations,
        ),
{
    lemma_position_lookup(entity, rule.factor_name@);
    let more = rules.insert(k, rule);
    assert forall|j: int| #![auto]
        last_rule_at(entity, more, more.len(), j) == last_rule_at(entity, rules, rules.len(), j) by {
        lemma_last_rule_inserted(entity, rules, k, rule, rules.len(), j);
    }
    assert(columns_match(entity, more, more.len(), weights, thresholds, directions, bonuses)
        == columns_match(entity, rules, rules.len(), weights, thresholds, directions, bonuses)) by {
        if columns_match(entity, rules, rules.len(), weights, thresholds, directions, bonuses) {
            assert forall|j: int| 0 <= j < weights.len() implies {
                let c = rule_columns(last_rule_at(entity, more, more.len(), j));
                &&& #[trigger] weights[j] == c.0
                &&& thresholds[j] == c.1
                &&& directions[j] == c.2
                &&& bonuses[j] == c.3
            } by {
                assert(last_rule_at(entity, more, more.len(), j) == last_rule_at(entity, rules, rules.len(), j));
            }
        }
        if columns_match(entity, more, more.len(), weights, thresholds, directions, bonuses) {
            assert forall|j: int| 0 <= j < weights.len() implies {
                let c = rule_columns(last_rule_at(entity, rules, rules.len(), j));
                &&& #[trigger] weights[j] == c.0
                &&& thresholds[j] == c.1
                &&& directions[j] == c.2
                &&& bonuses[j] == c.3
            } by {
                assert(last_rule_at(entity, more, more.len(), j) == last_rule_at(entity, rules, rules.len(), j));
            }
        }
    }
}

/// The call data of a request is unique: two sets of arrays that are both
/// its call data are equal.
pub proof fn lemma_prepared_unique(
    entity: Seq<(Seq<char>, i64)>,
    rules: Seq<Rule>,
    pairs: Seq<CorrelationPair>,
    requested_iterations: u32,
    factors: Seq<i64>,
    weights: Seq<i64>,
    thresholds: Seq<i64>,
    directions: Seq<i64>,
    bonuses: Seq<i64>,
    corr_a: Seq<u32>,
    corr_b: Seq<u32>,
    corr_weights: Seq<i64>,
    iterations: u32,
    factors2: Seq<i64>,
    weights2: Seq<i64>,
    thresholds2: Seq<i64>,
    directions2: Seq<i64>,
    bonuses2: Seq<i64>,
    corr_a2: Seq<u32>,
    corr_b2: Seq<u32>,
    corr_weights2: Seq<i64>,
    iterations2: u32,
)
    requires
        prepared_from(
            entity,
            rules,
            pairs,
            requested_iterations,
            factors,
            weights,
            thresholds,
            directions,
            bonuses,
            corr_a,
            corr_b,
            corr_weights,
            iterations,
        ),
        prepared_from(
            entity,
            rules,
            pairs,
            requested_iterations,
            factors2,
            weights2,
            thresholds2,
            directions2,
            bonuses2,
            corr_a2,
            corr_b2,
            corr_weights2,
            iterations2,
        ),
    ensures
        factors == factors2,
        weights == weights2,
        thresholds == thresholds2,
        directions == directions2,
        bonuses == bonuses2,
        corr_a == corr_a2,
        corr_b == corr_b2,
        corr_weights == corr_weights2,
        iterations == iterations2,
{
    assert forall|j: int| 0 <= j < weights.len() implies weights[j] == weights2[j] && thresholds[j]
        == thresholds2[j] && directions[j] == directions2[j] && bonuses[j] == bonuses2[j] by {
        assert(weights[j] == weights2[j]);
    }
    assert(weights =~= weights2);
    assert(thresholds =~= thresholds2);
    assert(directions =~= directions2);
    assert(bonuses =~= bonuses2);
    let cols = pair_columns(entity, pairs, pairs.len());
    assert forall|i: int| 0 <= i < corr_a.len() implies corr_a[i] == corr_a2[i] && corr_b[i]
        == corr_b2[i] && corr_weights[i] == corr_weights2[i] by {
        assert(corr_a[i] == cols[i].0);
        assert(corr_a2[i] == cols[i].0);
    }
    assert(corr_a =~= corr_a2);
    assert(corr_b =~= corr_b2);
    assert(corr_weights =~= corr_weights2);
}

/// Position of the factor named `name` in the entity.
fn find_factor(entity: &Entity, name: &String) -> (r: Option<usize>)
    ensures
        match r {
            Some(i) => position(entity@, name@) == Some(i as int) && i < entity@.len(),
            None => position(entity@, name@) is None,
        },
{
    let n = entity.len();
    let ghost s = entity@;
    let mut i: usize = 0;
    proof {
        assert(s.skip(0) =~= s);
    }
    while i < n
        invariant
            n == s.len(),
            s == entity@,
            0 <= i <= n,
            position(s, name@) == match position(s.skip(i as int), name@) {
                Some(p) => Some(p + i),
                None => None,
            },
        decreases n - i,
    {
        let ghost rest = s.skip(i as int);
        proof {
            assert(rest[0] == s[i as int]);
            assert(rest.drop_first() =~= s.skip(i + 1));
        }
        if *entity.name_at(i) == *name {
            return Some(i);
        }
        i = i + 1;
    }
    None
}

proof fn lemma_last_rule_after(
    entity: Seq<(Seq<char>, i64)>,
    rules: Seq<Rule>,
    n: nat,
    j: int,
)
    requires
        n < rules.len(),
    ensures
        position(entity, rules[n as int].factor_name@) == Some(j) ==> last_rule_at(
            entity,
            rules,
            n + 1,
            j,
        ) == Some(rules[n as int]),
        position(entity, rules[n as int].factor_name@) != Some(j) ==> last_rule_at(
            entity,
            rules,
            n + 1,
            j,
        ) == last_rule_at(entity, rules, n, j),
{
}

/// Writing the columns of rule `n` at its factor's position extends the
/// match from the first `n` rules to the first `n + 1`.
proof fn lemma_columns_set(
    entity: Seq<(Seq<char>, i64)>,
    rules: Seq<Rule>,
    n: nat,
    idx: int,
    weights: Seq<i64>,
    thresholds: Seq<i64>,
    directions: Seq<i64>,
    bonuses: Seq<i64>,
)
    requires
        n < rules.len(),
        position(entity, rules[n as int].factor_name@) == Some(idx),
        0 <= idx < weights.len(),
        columns_match(entity, rules, n, weights, thresholds, directions, bonuses),
        forall|j: int| weights.len() <= j ==> #[trigger] last_rule_at(entity, rules, n, j) is None,
    ensures
        ({
            let r = rules[n as int];
            let w1 = weights.update(idx, r.weight);
            &&& columns_match(
                entity,
                rules,
                n + 1,
                w1,
                thresholds.update(idx, r.threshold),
                directions.update(idx, direction_code(r.direction)),
                bonuses.update(idx, r.penalty_or_bonus),
            )
            &&& forall|j: int| w1.len() <= j ==> #[trigger] last_rule_at(entity, rules, n + 1, j) is None
        }),
{
    let r = rules[n as int];
    let w1 = weights.update(idx, r.weight);
    let t1 = thresholds.update(idx, r.threshold);
    let d1 = directions.update(idx, direction_code(r.direction));
    let b1 = bonuses.update(idx, r.penalty_or_bonus);
    assert forall|j: int| 0 <= j < w1.len() implies {
        let c = rule_columns(last_rule_at(entity, rules, n + 1, j));
        &&& #[trigger] w1[j] == c.0
        &&& t1[j] == c.1
        &&& d1[j] == c.2
        &&& b1[j] == c.3
    } by {
        lemma_last_rule_after(entity, rules, n, j);
        if j != idx {
            assert(w1[j] == weights[j]);
        }
    }
    assert forall|j: int| w1.len() <= j implies #[trigger] last_rule_at(entity, rules, n + 1, j)
        is None by {
        lemma_last_rule_after(entity, rules, n, j);
    }
}

/// A rule whose factor is absent leaves the match unchanged.
proof fn lemma_columns_skip(
    entity: Seq<(Seq<char>, i64)>,
    rules: Seq<Rule>,
    n: nat,
    weights: Seq<i64>,
    thresholds: Seq<i64>,
    directions: Seq<i64>,
    bonuses: Seq<i64>,
)
    requires
        n < rules.len(),
        position(entity, rules[n as int].factor_name@) is None,
        columns_match(entity, rules, n, weights, thresholds, directions, bonuses),
        forall|j: int| weights.len() <= j ==> #[trigger] last_rule_at(entity, rules, n, j) is None,
    ensures
        columns_match(entity, rules, n + 1, weights, thresholds, directions, bonuses),
        forall|j: int| weights.len() <= j ==> #[trigger] last_rule_at(entity, rules, n + 1, j) is None,
{
    assert forall|j: int| 0 <= j < weights.len() implies {
        let c = rule_columns(last_rule_at(entity, rules, n + 1, j));
        &&& #[trigger] weights[j] == c.0
        &&& thresholds[j] == c.1
        &&& directions[j] == c.2
        &&& bonuses[j] == c.3
    } by {
        lemma_last_rule_after(entity, rules, n, j);
        assert(position(entity, rules[n as int].factor_name@) != Some(j));
        assert(last_rule_at(entity, rules, n + 1, j) == last_rule_at(entity, rules, n, j));
        let c0 = rule_columns(last_rule_at(entity, rules, n, j));
        assert(weights[j] == c0.0);
    }
    assert forall|j: int| weights.len() <= j implies #[trigger] last_rule_at(entity, rules, n + 1, j)
        is None by {
        lemma_last_rule_after(entity, rules, n, j);
    }
}

/// Converts a scoring request into the parallel arrays that both contracts
/// take: factor values in name order; per factor position the weight,
/// threshold, direction code and bonus of the last rule naming that factor
/// (defaults `0, 0, 1, 0` where none does); the positions and weight of
/// each correlation pair whose two factors are present; and the number of
/// passes (10 when the request names none).
pub fn prepare_call_data(request: &ScoringRequest) -> (r: (
    Vec<i64>,
    Vec<i64>,
    Vec<i64>,
    Vec<i64>,
    Vec<i64>,
    Vec<u32>,
    Vec<u32>,
    Vec<i64>,
    u32,
))
    ensures
        prepared_from(
            request.entity@,
            request.rules@,
            request.correlations@,
            request.iterations,
            r.0@,
            r.1@,
            r.2@,
            r.3@,
            r.4@,
            r.5@,
            r.6@,
            r.7@,
            r.8,
        ),
        arrays_cover(rules_of(r.0@, r.1@, r.2@, r.3@, r.4@), r.5@, r.6@, r.7@),
{
    let entity = &request.entity;
    let ghost ent = entity@;
    let nf = entity.len();

    // factor values in name order
    let mut factors: Vec<i64> = Vec::new();
    let mut k: usize = 0;
    while k < nf
        invariant
            nf == ent.len(),
            ent == entity@,
            0 <= k <= nf,
            factors@ == ent.take(k as int).map_values(|e: (Seq<char>, i64)| e.1),
        decreases nf - k,
    {
        factors.push(entity.value_at(k));
        proof {
            assert(ent.take(k + 1) =~= ent.take(k as int).push(ent[k as int]));
            assert(factors@ =~= ent.take(k + 1).map_values(|e: (Seq<char>, i64)| e.1));
        }
        k = k + 1;
    }
    proof {
        assert(ent.take(nf as int) =~= ent);
        assert(factors@ == factor_values(ent));
    }

    // per-position rule columns
    let rules = &request.rules;
    let ghost rs = rules@;
    let mut weights: Vec<i64> = Vec::new();
    let mut thresholds: Vec<i64> = Vec::new();
    let mut directions: Vec<i64> = Vec::new();
    let mut bonuses: Vec<i64> = Vec::new();
    let nr = rules.len();
    let mut i: usize = 0;
    while i < nr
        invariant
            nr == rs.len(),
            rs == rules@,
            ent == entity@,
            nf == ent.len(),
            0 <= i <= nr,
            weights@.len() <= nf,
            columns_match(ent, rs, i as nat, weights@, thresholds@, directions@, bonuses@),
            forall|j: int|
                weights@.len() <= j ==> #[trigger] last_rule_at(ent, rs, i as nat, j) is None,
        decreases nr - i,
    {
        let rule = &rules[i];
        match find_factor(entity, &rule.factor_name) {
            Some(idx) => {
                while weights.len() <= idx
                    invariant
                        idx < nf,
                        nf == ent.len(),
                        weights@.len() <= nf,
                        columns_match(ent, rs, i as nat, weights@, thresholds@, directions@, bonuses@),
                        forall|j: int|
                            weights@.len() <= j ==> #[trigger] last_rule_at(ent, rs, i as nat, j) is None,
                    decreases idx + 1 - weights@.len(),
                {
                    proof {
                        assert(last_rule_at(ent, rs, i as nat, weights@.len() as int) is None);
                    }
                    weights.push(0i64);
                    thresholds.push(0i64);
                    directions.push(1i64);
                    bonuses.push(0i64);
                }
                let ghost w0 = weights@;
                let ghost t0 = thresholds@;
                let ghost d0 = directions@;
                let ghost b0 = bonuses@;
                weights.set(idx, rule.weight);
                thresholds.set(idx, rule.threshold);
                let code: i64 = match rule.direction {
                    Direction::Above => 1,
                    Direction::Below => 0,
                };
                directions.set(idx, code);
                bonuses.set(idx, rule.penalty_or_bonus);
                proof {
                    lemma_columns_set(ent, rs, i as nat, idx as int, w0, t0, d0, b0);
                    assert(weights@ == w0.update(idx as int, rs[i as int].weight));
                    assert(thresholds@ == t0.update(idx as int, rs[i as int].threshold));
                    assert(directions@ == d0.update(idx as int, direction_code(rs[i as int].direction)));
                    assert(bonuses@ == b0.update(idx as int, rs[i as int].penalty_or_bonus));
                }
            },
            None => {
                proof {
                    lemma_columns_skip(ent, rs, i as nat, weights@, thresholds@, directions@, bonuses@);
                }
            },
        }
        i = i + 1;
    }
    // pad to the number of factors
    while weights.len() < nf
        invariant
            nf == ent.len(),
            weights@.len() <= nf,
            columns_match(ent, rs, nr as nat, weights@, thresholds@, directions@, bonuses@),
            forall|j: int|
                weights@.len() <= j ==> #[trigger] last_rule_at(ent, rs, nr as nat, j) is None,
        decreases nf - weights@.len(),
    {
        proof {
            assert(last_rule_at(ent, rs, nr as nat, weights@.len() as int) is None);
        }
        weights.push(0);
        thresholds.push(0);
        directions.push(1);
        bonuses.push(0);
    }

    // correlation pairs
    let pairs = &request.correlations;
    let ghost ps = pairs@;
    let np = pairs.len();
    let mut corr_a: Vec<u32> = Vec::new();
    let mut corr_b: Vec<u32> = Vec::new();
    let mut corr_weights: Vec<i64> = Vec::new();
    let mut m: usize = 0;
    while m < np
        invariant
            np == ps.len(),
            ps == pairs@,
            ent == entity@,
            0 <= m <= np,
            corr_a@.len() == pair_columns(ent, ps, m as nat).len(),
            corr_b@.len() == corr_a@.len(),
            corr_weights@.len() == corr_a@.len(),
            forall|t: int|
                0 <= t < corr_a@.len() ==> {
                    let c = pair_columns(ent, ps, m as nat)[t];
                    &&& #[trigger] corr_a@[t] == c.0
                    &&& corr_b@[t] == c.1
                    &&& corr_weights@[t] == c.2
                },
        decreases np - m,
    {
        let pair = &pairs[m];
        let fa = find_factor(entity, &pair.factor_a);
        let fb = find_factor(entity, &pair.factor_b);
        match (fa, fb) {
            (Some(a), Some(b)) => {
                corr_a.push(a as u32);
                corr_b.push(b as u32);
                corr_weights.push(pair.weight);
            },
            _ => {},
        }
        m = m + 1;
    }

    let iterations = effective_iterations_exec(request.iterations);
    (factors, weights, thresholds, directions, bonuses, corr_a, corr_b, corr_weights, iterations)
}

/// Number `i` of an answer, 0 where the answer is shorter.
pub open spec fn answer_field(data: Seq<i64>, i: int) -> i64 {
    if 0 <= i < data.len() {
        data[i]
    } else {
        0
    }
}

/// Reading the scoring contract's answer gives back its score, which lies
/// in `0..=1000`, the tier number of that score, its correlation adjustment
/// and its number of passes.
pub proof fn lemma_read_contract_answer(
    r: EngineRules,
    corr_a: Seq<u32>,
    corr_b: Seq<u32>,
    corr_weights: Seq<i64>,
    iterations: u32,
)
    requires
        engine_outcome(r, corr_a, corr_b, corr_weights, iterations) is Some,
    ensures
        ({
            let v = engine_outcome(r, corr_a, corr_b, corr_weights, iterations)->0;
            &&& answer_field(v, 0) == v[0]
            &&& 0 <= answer_field(v, 0) <= 1000
            &&& answer_field(v, 1) == tier_number(tier_of(answer_field(v, 0) as int))
            &&& answer_field(v, 2) == v[2]
            &&& answer_field(v, 3) == effective_iterations(iterations) as i64
        }),
{
}

/// Reads a contract's answer: score, tier, correlation adjustment and
/// passes are its first four numbers, each 0 where the answer is shorter.
pub fn parse_result(data: Vec<i64>, gas: u64) -> (r: ContractResponse)
    ensures
        r.score == answer_field(data@, 0),
        r.tier == answer_field(data@, 1),
        r.correlation_adjustment == answer_field(data@, 2),
        r.iterations_run == answer_field(data@, 3),
        r.gas_used == gas,
{
    let score: i64 = if data.len() > 0 { data[0] } else { 0 };
    let tier: i64 = if data.len() > 1 { data[1] } else { 0 };
    let correlation_adjustment: i64 = if data.len() > 2 { data[2] } else { 0 };
    let iterations_run: i64 = if data.len() > 3 { data[3] } else { 0 };
    ContractResponse { score, tier, correlation_adjustment, iterations_run, gas_used: gas }
}

} // verus!
