//! The fixed-point formulas shared by both scoring engines: the bias fed
//! back between passes, the weighted term of a rule that applies, the score
//! a pass yields, the damped correlation series, and the final clamp and tier.
//!
//! Every formula is `None` exactly when one of its fixed-point operations
//! overflows (or divides by zero).

use crate::fixed_point::{
    fx_add, fx_checked_add, fx_checked_div, fx_checked_mul, fx_const, fx_div, fx_from_i64, fx_from_int,
    div_toward_zero, fit, fx_mul, fx_to_i64, fx_to_int, scale,
};
use crate::model::{Direction, RiskTier};
use vstd::prelude::*;

verus! {

/// Raw bits of the integer constant `x`.
pub open spec fn fx(x: int) -> i64 {
    (x * scale()) as i64
}

/// Whether a rule's condition holds for a factor value.
pub open spec fn rule_passes(direction: Direction, value: i64, threshold: i64) -> bool {
    match direction {
        Direction::Above => value >= threshold,
        Direction::Below => value <= threshold,
    }
}

/// The bias of a pass: zero in the first pass, then the previous score
/// divided by 1000.
pub open spec fn spec_bias(pass: nat, score: i64) -> Option<i64> {
    if pass == 0 {
        Some(0)
    } else {
        fx_div(score, fx(1000))
    }
}

/// The weighted term of a rule that applies: `(bonus + bias * 5) * weight`.
pub open spec fn spec_rule_term(bonus: i64, bias: i64, weight: i64) -> Option<i64> {
    match fx_from_int(bonus as int) {
        None => None,
        Some(b) => match fx_mul(bias, fx(5)) {
            None => None,
            Some(shift) => match fx_add(b, shift) {
                None => None,
                Some(adjusted) => fx_mul(adjusted, weight),
            },
        },
    }
}

/// The score after a pass: unchanged when the total weight is not positive,
/// else `raw / (total_weight * 100) * 1000`.
pub open spec fn spec_next_score(score: i64, raw: i64, total_weight: i64) -> Option<i64> {
    if total_weight > 0 {
        match fx_mul(total_weight, fx(100)) {
            None => None,
            Some(max_possible) => match fx_div(raw, max_possible) {
                None => None,
                Some(ratio) => fx_mul(ratio, fx(1000)),
            },
        }
    } else {
        Some(score)
    }
}

/// One step of the damped series: `d * (1/k) + interaction * (1/k)`.
pub open spec fn spec_damp_step(d: i64, interaction: i64, k: int) -> Option<i64> {
    match fx_div(fx(1), fx(k)) {
        None => None,
        Some(decay) => match fx_mul(d, decay) {
            None => None,
            Some(p) => match fx_mul(interaction, decay) {
                None => None,
                Some(q) => fx_add(p, q),
            },
        },
    }
}

/// The damped series after steps `1..=k`, starting from `interaction`.
pub open spec fn spec_damped(interaction: i64, k: nat) -> Option<i64>
    decreases k,
{
    if k == 0 {
        Some(interaction)
    } else {
        match spec_damped(interaction, (k - 1) as nat) {
            None => None,
            Some(d) => spec_damp_step(d, interaction, k as int),
        }
    }
}

/// The contribution of one correlation pair with factor values `a` and `b`:
/// the 50-step damped series of `(a / 100000) * (b / 100000) * weight`.
pub open spec fn spec_correlation_term(a: i64, b: i64, weight: i64) -> Option<i64> {
    match fx_from_int(a as int) {
        None => None,
        Some(fa) => match fx_from_int(b as int) {
            None => None,
            Some(fb) => match fx_from_int(weight as int) {
                None => None,
                Some(w) => match fx_div(fa, fx(100000)) {
                    None => None,
                    Some(na) => match fx_div(fb, fx(100000)) {
                        None => None,
                        Some(nb) => match fx_mul(na, nb) {
                            None => None,
                            Some(nab) => match fx_mul(nab, w) {
                                None => None,
                                Some(interaction) => spec_damped(interaction, 50),
                            },
                        },
                    },
                },
            },
        },
    }
}

/// The damped series of zero stays zero.
pub proof fn lemma_damped_zero(k: nat)
    requires
        spec_damped(0, k) is Some,
    ensures
        spec_damped(0, k) == Some(0i64),
    decreases k,
{
    if k > 0 {
        lemma_damped_zero((k - 1) as nat);
    }
}

/// A pair with a zero factor value or a zero weight adds nothing.
pub proof fn lemma_zero_correlation_term(a: i64, b: i64, w: i64)
    requires
        a == 0 || b == 0 || w == 0,
        spec_correlation_term(a, b, w) is Some,
    ensures
        spec_correlation_term(a, b, w) == Some(0i64),
{
    let fa = fx_from_int(a as int)->0;
    let fb = fx_from_int(b as int)->0;
    let fw = fx_from_int(w as int)->0;
    let na = fx_div(fa, fx(100000))->0;
    let nb = fx_div(fb, fx(100000))->0;
    let nab = fx_mul(na, nb)->0;
    if a == 0 {
        assert(fa == 0);
        assert(na == 0);
    } else if b == 0 {
        assert(fb == 0);
        assert(nb == 0);
    } else {
        assert(fw == 0);
    }
    if w == 0 {
        assert(nab * fw == 0) by (nonlinear_arith)
            requires
                fw == 0,
        ;
    } else {
        assert(na * nb == 0) by (nonlinear_arith)
            requires
                na == 0 || nb == 0,
        ;
        assert(fx_mul(na, nb) == Some(0i64));
        assert(nab == 0);
        assert(nab * fw == 0);
    }
    assert(fx_mul(nab, fw) == Some(0i64));
    assert(spec_correlation_term(a, b, w) == spec_damped(0, 50));
    lemma_damped_zero(50);
}

/// `x` limited to `lo..=hi`.
pub open spec fn clamp(x: int, lo: int, hi: int) -> int {
    if x < lo {
        lo
    } else if x > hi {
        hi
    } else {
        x
    }
}

/// The tier of a score: up to 250 low, up to 500 medium, up to 750 high,
/// above that critical.
pub open spec fn tier_of(score: int) -> RiskTier {
    if score <= 250 {
        RiskTier::Low
    } else if score <= 500 {
        RiskTier::Medium
    } else if score <= 750 {
        RiskTier::High
    } else {
        RiskTier::Critical
    }
}

/// The number of a tier: 0 for low up to 3 for critical.
pub open spec fn tier_number(tier: RiskTier) -> i64 {
    match tier {
        RiskTier::Low => 0,
        RiskTier::Medium => 1,
        RiskTier::High => 2,
        RiskTier::Critical => 3,
    }
}

/// A higher score never has a lower tier.
pub proof fn lemma_tier_monotone(a: int, b: int)
    requires
        a <= b,
    ensures
        tier_number(tier_of(a)) <= tier_number(tier_of(b)),
{
}

/// The final score and the correlation adjustment: the adjustment is the
/// correlation sum times 100, the score is the pass score plus the
/// adjustment, truncated to an integer and clamped to `0..=1000`.
pub open spec fn spec_finish(score: i64, correlation: i64) -> Option<(i64, i64)> {
    match fx_mul(correlation, fx(100)) {
        None => None,
        Some(c100) => match fx_add(score, c100) {
            None => None,
            Some(adjusted) => Some(
                (clamp(fx_to_int(adjusted), 0, 1000) as i64, fx_to_int(c100) as i64),
            ),
        },
    }
}

/// The number of passes: 10 when the request names none.
pub open spec fn effective_iterations(n: u32) -> u32 {
    if n == 0 {
        10
    } else {
        n
    }
}

/// The integer part of a fixed-point number always fits in an `i64`.
pub proof fn lemma_to_int_fits(a: i64)
    ensures
        i64::MIN <= fx_to_int(a) <= i64::MAX,
        fx_to_int(a) as i64 == fx_to_int(a),
{
    assert(i64::MIN <= (a as int) / 16777216 <= i64::MAX);
}

/// Whether a rule's condition holds for a factor value.
pub fn rule_passes_exec(direction: Direction, value: i64, threshold: i64) -> (r: bool)
    ensures
        r == rule_passes(direction, value, threshold),
{
    match direction {
        Direction::Above => value >= threshold,
        Direction::Below => value <= threshold,
    }
}

/// The bias of pass number `pass` after a pass left `score`.
pub fn bias_exec(pass: u32, score: i64) -> (r: Option<i64>)
    ensures
        r == spec_bias(pass as nat, score),
{
    if pass == 0 {
        Some(0)
    } else {
        fx_checked_div(score, fx_const(1000))
    }
}

/// The weighted term of a rule that applies.
pub fn rule_term(bonus: i64, bias: i64, weight: i64) -> (r: Option<i64>)
    ensures
        r == spec_rule_term(bonus, bias, weight),
{
    let b = fx_from_i64(bonus)?;
    let shift = fx_checked_mul(bias, fx_const(5))?;
    let adjusted = fx_checked_add(b, shift)?;
    fx_checked_mul(adjusted, weight)
}

/// The score after a pass with the given raw score and total weight.
pub fn next_score(score: i64, raw: i64, total_weight: i64) -> (r: Option<i64>)
    ensures
        r == spec_next_score(score, raw, total_weight),
{
    if total_weight > 0 {
        let max_possible = fx_checked_mul(total_weight, fx_const(100))?;
        let ratio = fx_checked_div(raw, max_possible)?;
        fx_checked_mul(ratio, fx_const(1000))
    } else {
        Some(score)
    }
}

/// Once a step of the series overflows, so does every later one.
pub proof fn lemma_damped_none(interaction: i64, k: nat, m: nat)
    requires
        k <= m,
        spec_damped(interaction, k) is None,
    ensures
        spec_damped(interaction, m) is None,
    decreases m - k,
{
    if k < m {
        lemma_damped_none(interaction, k, (m - 1) as nat);
    }
}

/// The 50-step damped series starting from `interaction`.
pub fn damped_series(interaction: i64) -> (r: Option<i64>)
    ensures
        r == spec_damped(interaction, 50),
{
    let mut d: i64 = interaction;
    let mut k: i64 = 1;
    while k <= 50
        invariant
            1 <= k <= 51,
            spec_damped(interaction, (k - 1) as nat) == Some(d),
        decreases 51 - k,
    {
        let decay = match fx_checked_div(fx_const(1), fx_const(k)) {
            Some(v) => v,
            None => {
                proof {
                    lemma_damped_none(interaction, k as nat, 50);
                }
                return None;
            },
        };
        let p = match fx_checked_mul(d, decay) {
            Some(v) => v,
            None => {
                proof {
                    lemma_damped_none(interaction, k as nat, 50);
                }
                return None;
            },
        };
        let q = match fx_checked_mul(interaction, decay) {
            Some(v) => v,
            None => {
                proof {
                    lemma_damped_none(interaction, k as nat, 50);
                }
                return None;
            },
        };
        d = match fx_checked_add(p, q) {
            Some(v) => v,
            None => {
                proof {
                    lemma_damped_none(interaction, k as nat, 50);
                }
                return None;
            },
        };
        k = k + 1;
    }
    Some(d)
}

/// The contribution of one correlation pair.
pub fn correlation_term(a: i64, b: i64, weight: i64) -> (r: Option<i64>)
    ensures
        r == spec_correlation_term(a, b, weight),
{
    let fa = fx_from_i64(a)?;
    let fb = fx_from_i64(b)?;
    let w = fx_from_i64(weight)?;
    let na = fx_checked_div(fa, fx_const(100000))?;
    let nb = fx_checked_div(fb, fx_const(100000))?;
    let nab = fx_checked_mul(na, nb)?;
    let interaction = fx_checked_mul(nab, w)?;
    damped_series(interaction)
}

/// `x` limited to `lo..=hi`.
pub fn clamp_exec(x: i64, lo: i64, hi: i64) -> (r: i64)
    requires
        lo <= hi,
    ensures
        r == clamp(x as int, lo as int, hi as int),
{
    if x < lo {
        lo
    } else if x > hi {
        hi
    } else {
        x
    }
}

/// The tier of a score.
pub fn tier_for(score: i64) -> (r: RiskTier)
    ensures
        r == tier_of(score as int),
{
    if score <= 250 {
        RiskTier::Low
    } else if score <= 500 {
        RiskTier::Medium
    } else if score <= 750 {
        RiskTier::High
    } else {
        RiskTier::Critical
    }
}

/// The final score and correlation adjustment.
pub fn finish(score: i64, correlation: i64) -> (r: Option<(i64, i64)>)
    ensures
        r == spec_finish(score, correlation),
{
    let c100 = fx_checked_mul(correlation, fx_const(100))?;
    let adjusted = fx_checked_add(score, c100)?;
    proof {
        lemma_to_int_fits(adjusted);
        lemma_to_int_fits(c100);
    }
    let total = fx_to_i64(adjusted);
    let adjustment = fx_to_i64(c100);
    Some((clamp_exec(total, 0, 1000), adjustment))
}

/// The number of passes a request asks for (10 when it names none).
pub fn effective_iterations_exec(n: u32) -> (r: u32)
    ensures
        r == effective_iterations(n),
{
    if n == 0 {
        10
    } else {
        n
    }
}


// Laws of the shared formulas.

/// A condition holds at its own threshold, whichever its direction.
pub proof fn lemma_rule_passes_at_threshold(direction: Direction, threshold: i64)
    ensures
        rule_passes(direction, threshold, threshold),
{
}

/// A rule that applies to a value applies to every value further on the
/// same side: below rules to every smaller value (negative ones included),
/// above rules to every larger one.
pub proof fn lemma_rule_passes_monotone(threshold: i64, v: i64, w: i64)
    requires
        w <= v,
    ensures
        rule_passes(Direction::Below, v, threshold) ==> rule_passes(Direction::Below, w, threshold),
        rule_passes(Direction::Above, w, threshold) ==> rule_passes(Direction::Above, v, threshold),
{
}

/// A condition fails one step past its threshold: a below rule above it,
/// an above rule below it.
pub proof fn lemma_rule_fails_past_threshold(threshold: i64, v: i64)
    ensures
        v > threshold ==> !rule_passes(Direction::Below, v, threshold),
        v < threshold ==> !rule_passes(Direction::Above, v, threshold),
{
}

proof fn lemma_damped_sign(x: i64, k: nat)
    requires
        k <= 50,
        spec_damped(x, k) is Some,
    ensures
        x <= 0 ==> spec_damped(x, k)->0 <= 0,
        x >= 0 ==> spec_damped(x, k)->0 >= 0,
    decreases k,
{
    if k > 0 {
        let j = (k - 1) as nat;
        lemma_damped_sign(x, j);
        let d = spec_damped(x, j)->0;
        assert(fx(1) == scale());
        assert(fx(k as int) == k * scale());
        let dec = fx_div(fx(1), fx(k as int))->0;
        assert(dec >= 0) by (nonlinear_arith)
            requires
                dec == div_toward_zero(scale() * scale(), k * scale()),
                k > 0,
                scale() > 0,
        ;
        let p = fx_mul(d, dec)->0;
        let q = fx_mul(x, dec)->0;
        assert(d <= 0 ==> p <= 0) by (nonlinear_arith)
            requires
                p == (d * dec) / scale(),
                dec >= 0,
                scale() > 0,
        ;
        assert(d >= 0 ==> p >= 0) by (nonlinear_arith)
            requires
                p == (d * dec) / scale(),
                dec >= 0,
                scale() > 0,
        ;
        assert(x <= 0 ==> q <= 0) by (nonlinear_arith)
            requires
                q == (x * dec) / scale(),
                dec >= 0,
                scale() > 0,
        ;
        assert(x >= 0 ==> q >= 0) by (nonlinear_arith)
            requires
                q == (x * dec) / scale(),
                dec >= 0,
                scale() > 0,
        ;
    }
}

/// For factor values that are not negative, a pair's term has the sign of
/// its weight: a negative weight never raises the score, a positive one
/// never lowers it.
pub proof fn lemma_correlation_term_sign(a: i64, b: i64, w: i64)
    requires
        0 <= a,
        0 <= b,
        spec_correlation_term(a, b, w) is Some,
    ensures
        w < 0 ==> spec_correlation_term(a, b, w)->0 <= 0,
        w > 0 ==> spec_correlation_term(a, b, w)->0 >= 0,
{
    let fa = fx_from_int(a as int)->0;
    let fb = fx_from_int(b as int)->0;
    let fw = fx_from_int(w as int)->0;
    assert(fx(100000) == 100000 * scale());
    let na = fx_div(fa, fx(100000))->0;
    let nb = fx_div(fb, fx(100000))->0;
    assert(fa >= 0 && fb >= 0) by (nonlinear_arith)
        requires
            fa == a * scale(),
            fb == b * scale(),
            a >= 0,
            b >= 0,
            scale() > 0,
    ;
    assert(na >= 0) by (nonlinear_arith)
        requires
            na == div_toward_zero(fa * scale(), 100000 * scale()),
            fa >= 0,
            scale() > 0,
    ;
    assert(nb >= 0) by (nonlinear_arith)
        requires
            nb == div_toward_zero(fb * scale(), 100000 * scale()),
            fb >= 0,
            scale() > 0,
    ;
    let nab = fx_mul(na, nb)->0;
    assert(nab >= 0) by (nonlinear_arith)
        requires
            nab == (na * nb) / scale(),
            na >= 0,
            nb >= 0,
            scale() > 0,
    ;
    let interaction = fx_mul(nab, fw)->0;
    assert(w < 0 ==> interaction <= 0) by (nonlinear_arith)
        requires
            interaction == (nab * fw) / scale(),
            fw == w * scale(),
            nab >= 0,
            scale() > 0,
    ;
    assert(w > 0 ==> interaction >= 0) by (nonlinear_arith)
        requires
            interaction == (nab * fw) / scale(),
            fw == w * scale(),
            nab >= 0,
            scale() > 0,
    ;
    assert(spec_correlation_term(a, b, w) == spec_damped(interaction, 50));
    lemma_damped_sign(interaction, 50);
}

proof fn lemma_times_whole(a: int, w: int)
    ensures
        (a * (w * scale())) / scale() == a * w,
{
    assert(a * (w * scale()) == scale() * (a * w)) by (nonlinear_arith);
    vstd::arithmetic::div_mod::lemma_div_multiples_vanish(a * w, scale());
}


proof fn lemma_floor_sum(p: int, q: int)
    ensures
        p / scale() + q / scale() <= (p + q) / scale() <= p / scale() + q / scale() + 1,
{
    let s = scale();
    vstd::arithmetic::div_mod::lemma_fundamental_div_mod(p, s);
    vstd::arithmetic::div_mod::lemma_fundamental_div_mod(q, s);
    vstd::arithmetic::div_mod::lemma_fundamental_div_mod(p + q, s);
    assert(p / s + q / s <= (p + q) / s <= p / s + q / s + 1) by (nonlinear_arith)
        requires
            s > 0,
            p == s * (p / s) + p % s,
            q == s * (q / s) + q % s,
            p + q == s * ((p + q) / s) + (p + q) % s,
            0 <= p % s < s,
            0 <= q % s < s,
            0 <= (p + q) % s < s,
    ;
}

proof fn lemma_damped_odd(x: i64, y: i64, k: nat)
    requires
        y == -x,
        k <= 50,
        spec_damped(x, k) is Some,
        spec_damped(y, k) is Some,
    ensures
        -2 * k <= spec_damped(x, k)->0 + spec_damped(y, k)->0 <= 0,
    decreases k,
{
    if k > 0 {
        let j = (k - 1) as nat;
        lemma_damped_odd(x, y, j);
        let u = spec_damped(x, j)->0;
        let v = spec_damped(y, j)->0;
        assert(fx(1) == scale());
        assert(fx(k as int) == k * scale());
        let dec = fx_div(fx(1), fx(k as int))->0;
        vstd::arithmetic::div_mod::lemma_div_multiples_vanish_quotient(scale(), scale(), k as int);
        assert(dec == scale() / (k as int));
        assert(0 <= dec <= scale()) by (nonlinear_arith)
            requires
                dec == scale() / (k as int),
                k >= 1,
                scale() > 0,
        ;
        let p = fx_mul(u, dec)->0;
        let q = fx_mul(v, dec)->0;
        let px = fx_mul(x, dec)->0;
        let py = fx_mul(y, dec)->0;
        lemma_floor_sum(u * dec, v * dec);
        lemma_floor_sum(x * dec, y * dec);
        let e = u + v;
        assert(u * dec + v * dec == e * dec) by (nonlinear_arith)
            requires
                e == u + v,
        ;
        assert(x * dec + y * dec == 0) by (nonlinear_arith)
            requires
                y == -x,
        ;
        assert(-2 * j * scale() <= e * dec <= 0) by (nonlinear_arith)
            requires
                -2 * j <= e <= 0,
                0 <= dec <= scale(),
        ;
        assert(-2 * j <= (e * dec) / scale() <= 0) by (nonlinear_arith)
            requires
                -2 * j * scale() <= e * dec <= 0,
                scale() > 0,
        ;
    }
}

/// The correlation term is odd in the pair's weight, up to rounding:
/// negating the weight negates the term, the two differing only in the
/// lowest bits that the 50 rounded steps of the series can touch (at most
/// 100 units of 2^-24). So a negative weight lowers the score by what the
/// same positive weight raises it.
pub proof fn lemma_correlation_term_odd(a: i64, b: i64, w: i64)
    requires
        w > i64::MIN,
        spec_correlation_term(a, b, w) is Some,
        spec_correlation_term(a, b, (-w) as i64) is Some,
    ensures
        -100 <= spec_correlation_term(a, b, w)->0 + spec_correlation_term(a, b, (-w) as i64)->0
            <= 0,
{
    let nw = (-w) as i64;
    let fa = fx_from_int(a as int)->0;
    let fb = fx_from_int(b as int)->0;
    let fw = fx_from_int(w as int)->0;
    let fnw = fx_from_int(nw as int)->0;
    let na = fx_div(fa, fx(100000))->0;
    let nb = fx_div(fb, fx(100000))->0;
    let nab = fx_mul(na, nb)->0;
    lemma_times_whole(nab as int, w as int);
    lemma_times_whole(nab as int, nw as int);
    let x = fx_mul(nab, fw)->0;
    let y = fx_mul(nab, fnw)->0;
    assert(x == nab * w);
    assert(y == nab * nw);
    assert(y == -x) by (nonlinear_arith)
        requires
            x == nab * w,
            y == nab * nw,
            nw == -w,
    ;
    assert(spec_correlation_term(a, b, w) == spec_damped(x, 50));
    assert(spec_correlation_term(a, b, nw) == spec_damped(y, 50));
    lemma_damped_odd(x, y, 50);
}

/// The pass score is odd in the raw score: with a positive total weight,
/// negating the raw score negates the pass score (a negative raw score
/// gives a negative pass score, which is not floored), and one overflows
/// exactly when the other does.
pub proof fn lemma_next_score_odd(score: i64, raw: i64, total_weight: i64)
    requires
        raw > i64::MIN,
        total_weight > 0,
    ensures
        match (spec_next_score(score, raw, total_weight), spec_next_score(score, (-raw) as i64, total_weight)) {
            (Some(s), Some(t)) => t == -s,
            (None, None) => true,
            _ => false,
        },
        raw < 0 && spec_next_score(score, raw, total_weight) is Some ==> spec_next_score(
            score,
            raw,
            total_weight,
        )->0 <= 0,
        raw > 0 && spec_next_score(score, raw, total_weight) is Some ==> spec_next_score(
            score,
            raw,
            total_weight,
        )->0 >= 0,
{
    let nraw = (-raw) as i64;
    assert(fx(100) == 100 * scale());
    assert(fx(1000) == 1000 * scale());
    match fx_mul(total_weight, fx(100)) {
        None => {},
        Some(m) => {
            assert(m == (total_weight * (100 * scale())) / scale());
            assert(total_weight * (100 * scale()) == scale() * (total_weight * 100)) by (nonlinear_arith);
            vstd::arithmetic::div_mod::lemma_div_multiples_vanish(total_weight * 100, scale());
            assert(m == total_weight * 100);
            let x = raw * scale();
            assert(nraw * scale() == -x) by (nonlinear_arith)
                requires
                    nraw == -raw,
                    x == raw * scale(),
            ;
            let qa = div_toward_zero(x, m as int);
            let qb = div_toward_zero(-x, m as int);
            assert(qb == -qa);
            assert(raw < 0 ==> qa <= 0) by (nonlinear_arith)
                requires
                    x == raw * scale(),
                    m > 0,
                    qa == div_toward_zero(x, m as int),
                    scale() > 0,
            ;
            assert(raw > 0 ==> qa >= 0) by (nonlinear_arith)
                requires
                    x == raw * scale(),
                    m > 0,
                    qa == div_toward_zero(x, m as int),
                    scale() > 0,
            ;
            match (fit(qa), fit(qb)) {
                (Some(ra), Some(rb)) => {
                    lemma_times_whole(ra as int, 1000);
                    lemma_times_whole(rb as int, 1000);
                },
                (Some(ra), None) => {
                    lemma_times_whole(ra as int, 1000);
                },
                (None, Some(rb)) => {
                    lemma_times_whole(rb as int, 1000);
                },
                (None, None) => {},
            }
        },
    }
}

/// The final score is the pass score plus the reported correlation
/// adjustment, clamped to `0..=1000`, for an adjustment of either sign: it
/// differs from `clamp(int(score) + adjustment)` only by the one the
/// fractional parts can carry. The adjustment is the integer part of 100
/// times the correlation sum.
pub proof fn lemma_finish_adds_adjustment(score: i64, correlation: i64)
    requires
        spec_finish(score, correlation) is Some,
    ensures
        ({
            let fin = spec_finish(score, correlation)->0;
            &&& fin.1 == (correlation * 100) / scale()
            &&& (fin.0 == clamp(fx_to_int(score) + fin.1, 0, 1000) || fin.0 == clamp(
                fx_to_int(score) + fin.1 + 1,
                0,
                1000,
            ))
        }),
{
    assert(fx(100) == 100 * scale());
    let c100 = fx_mul(correlation, fx(100))->0;
    assert(correlation * (100 * scale()) == scale() * (correlation * 100)) by (nonlinear_arith);
    vstd::arithmetic::div_mod::lemma_div_multiples_vanish(correlation * 100, scale());
    assert(c100 == correlation * 100);
    let adjusted = fx_add(score, c100)->0;
    let s = scale();
    let si = score as int;
    let ci = c100 as int;
    vstd::arithmetic::div_mod::lemma_fundamental_div_mod(si, s);
    vstd::arithmetic::div_mod::lemma_fundamental_div_mod(ci, s);
    vstd::arithmetic::div_mod::lemma_fundamental_div_mod(si + ci, s);
    assert((si + ci) / s == si / s + ci / s || (si + ci) / s == si / s + ci / s + 1) by (nonlinear_arith)
        requires
            s > 0,
            si == s * (si / s) + si % s,
            ci == s * (ci / s) + ci % s,
            si + ci == s * ((si + ci) / s) + (si + ci) % s,
            0 <= si % s < s,
            0 <= ci % s < s,
            0 <= (si + ci) % s < s,
    ;
}

/// A requested number of passes is used as it is; only a request naming
/// none gets 10.
pub proof fn lemma_effective_iterations(n: u32)
    ensures
        n != 0 ==> effective_iterations(n) == n,
        n == 0 ==> effective_iterations(n) == 10,
{
}

} // verus!
