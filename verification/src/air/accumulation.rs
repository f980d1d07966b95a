//! Accumulators for a random linear combination of constraint quotients.
//!
//! Given `N` contributions `v_0, ..., v_{N-1}` and a random `alpha`, the
//! combination is `sum_i alpha^(N-1-i) * v_i`: the first contribution takes
//! the highest power. The order of the contributions fixes their powers, at
//! a point and over a domain alike.

use crate::fields::qm31::{
    lemma_qm31_add_associates, lemma_qm31_add_zero, lemma_qm31_mul_distributes,
    lemma_qm31_mul_exchange, lemma_qm31_mul_one_zero, lemma_qm31_results_reduced,
    lemma_quartic_reduce_congruent, qm31_add, qm31_mul, qm31_pow, quartic_is_reduced,
    quartic_reduce, quartic_zero, Quartic, SecureField,
};
use crate::backend::simd::m31::{LOG_N_LANES, N_LANES};
use crate::backend::simd::qm31::{packed_rows, zero_rows, PackedSecureField};
use vstd::arithmetic::power2::pow2;
use vstd::prelude::*;

verus! {

/// The combination `sum_i alpha^(N-1-i) * v_i` of the `N` values of `v`.
pub open spec fn random_linear_combination(alpha: Quartic, v: Seq<Quartic>) -> Quartic
    decreases v.len(),
{
    if v.len() == 0 {
        quartic_zero()
    } else {
        qm31_add(
            qm31_mul(qm31_pow(alpha, (v.len() - 1) as nat), v[0]),
            random_linear_combination(alpha, v.skip(1)),
        )
    }
}

/// What accumulating the values of `v` one after the other leaves: each
/// step multiplies what was there by `alpha` and adds the next value.
pub open spec fn accumulated(alpha: Quartic, v: Seq<Quartic>) -> Quartic
    decreases v.len(),
{
    if v.len() == 0 {
        quartic_zero()
    } else {
        qm31_add(qm31_mul(accumulated(alpha, v.drop_last()), alpha), v.last())
    }
}

/// A combination is a reduced element of the secure field.
pub proof fn lemma_combination_reduced(alpha: Quartic, v: Seq<Quartic>)
    ensures
        quartic_is_reduced(random_linear_combination(alpha, v)),
{
    if v.len() > 0 {
        lemma_qm31_results_reduced(
            qm31_mul(qm31_pow(alpha, (v.len() - 1) as nat), v[0]),
            random_linear_combination(alpha, v.skip(1)),
        );
    } else {
        lemma_qm31_results_reduced(alpha, alpha);
    }
}

/// One more value at the end multiplies the combination by `alpha` and adds
/// the value.
pub proof fn lemma_combination_push(alpha: Quartic, v: Seq<Quartic>, x: Quartic)
    ensures
        random_linear_combination(alpha, v.push(x)) == qm31_add(
            qm31_mul(random_linear_combination(alpha, v), alpha),
            x,
        ),
    decreases v.len(),
{
    let w = v.push(x);
    let zero = quartic_zero();
    if v.len() == 0 {
        assert(w.skip(1) =~= Seq::<Quartic>::empty());
        assert(random_linear_combination(alpha, w.skip(1)) == zero);
        assert(w[0] == x);
        // The left side is `1 * x + 0`, the right side `0 * alpha + x`.
        lemma_qm31_mul_one_zero(x);
        lemma_qm31_mul_one_zero(alpha);
        lemma_qm31_add_zero(quartic_reduce(x));
        lemma_qm31_add_zero(x);
        lemma_quartic_reduce_congruent(x);
        assert(qm31_pow(alpha, 0) == crate::fields::qm31::quartic_one());
    } else {
        let k = v.len();
        let tail = v.skip(1);
        assert(w.skip(1) =~= tail.push(x));
        assert(w[0] == v[0]);
        lemma_combination_push(alpha, tail, x);
        let high = qm31_pow(alpha, (k - 1) as nat);
        let first = qm31_mul(high, v[0]);
        let rest = random_linear_combination(alpha, tail);
        // (high * v0 + rest) * alpha = (high * alpha) * v0 + rest * alpha.
        lemma_qm31_mul_distributes(first, rest, alpha);
        lemma_qm31_mul_exchange(high, v[0], alpha);
        assert(qm31_pow(alpha, k) == qm31_mul(high, alpha));
        lemma_qm31_add_associates(qm31_mul(qm31_pow(alpha, k), v[0]), qm31_mul(rest, alpha), x);
    }
}

/// Accumulating values one after the other gives their random linear
/// combination: after `k` values `v_0, ..., v_{k-1}` the accumulator holds
/// `sum_i alpha^(k-1-i) * v_i`.
pub proof fn lemma_accumulated_is_combination(alpha: Quartic, v: Seq<Quartic>)
    ensures
        accumulated(alpha, v) == random_linear_combination(alpha, v),
    decreases v.len(),
{
    if v.len() > 0 {
        lemma_accumulated_is_combination(alpha, v.drop_last());
        lemma_combination_push(alpha, v.drop_last(), v.last());
        assert(v.drop_last().push(v.last()) =~= v);
    }
}

/// Accumulates N evaluations of `u_i(z)` at a single point.
/// Computes `f(z)`, the combined polynomial at that point.
/// For N accumulated evaluations, the i'th evaluation is multiplied by
/// `alpha^(N-1-i)`.
pub struct PointEvaluationAccumulator {
    random_coeff: SecureField,
    accumulation: SecureField,
    count: usize,
    evaluations: Ghost<Seq<Quartic>>,
}

impl PointEvaluationAccumulator {
    #[verifier::type_invariant]
    spec fn holds_accumulated(self) -> bool {
        &&& self.accumulation@ == accumulated(self.random_coeff@, self.evaluations@)
        &&& self.count == self.evaluations@.len()
    }

    /// The random coefficient `alpha`.
    pub closed spec fn random_coeff(self) -> Quartic {
        self.random_coeff@
    }

    /// The evaluations accumulated so far, first one first.
    pub closed spec fn evaluations(self) -> Seq<Quartic> {
        self.evaluations@
    }

    /// The value that the accumulator holds.
    pub closed spec fn accumulation(self) -> Quartic {
        self.accumulation@
    }

    /// Creates a new accumulator.
    /// `random_coeff` should be a secure random field element, drawn from the channel.
    pub fn new(random_coeff: SecureField) -> (r: Self)
        ensures
            r.random_coeff() == random_coeff@,
            r.evaluations() == Seq::<Quartic>::empty(),
            r.accumulation() == quartic_zero(),
    {
        PointEvaluationAccumulator {
            random_coeff,
            accumulation: SecureField::zero(),
            count: 0,
            evaluations: Ghost(Seq::empty()),
        }
    }

    /// Accumulates `u_i(z)`, a polynomial evaluation at a point:
    /// `acc <- acc * alpha + evaluation`.
    pub fn accumulate(&mut self, evaluation: SecureField)
        requires
            old(self).evaluations().len() < usize::MAX,
        ensures
            final(self).random_coeff() == old(self).random_coeff(),
            final(self).evaluations() == old(self).evaluations().push(evaluation@),
            final(self).accumulation() == qm31_add(
                qm31_mul(old(self).accumulation(), old(self).random_coeff()),
                evaluation@,
            ),
            final(self).accumulation() == random_linear_combination(
                final(self).random_coeff(),
                final(self).evaluations(),
            ),
    {
        proof {
            use_type_invariant(&*self);
        }
        let ghost extended = self.evaluations@.push(evaluation@);
        proof {
            assert(extended.drop_last() =~= self.evaluations@);
            lemma_accumulated_is_combination(self.random_coeff@, extended);
        }
        *self = PointEvaluationAccumulator {
            random_coeff: self.random_coeff,
            accumulation: self.accumulation.mul(self.random_coeff).add(evaluation),
            count: self.count + 1,
            evaluations: Ghost(extended),
        };
    }

    /// The number of evaluations accumulated so far.
    pub fn n_accumulated(&self) -> (r: usize)
        ensures
            r == self.evaluations().len(),
    {
        proof {
            use_type_invariant(self);
        }
        self.count
    }

    /// The combination `sum_i alpha^(N-1-i) * v_i` of the `N` accumulated
    /// evaluations `v_i`.
    pub fn finalize(self) -> (r: SecureField)
        ensures
            r@ == random_linear_combination(self.random_coeff(), self.evaluations()),
            r@ == self.accumulation(),
    {
        proof {
            use_type_invariant(&self);
            lemma_accumulated_is_combination(self.random_coeff@, self.evaluations@);
        }
        self.accumulation
    }
}

/// What a row of a domain column holds once the first `n` of the
/// contributions `v` have been added to it, each with the power that its
/// place among all of them gives it: contribution `g` of `N` with
/// `alpha^(N-1-g)`.
pub open spec fn row_accumulated(alpha: Quartic, v: Seq<Quartic>, n: nat) -> Quartic
    decreases n,
{
    if n == 0 {
        quartic_zero()
    } else {
        qm31_add(
            row_accumulated(alpha, v, (n - 1) as nat),
            qm31_mul(qm31_pow(alpha, (v.len() - n) as nat), v[n - 1]),
        )
    }
}

/// A row of a domain column holds a reduced element of the secure field.
proof fn lemma_row_accumulated_reduced(alpha: Quartic, v: Seq<Quartic>, n: nat)
    ensures
        quartic_is_reduced(row_accumulated(alpha, v, n)),
{
    if n > 0 {
        lemma_qm31_results_reduced(
            row_accumulated(alpha, v, (n - 1) as nat),
            qm31_mul(qm31_pow(alpha, (v.len() - n) as nat), v[n - 1]),
        );
    } else {
        lemma_qm31_results_reduced(alpha, alpha);
    }
}

/// A row to which the first `n` contributions were added, together with
/// the combination of the others, makes the combination of all.
proof fn lemma_row_then_rest(alpha: Quartic, v: Seq<Quartic>, n: nat)
    requires
        n <= v.len(),
    ensures
        qm31_add(row_accumulated(alpha, v, n), random_linear_combination(alpha, v.skip(n as int)))
            == random_linear_combination(alpha, v),
    decreases n,
{
    if n == 0 {
        assert(v.skip(0) =~= v);
        lemma_qm31_add_zero(random_linear_combination(alpha, v));
        lemma_combination_reduced(alpha, v);
    } else {
        let m = (n - 1) as nat;
        lemma_row_then_rest(alpha, v, m);
        let from_m = v.skip(m as int);
        assert(from_m.skip(1) =~= v.skip(n as int));
        assert(from_m[0] == v[m as int]);
        assert(from_m.len() - 1 == v.len() - n);
        lemma_qm31_add_associates(
            row_accumulated(alpha, v, m),
            qm31_mul(qm31_pow(alpha, (v.len() - n) as nat), v[m as int]),
            random_linear_combination(alpha, v.skip(n as int)),
        );
    }
}

/// The two accumulators give corresponding contributions the same power of
/// `alpha`: a row of a domain column to which each of the `N` contributions
/// was added once, with the power that its reservation gave it, holds what
/// the point accumulator holds after the same values were accumulated in
/// the same order.
pub proof fn lemma_row_accumulated_is_combination(alpha: Quartic, v: Seq<Quartic>)
    ensures
        row_accumulated(alpha, v, v.len()) == random_linear_combination(alpha, v),
        row_accumulated(alpha, v, v.len()) == accumulated(alpha, v),
{
    lemma_row_then_rest(alpha, v, v.len());
    assert(v.skip(v.len() as int) =~= Seq::<Quartic>::empty());
    lemma_qm31_add_zero(row_accumulated(alpha, v, v.len()));
    lemma_row_accumulated_reduced(alpha, v, v.len());
    lemma_accumulated_is_combination(alpha, v);
}

/// The number of packed words of a column over a domain of `2^log_size`
/// points. A domain smaller than a word takes one word, of which the lanes
/// from `2^log_size` on are padding.
pub open spec fn n_words(log_size: nat) -> nat {
    if log_size >= LOG_N_LANES {
        pow2((log_size - LOG_N_LANES) as nat)
    } else {
        1
    }
}

/// Accumulates evaluations of `u_i(P)`, each over an evaluation domain of
/// the size of that polynomial: for every domain size a column of packed
/// secure-field words that holds, row by row, the sum over the
/// contributions `i` of that size of `evaluation_i * alpha^(N-1-i)`, where
/// `N` is the total number of contributions. The column of a domain that
/// is smaller than a word is one padded word.
pub struct DomainEvaluationAccumulator {
    random_coeff: SecureField,
    /// The powers `alpha^0, alpha^1, ...` that no reservation has taken yet.
    random_coeff_powers: Vec<SecureField>,
    /// The column for each `log_size`; empty until the first reservation
    /// of that size.
    sub_accumulations: Vec<Vec<PackedSecureField>>,
    n_total: Ghost<nat>,
}

/// A reservation of consecutive contributions in a
/// [`DomainEvaluationAccumulator`], all over a domain of one size. It
/// holds the power of `alpha` of each of them.
pub struct ColumnAccumulator {
    random_coeff_powers: Vec<SecureField>,
    log_size: u32,
    random_coeff: Ghost<Quartic>,
    first: Ghost<nat>,
    n_total: Ghost<nat>,
}

impl ColumnAccumulator {
    #[verifier::type_invariant]
    spec fn well_formed(self) -> bool {
        &&& self.first@ + self.random_coeff_powers@.len() <= self.n_total@
        &&& forall|j: int|
            0 <= j < self.random_coeff_powers@.len() ==> (#[trigger] self.random_coeff_powers@[j])@
                == qm31_pow(self.random_coeff@, (self.n_total@ - 1 - (self.first@ + j)) as nat)
    }

    /// The random coefficient `alpha`.
    pub closed spec fn random_coeff(self) -> Quartic {
        self.random_coeff@
    }

    /// The number of contributions reserved.
    pub closed spec fn n_columns(self) -> nat {
        self.random_coeff_powers@.len()
    }

    /// The number of contributions that the whole accumulator was made for.
    pub closed spec fn n_total(self) -> nat {
        self.n_total@
    }

    /// The place of the first reserved contribution among all
    /// contributions.
    pub closed spec fn first(self) -> nat {
        self.first@
    }

    /// The binary logarithm of the domain size.
    pub closed spec fn log_size(self) -> nat {
        self.log_size as nat
    }

    /// The exponent of `alpha` for contribution `j` of the reservation: the
    /// one that the point accumulator gives the contribution at the same
    /// place among all contributions.
    pub open spec fn exponent(self, j: nat) -> nat {
        (self.n_total() - 1 - (self.first() + j)) as nat
    }

    /// The power of `alpha` for contribution `contribution`.
    pub fn power(&self, contribution: usize) -> (r: SecureField)
        requires
            contribution < self.n_columns(),
        ensures
            r@ == qm31_pow(self.random_coeff(), self.exponent(contribution as nat)),
    {
        proof {
            use_type_invariant(self);
        }
        self.random_coeff_powers[contribution]
    }

    /// Adds `alpha^e * value` to word `index` of the accumulator's column
    /// for this reservation's domain size, lane by lane, where `e` is the
    /// exponent of contribution `contribution`.
    pub fn accumulate_at(
        &self,
        accumulator: &mut DomainEvaluationAccumulator,
        contribution: usize,
        index: usize,
        value: PackedSecureField,
    )
        requires
            old(accumulator).wf(),
            contribution < self.n_columns(),
            self.log_size() <= old(accumulator).max_log_size(),
            index < old(accumulator).column(self.log_size()).len(),
        ensures
            final(accumulator).wf(),
            final(accumulator).random_coeff() == old(accumulator).random_coeff(),
            final(accumulator).n_total() == old(accumulator).n_total(),
            final(accumulator).n_reserved() == old(accumulator).n_reserved(),
            final(accumulator).max_log_size() == old(accumulator).max_log_size(),
            forall|s: nat|
                s != self.log_size() ==> final(accumulator).column(s) == old(accumulator).column(s),
            final(accumulator).column(self.log_size()).len() == old(accumulator).column(
                self.log_size(),
            ).len(),
            forall|i: int|
                0 <= i < old(accumulator).column(self.log_size()).len() && i != index
                    ==> final(accumulator).column(self.log_size())[i]
                    == old(accumulator).column(self.log_size())[i],
            final(accumulator).column(self.log_size())[index as int].len() == N_LANES,
            forall|l: int|
                0 <= l < N_LANES ==> final(accumulator).column(self.log_size())[index as int][l]
                    == qm31_add(
                    old(accumulator).column(self.log_size())[index as int][l],
                    qm31_mul(
                        qm31_pow(self.random_coeff(), self.exponent(contribution as nat)),
                        value@[l],
                    ),
                ),
    {
        proof {
            use_type_invariant(self);
        }
        let size: usize = self.log_size as usize;
        let power: SecureField = self.random_coeff_powers[contribution];
        let word: PackedSecureField = accumulator.sub_accumulations[size][index];
        let updated: PackedSecureField = word.add(PackedSecureField::broadcast(power).mul(value));
        let ghost before = accumulator.sub_accumulations@;
        accumulator.sub_accumulations[size][index] = updated;
        proof {
            updated.lemma_lanes();
            assert forall|s: nat| s != self.log_size() implies accumulator.column(s)
                == old(accumulator).column(s) by {
                if s < before.len() {
                    assert(accumulator.sub_accumulations@[s as int] == before[s as int]);
                }
            }
            assert(accumulator.sub_accumulations@[size as int]@ == before[size as int]@.update(
                index as int,
                updated,
            ));
        }
    }
}

impl DomainEvaluationAccumulator {
    /// The accumulator has a column for each `log_size` from zero to the
    /// largest one, holds the powers of `alpha` that are not reserved yet,
    /// and each column that was made has the length of its domain.
    pub open spec fn wf(self) -> bool {
        &&& self.columns().len() >= 1
        &&& self.is_consistent()
    }

    /// The accumulator holds the powers of `alpha` that are not reserved
    /// yet, and each column that was made has as many words as its domain
    /// takes.
    pub closed spec fn is_consistent(self) -> bool {
        &&& self.random_coeff_powers@.len() <= self.n_total@
        &&& forall|e: int|
            0 <= e < self.random_coeff_powers@.len() ==> (#[trigger] self.random_coeff_powers@[e])@
                == qm31_pow(self.random_coeff@, e as nat)
        &&& 1 <= self.sub_accumulations@.len() <= u32::MAX + 1
        &&& forall|s: int|
            0 <= s < self.sub_accumulations@.len() ==> (#[trigger] self.sub_accumulations@[s])@.len()
                == 0 || self.sub_accumulations@[s]@.len() == n_words(s as nat)
    }

    /// The random coefficient `alpha`.
    pub closed spec fn random_coeff(self) -> Quartic {
        self.random_coeff@
    }

    /// The number of contributions that the accumulator was made for.
    pub closed spec fn n_total(self) -> nat {
        self.n_total@
    }

    /// The number of contributions that reservations have taken.
    pub closed spec fn n_reserved(self) -> nat {
        (self.n_total@ - self.random_coeff_powers@.len()) as nat
    }

    /// The columns by `log_size`, from zero to the largest one, each as
    /// words of sixteen lanes; a column is empty until the first
    /// reservation of its size.
    pub closed spec fn columns(self) -> Seq<Seq<Seq<Quartic>>> {
        Seq::new(
            self.sub_accumulations@.len(),
            |s: int| packed_rows(self.sub_accumulations@[s]@),
        )
    }

    /// The largest `log_size` that a reservation may have.
    pub open spec fn max_log_size(self) -> nat {
        (self.columns().len() - 1) as nat
    }

    /// The column for domains of size `2^log_size`, as words of sixteen
    /// lanes; empty until the first reservation of that size.
    pub open spec fn column(self, log_size: nat) -> Seq<Seq<Quartic>> {
        if log_size < self.columns().len() {
            self.columns()[log_size as int]
        } else {
            Seq::empty()
        }
    }

    /// Creates a new accumulator.
    /// `random_coeff` should be a secure random field element, drawn from the channel.
    /// `max_log_size` is the maximum log_size of the accumulated evaluations.
    /// `total_columns` is the number of contributions of all components.
    pub fn new(random_coeff: SecureField, max_log_size: u32, total_columns: usize) -> (r: Self)
        requires
            max_log_size < usize::MAX,
        ensures
            r.wf(),
            r.random_coeff() == random_coeff@,
            r.n_total() == total_columns,
            r.n_reserved() == 0,
            r.max_log_size() == max_log_size,
            forall|s: nat| r.column(s).len() == 0,
    {
        let mut powers: Vec<SecureField> = Vec::new();
        let mut power: SecureField = SecureField::one();
        let mut e: usize = 0;
        while e < total_columns
            invariant
                e <= total_columns,
                powers@.len() == e,
                power@ == qm31_pow(random_coeff@, e as nat),
                forall|k: int|
                    0 <= k < e ==> (#[trigger] powers@[k])@ == qm31_pow(random_coeff@, k as nat),
            decreases total_columns - e,
        {
            powers.push(power);
            power = power.mul(random_coeff);
            e = e + 1;
        }
        let mut columns: Vec<Vec<PackedSecureField>> = Vec::new();
        let mut s: usize = 0;
        while s < max_log_size as usize + 1
            invariant
                s <= max_log_size as usize + 1,
                max_log_size < usize::MAX,
                columns@.len() == s,
                forall|k: int| 0 <= k < s ==> (#[trigger] columns@[k])@.len() == 0,
            decreases max_log_size as usize + 1 - s,
        {
            columns.push(Vec::new());
            s = s + 1;
        }
        DomainEvaluationAccumulator {
            random_coeff,
            random_coeff_powers: powers,
            sub_accumulations: columns,
            n_total: Ghost(total_columns as nat),
        }
    }

    /// Reserves the next `n_columns` contributions, all over a domain of
    /// size `2^log_size`. The reservation holds their powers of `alpha`:
    /// contribution `j` of it stands at place `n_reserved + j` among all
    /// contributions and takes `alpha^(n_total - 1 - (n_reserved + j))`.
    /// The column for that size is made, filled with zeros, if there was
    /// none; for a domain smaller than a word it is one word.
    pub fn reserve(&mut self, n_columns: usize, log_size: u32) -> (sub: ColumnAccumulator)
        requires
            old(self).wf(),
            old(self).n_reserved() + n_columns <= old(self).n_total(),
            log_size <= old(self).max_log_size(),
            n_words(log_size as nat) <= usize::MAX,
        ensures
            final(self).wf(),
            sub.random_coeff() == old(self).random_coeff(),
            sub.n_columns() == n_columns,
            sub.n_total() == old(self).n_total(),
            sub.first() == old(self).n_reserved(),
            sub.log_size() == log_size,
            final(self).random_coeff() == old(self).random_coeff(),
            final(self).n_total() == old(self).n_total(),
            final(self).n_reserved() == old(self).n_reserved() + n_columns,
            final(self).max_log_size() == old(self).max_log_size(),
            forall|s: nat| s != log_size ==> final(self).column(s) == old(self).column(s),
            final(self).column(log_size as nat).len() == n_words(log_size as nat),
            final(self).column(log_size as nat) == (if old(self).column(log_size as nat).len()
                == 0 {
                zero_rows(n_words(log_size as nat))
            } else {
                old(self).column(log_size as nat)
            }),
    {
        let ghost first = self.n_reserved();
        let ghost top = self.random_coeff_powers@.len();
        let mut powers: Vec<SecureField> = Vec::new();
        let mut j: usize = 0;
        while j < n_columns
            invariant
                j <= n_columns,
                top >= n_columns,
                self.random_coeff_powers@.len() == top - j,
                powers@.len() == j,
                self.random_coeff == old(self).random_coeff,
                self.n_total == old(self).n_total,
                self.sub_accumulations == old(self).sub_accumulations,
                self.wf(),
                forall|k: int|
                    0 <= k < j ==> (#[trigger] powers@[k])@ == qm31_pow(
                        self.random_coeff@,
                        (top - 1 - k) as nat,
                    ),
            decreases n_columns - j,
        {
            let power: Option<SecureField> = self.random_coeff_powers.pop();
            powers.push(power.unwrap());
            j = j + 1;
        }
        let size: usize = log_size as usize;
        if self.sub_accumulations[size].len() == 0 {
            let n_words: usize = if log_size >= LOG_N_LANES {
                crate::math::pow2_usize((log_size - LOG_N_LANES) as usize)
            } else {
                1
            };
            let mut zeros: Vec<PackedSecureField> = Vec::new();
            let mut i: usize = 0;
            while i < n_words
                invariant
                    i <= n_words,
                    zeros@.len() == i,
                    forall|k: int|
                        0 <= k < i ==> (#[trigger] zeros@[k])@ == Seq::new(
                            N_LANES as nat,
                            |l: int| quartic_zero(),
                        ),
                decreases n_words - i,
            {
                zeros.push(PackedSecureField::zero());
                i = i + 1;
            }
            let ghost before = self.sub_accumulations@;
            self.sub_accumulations[size] = zeros;
            proof {
                assert(packed_rows(zeros@) =~= zero_rows(n_words as nat));
                assert forall|s: nat| s != log_size implies self.column(s) == old(self).column(
                    s,
                ) by {
                    if s < before.len() {
                        assert(self.sub_accumulations@[s as int] == before[s as int]);
                    }
                }
            }
        }
        ColumnAccumulator {
            random_coeff_powers: powers,
            log_size,
            random_coeff: Ghost(self.random_coeff@),
            first: Ghost(first),
            n_total: Ghost(self.n_total@),
        }
    }

    /// The number of contributions that no reservation has taken yet.
    pub fn n_remaining(&self) -> (r: usize)
        requires
            self.wf(),
        ensures
            r == self.n_total() - self.n_reserved(),
    {
        self.random_coeff_powers.len()
    }

    /// Returns the log size of the largest domain.
    pub fn log_size(&self) -> (r: u32)
        requires
            self.wf(),
        ensures
            r == self.max_log_size(),
    {
        (self.sub_accumulations.len() - 1) as u32
    }

    /// The accumulated columns, by `log_size`; the column of a size that no
    /// reservation had is empty.
    pub fn finalize(self) -> (r: Vec<Vec<PackedSecureField>>)
        requires
            self.wf(),
        ensures
            r@.len() == self.max_log_size() + 1,
            forall|s: int| 0 <= s < r@.len() ==> packed_rows(r@[s]@) == self.column(s as nat),
    {
        self.sub_accumulations
    }
}

} // verus!
