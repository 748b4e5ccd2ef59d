use crate::rnd::{gen_between, generate_diff_sequence};
use rand::rngs::ThreadRng;
use vstd::prelude::*;

verus! {

/// `a + b` modulo 256.
pub open spec fn add_wrapping(a: u8, b: u8) -> u8 {
    ((a as int + b as int) % 256) as u8
}

/// Number of `true` entries of `s`.
pub open spec fn count_true(s: Seq<bool>) -> nat
    decreases s.len(),
{
    if s.len() == 0 {
        0
    } else {
        count_true(s.drop_last()) + if s.last() {
            1nat
        } else {
            0nat
        }
    }
}

/// `bytes` with `delta[i]` added (wrapping) at every offset `i` that `mask`
/// selects.
pub open spec fn apply_mask(mask: Seq<bool>, delta: Seq<u8>, bytes: Seq<u8>) -> Seq<u8> {
    Seq::new(
        bytes.len(),
        |i: int|
            if i < mask.len() && mask[i] {
                add_wrapping(bytes[i], delta[i])
            } else {
                bytes[i]
            },
    )
}

/// The single-byte splices, in increasing offset order, that the offsets
/// `0..n` contribute: one `(offset, new value)` for each selected offset.
pub open spec fn splices_upto(mask: Seq<bool>, delta: Seq<u8>, bytes: Seq<u8>, n: int) -> Seq<
    (usize, u8),
>
    decreases n,
{
    if n <= 0 {
        Seq::empty()
    } else {
        let prev = splices_upto(mask, delta, bytes, n - 1);
        if mask[n - 1] {
            prev.push(((n - 1) as usize, add_wrapping(bytes[n - 1], delta[n - 1])))
        } else {
            prev
        }
    }
}

/// The record that results from writing each `(offset, value)` of `ops`, in
/// order, over `bytes`; an offset past the end is ignored.
pub open spec fn apply_splices(bytes: Seq<u8>, ops: Seq<(usize, u8)>) -> Seq<u8>
    decreases ops.len(),
{
    if ops.len() == 0 {
        bytes
    } else {
        let before = apply_splices(bytes, ops.drop_last());
        let (offset, value) = ops.last();
        if offset < before.len() {
            before.update(offset as int, value)
        } else {
            before
        }
    }
}

/// Which bytes of a record change, and by how much.
pub struct UpdatePlan {
    /// Amount added (wrapping) at each offset; zero where the mask is unset.
    pub updates: Vec<u8>,
    /// Whether each offset changes.
    pub update_mask: Vec<bool>,
}

proof fn lemma_count_true_set(s: Seq<bool>, k: int)
    requires
        0 <= k < s.len(),
        !s[k],
    ensures
        count_true(s.update(k, true)) == count_true(s) + 1,
    decreases s.len(),
{
    let t = s.update(k, true);
    if k == s.len() - 1 {
        assert(t.drop_last() =~= s.drop_last());
    } else {
        assert(t.drop_last() =~= s.drop_last().update(k, true));
        lemma_count_true_set(s.drop_last(), k);
    }
}

proof fn lemma_count_true_all_false(n: nat)
    ensures
        count_true(Seq::new(n, |i: int| false)) == 0,
    decreases n,
{
    if n > 0 {
        assert(Seq::new(n, |i: int| false).drop_last() =~= Seq::new((n - 1) as nat, |i: int| false));
        lemma_count_true_all_false((n - 1) as nat);
    }
}

/// A random byte, every value possible.
fn random_byte(rng: &mut ThreadRng) -> (r: u8) {
    gen_between(rng, 0, 255) as u8
}

/// A record of `block_size` random bytes, each drawn on its own.
pub fn random_record(rng: &mut ThreadRng, block_size: usize) -> (r: Vec<u8>)
    ensures
        r@.len() == block_size,
{
    let mut record: Vec<u8> = Vec::new();
    let mut j: usize = 0;
    while j < block_size
        invariant
            j <= block_size,
            record@.len() == j,
        decreases block_size - j,
    {
        record.push(random_byte(rng));
        j = j + 1;
    }
    record
}

/// A record id drawn from `0..block_num`.
pub fn pick_record(rng: &mut ThreadRng, block_num: usize) -> (id: usize)
    requires
        block_num > 0,
    ensures
        id < block_num,
{
    gen_between(rng, 0, block_num - 1)
}

impl UpdatePlan {
    /// Both sequences cover the same record length, and an offset that does
    /// not change has no delta.
    pub open spec fn wf(&self) -> bool {
        &&& self.updates@.len() == self.update_mask@.len()
        &&& self.update_mask@.len() <= usize::MAX
        &&& forall|i: int|
            0 <= i < self.update_mask@.len() && !self.update_mask@[i] ==> #[trigger] self.updates@[i]
                == 0
    }

    /// Record length the plan is for.
    pub open spec fn size(&self) -> nat {
        self.update_mask@.len()
    }

    /// What the plan makes of a record holding `bytes`.
    pub open spec fn applied(&self, bytes: Seq<u8>) -> Seq<u8> {
        apply_mask(self.update_mask@, self.updates@, bytes)
    }

    /// The splices that take a record holding `bytes` to its updated form.
    pub open spec fn splices(&self, bytes: Seq<u8>) -> Seq<(usize, u8)> {
        splices_upto(self.update_mask@, self.updates@, bytes, self.size() as int)
    }

    /// A plan for records of `block_size` bytes that changes exactly
    /// `to_update` offsets, chosen uniformly without replacement, each by a
    /// random delta.
    pub fn from_counts(rng: &mut ThreadRng, block_size: usize, to_update: usize) -> (plan: Self)
        requires
            block_size > 0,
            to_update <= block_size,
        ensures
            plan.wf(),
            plan.size() == block_size,
            count_true(plan.update_mask@) == to_update,
    {
        let mut update_mask: Vec<bool> = vec![false; block_size];
        let mut updates: Vec<u8> = vec![0u8; block_size];
        proof {
            assert(update_mask@ =~= Seq::new(block_size as nat, |i: int| false));
            lemma_count_true_all_false(block_size as nat);
        }
        let indices = generate_diff_sequence(rng, 0, block_size - 1, to_update);
        let mut k: usize = 0;
        while k < indices.len()
            invariant
                k <= indices@.len(),
                indices@.len() == to_update,
                indices@.no_duplicates(),
                forall|j: int| 0 <= j < to_update ==> 0 <= #[trigger] indices@[j] <= block_size - 1,
                update_mask@.len() == block_size,
                updates@.len() == block_size,
                forall|i: int|
                    0 <= i < block_size && #[trigger] update_mask@[i] ==> exists|j: int|
                        0 <= j < k && indices@[j] == i,
                forall|i: int|
                    0 <= i < block_size && !update_mask@[i] ==> #[trigger] updates@[i] == 0,
                count_true(update_mask@) == k,
            decreases indices@.len() - k,
        {
            let index = indices[k];
            let add_val = random_byte(rng);
            proof {
                if update_mask@[index as int] {
                    let j = choose|j: int| 0 <= j < k && indices@[j] == index;
                    assert(indices@[j] == indices@[k as int]);
                }
                lemma_count_true_set(update_mask@, index as int);
            }
            update_mask.set(index, true);
            updates.set(index, add_val);
            proof {
                assert forall|i: int|
                    0 <= i < block_size && #[trigger] update_mask@[i] implies exists|j: int|
                        0 <= j < k + 1 && indices@[j] == i by {
                    if i != index {
                        let j = choose|j: int| 0 <= j < k && indices@[j] == i;
                        assert(0 <= j < k + 1 && indices@[j] == i);
                    } else {
                        assert(indices@[k as int] == i);
                    }
                }
            }
            k = k + 1;
        }
        UpdatePlan { updates, update_mask }
    }

    /// The record that this plan makes of `bytes`: the delta is added
    /// (wrapping) in place at each selected offset of a copy.
    pub fn apply(&self, bytes: &[u8]) -> (r: Vec<u8>)
        requires
            self.wf(),
            bytes@.len() == self.size(),
        ensures
            r@ == self.applied(bytes@),
    {
        let mut expected: Vec<u8> = Vec::new();
        let mut j: usize = 0;
        while j < bytes.len()
            invariant
                j <= bytes@.len(),
                expected@ =~= bytes@.subrange(0, j as int),
            decreases bytes@.len() - j,
        {
            expected.push(bytes[j]);
            j = j + 1;
        }
        let mut i: usize = 0;
        while i < self.update_mask.len()
            invariant
                self.wf(),
                bytes@.len() == self.size(),
                i <= self.size(),
                expected@.len() == bytes@.len(),
                forall|k: int|
                    0 <= k < bytes@.len() ==> #[trigger] expected@[k] == if k < i {
                        self.applied(bytes@)[k]
                    } else {
                        bytes@[k]
                    },
            decreases self.size() - i,
        {
            if self.update_mask[i] {
                let res = expected[i].wrapping_add(self.updates[i]);
                expected.set(i, res);
            }
            i = i + 1;
        }
        assert(expected@ =~= self.applied(bytes@));
        expected
    }

    /// Read-modify-copy: builds the whole updated record from the current
    /// one, offset by offset.
    pub fn copy_rebuild(&self, was: &[u8]) -> (r: Vec<u8>)
        requires
            self.wf(),
            was@.len() == self.size(),
        ensures
            r@ == self.applied(was@),
    {
        let mut updated: Vec<u8> = Vec::with_capacity(self.update_mask.len());
        let mut i: usize = 0;
        while i < self.update_mask.len()
            invariant
                self.wf(),
                was@.len() == self.size(),
                i <= self.size(),
                updated@ =~= self.applied(was@).subrange(0, i as int),
            decreases self.size() - i,
        {
            if !self.update_mask[i] {
                updated.push(was[i]);
            } else {
                updated.push(was[i].wrapping_add(self.updates[i]));
            }
            i = i + 1;
        }
        updated
    }

    /// Positional splice: the `(offset, new value)` pairs, in increasing
    /// offset order, for the offsets that change; each one is a one-byte
    /// splice of the stored record.
    pub fn splice_ops(&self, was: &[u8]) -> (r: Vec<(usize, u8)>)
        requires
            self.wf(),
            was@.len() == self.size(),
        ensures
            r@ == self.splices(was@),
    {
        let mut splices: Vec<(usize, u8)> = Vec::new();
        let mut i: usize = 0;
        while i < self.update_mask.len()
            invariant
                self.wf(),
                was@.len() == self.size(),
                i <= self.size(),
                splices@ == splices_upto(self.update_mask@, self.updates@, was@, i as int),
            decreases self.size() - i,
        {
            if self.update_mask[i] {
                let res = was[i].wrapping_add(self.updates[i]);
                splices.push((i, res));
            }
            i = i + 1;
        }
        splices
    }
}

} // verus!

verus! {

proof fn lemma_count_true_bounds(s: Seq<bool>)
    ensures
        count_true(s) <= s.len(),
        count_true(s) == 0 ==> forall|i: int| 0 <= i < s.len() ==> !#[trigger] s[i],
        count_true(s) == s.len() ==> forall|i: int| 0 <= i < s.len() ==> #[trigger] s[i],
    decreases s.len(),
{
    if s.len() > 0 {
        let d = s.drop_last();
        lemma_count_true_bounds(d);
        assert forall|i: int| 0 <= i < s.len() - 1 implies s[i] == #[trigger] d[i] by {}
        assert(s.last() == s[s.len() - 1]);
        if count_true(s) == 0 {
            assert(!s.last());
            assert forall|i: int| 0 <= i < s.len() implies !#[trigger] s[i] by {
                if i < s.len() - 1 {
                    assert(!d[i]);
                }
            }
        }
        if count_true(s) == s.len() {
            assert(s.last());
            assert(count_true(d) == d.len());
            assert forall|i: int| 0 <= i < s.len() implies #[trigger] s[i] by {
                if i < s.len() - 1 {
                    assert(d[i]);
                }
            }
        }
    }
}

proof fn lemma_splices_prefix(mask: Seq<bool>, delta: Seq<u8>, bytes: Seq<u8>, n: int)
    requires
        mask.len() == delta.len(),
        bytes.len() == mask.len(),
        mask.len() <= usize::MAX,
        0 <= n <= mask.len(),
    ensures
        apply_splices(bytes, splices_upto(mask, delta, bytes, n)) == Seq::new(
            bytes.len(),
            |i: int|
                if i < n && mask[i] {
                    add_wrapping(bytes[i], delta[i])
                } else {
                    bytes[i]
                },
        ),
    decreases n,
{
    let target = Seq::new(
        bytes.len(),
        |i: int|
            if i < n && mask[i] {
                add_wrapping(bytes[i], delta[i])
            } else {
                bytes[i]
            },
    );
    if n == 0 {
        assert(apply_splices(bytes, splices_upto(mask, delta, bytes, n)) =~= target);
    } else {
        lemma_splices_prefix(mask, delta, bytes, n - 1);
        let prev = splices_upto(mask, delta, bytes, n - 1);
        if mask[n - 1] {
            let ops = prev.push(((n - 1) as usize, add_wrapping(bytes[n - 1], delta[n - 1])));
            assert(ops.drop_last() =~= prev);
        }
        assert(apply_splices(bytes, splices_upto(mask, delta, bytes, n)) =~= target);
    }
}

/// Both strategies end in the same record: the splices that the positional
/// strategy issues, written over `bytes` in order, give exactly what the
/// copying strategy builds, namely `bytes` with the plan applied.
pub proof fn lemma_strategies_agree(plan: &UpdatePlan, bytes: Seq<u8>)
    requires
        plan.wf(),
        bytes.len() == plan.size(),
    ensures
        apply_splices(bytes, plan.splices(bytes)) == plan.applied(bytes),
{
    lemma_splices_prefix(plan.update_mask@, plan.updates@, bytes, plan.size() as int);
    assert(apply_splices(bytes, plan.splices(bytes)) =~= plan.applied(bytes));
}

/// A plan that selects no offset leaves every record unchanged, under
/// either strategy.
pub proof fn lemma_no_update_keeps(plan: &UpdatePlan, bytes: Seq<u8>)
    requires
        plan.wf(),
        bytes.len() == plan.size(),
        count_true(plan.update_mask@) == 0,
    ensures
        plan.applied(bytes) == bytes,
        apply_splices(bytes, plan.splices(bytes)) == bytes,
{
    lemma_count_true_bounds(plan.update_mask@);
    assert(plan.applied(bytes) =~= bytes);
    lemma_strategies_agree(plan, bytes);
}

/// A plan that selects every offset gives each byte the value
/// `original + delta` modulo 256, under either strategy.
pub proof fn lemma_full_update_adds_everywhere(plan: &UpdatePlan, bytes: Seq<u8>)
    requires
        plan.wf(),
        bytes.len() == plan.size(),
        count_true(plan.update_mask@) == plan.size(),
    ensures
        forall|i: int|
            0 <= i < bytes.len() ==> #[trigger] plan.applied(bytes)[i] == add_wrapping(
                bytes[i],
                plan.updates@[i],
            ),
        forall|i: int|
            0 <= i < bytes.len() ==> #[trigger] apply_splices(bytes, plan.splices(bytes))[i]
                == add_wrapping(bytes[i], plan.updates@[i]),
{
    lemma_count_true_bounds(plan.update_mask@);
    lemma_strategies_agree(plan, bytes);
}

} // verus!
