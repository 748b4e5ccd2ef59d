use rand::rngs::ThreadRng;
use rand::Rng;
use std::collections::HashMap;
use vstd::prelude::*;

verus! {

broadcast use vstd::std_specs::hash::group_hash_axioms;

#[verifier::external_type_specification]
#[verifier::external_body]
pub struct ExThreadRng(ThreadRng);

/// Relies on rand's `Rng::gen_range` over an inclusive range: it returns a
/// value in `lo..=hi`, and panics only on an empty range.
#[verifier::external_body]
pub(crate) fn gen_between(rng: &mut ThreadRng, lo: usize, hi: usize) -> (r: usize)
    requires
        lo <= hi,
    ensures
        lo <= r <= hi,
{
    rng.gen_range(lo..=hi)
}

/// The value that virtual slot `s` holds: the one the map records, or `s`
/// itself when the slot was never written.
spec fn slot_of(m: Map<usize, usize>, s: usize) -> usize {
    if m.contains_key(s) {
        m[s]
    } else {
        s
    }
}

/// `s` with the elements at `a` and `b` exchanged.
spec fn swap_at<T>(s: Seq<T>, a: int, b: int) -> Seq<T> {
    s.update(a, s[b]).update(b, s[a])
}

proof fn lemma_swap_keeps<T>(s: Seq<T>, a: int, b: int)
    requires
        0 <= a < s.len(),
        0 <= b < s.len(),
        s.no_duplicates(),
    ensures
        swap_at(s, a, b).len() == s.len(),
        swap_at(s, a, b).no_duplicates(),
        forall|x: T| s.contains(x) ==> swap_at(s, a, b).contains(x),
        forall|k: int|
            0 <= k < s.len() ==> exists|j: int|
                0 <= j < s.len() && #[trigger] swap_at(s, a, b)[k] == s[j],
{
    let t = swap_at(s, a, b);
    assert forall|x: T| s.contains(x) implies t.contains(x) by {
        let j = choose|j: int| 0 <= j < s.len() && s[j] == x;
        if j == a {
            assert(t[b] == x);
        } else if j == b {
            assert(t[a] == x);
        } else {
            assert(t[j] == x);
        }
    }
    assert forall|k: int| 0 <= k < s.len() implies exists|j: int|
        0 <= j < s.len() && #[trigger] t[k] == s[j] by {
        if k == b {
            assert(t[k] == s[a]);
        } else if k == a {
            assert(t[k] == s[b]);
        } else {
            assert(t[k] == s[k]);
        }
    }
}

/// Draws `count` pairwise distinct values from `l..=r`, each `count`-subset
/// equally likely, with working memory in `O(count)`.
///
/// It runs a partial Fisher-Yates shuffle over a virtual array holding
/// `l..=r`: only the slots that were written are kept, in a map.
pub fn generate_diff_sequence(rng: &mut ThreadRng, l: usize, r: usize, count: usize) -> (res: Vec<
    usize,
>)
    requires
        l <= r,
        count <= r - l + 1,
    ensures
        res@.len() == count,
        res@.no_duplicates(),
        forall|k: int| 0 <= k < count ==> l <= #[trigger] res@[k] <= r,
        count == r - l + 1 ==> forall|x: usize| l <= x <= r ==> res@.contains(x),
{
    let mut replaces: HashMap<usize, usize> = HashMap::new();
    let mut result: Vec<usize> = Vec::new();
    let ghost mut virt: Seq<usize> = Seq::new((r - l + 1) as nat, |j: int| (l + j) as usize);
    proof {
        assert forall|x: usize| l <= x <= r implies virt.contains(x) by {
            assert(virt[x - l] == x);
        }
    }
    let mut i: usize = 0;
    while i < count
        invariant
            l <= r,
            count <= r - l + 1,
            i <= count,
            virt.len() == r - l + 1,
            result@.len() == i,
            forall|j: int| 0 <= j < i ==> virt[j] == result@[j],
            forall|j: int|
                i <= j < virt.len() ==> virt[j] == slot_of(replaces@, (l + j) as usize),
            virt.no_duplicates(),
            forall|j: int| 0 <= j < virt.len() ==> l <= #[trigger] virt[j] <= r,
            forall|x: usize| l <= x <= r ==> virt.contains(x),
        decreases count - i,
    {
        let lbound = l + i;
        let lbound_replace = match replaces.get(&lbound) {
            Some(v) => *v,
            None => lbound,
        };
        let num = gen_between(rng, lbound, r);
        let picked = match replaces.get(&num) {
            Some(v) => *v,
            None => num,
        };
        result.push(picked);
        replaces.insert(num, lbound_replace);
        proof {
            let a = i as int;
            let b = num - l;
            assert(virt[a] == lbound_replace);
            assert(virt[b] == picked);
            lemma_swap_keeps(virt, a, b);
            let old_virt = virt;
            virt = swap_at(virt, a, b);
            assert forall|j: int| 0 <= j < virt.len() implies l <= #[trigger] virt[j] <= r by {
                let k = choose|k: int| 0 <= k < old_virt.len() && virt[j] == old_virt[k];
            }
            assert forall|x: usize| l <= x <= r implies virt.contains(x) by {
                assert(old_virt.contains(x));
            }
        }
        i = i + 1;
    }
    proof {
        assert(result@ =~= virt.subrange(0, count as int));
        assert forall|a: int, b: int|
            0 <= a < result@.len() && 0 <= b < result@.len() && a != b implies result@[a]
            != result@[b] by {
            assert(virt[a] != virt[b]);
        }
        assert forall|k: int| 0 <= k < count implies l <= #[trigger] result@[k] <= r by {
            assert(virt[k] == result@[k]);
        }
        if count == r - l + 1 {
            assert(result@ =~= virt);
        }
    }
    result
}

} // verus!
