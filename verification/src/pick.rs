//! Random choice among stored values.

use rand::rngs::ThreadRng;
use rand::seq::SliceRandom;
use crate::segment::lemma_bytes_deep_view;
use vstd::prelude::*;

verus! {

/// `rand::rngs::ThreadRng`, the handle to a thread's random number
/// generator. Nothing of what is inside it is known here.
#[verifier::external_type_specification]
#[verifier::external_body]
pub struct ExThreadRng(rand::rngs::ThreadRng);

/// `rand::thread_rng` hands out a handle to the calling thread's random
/// number generator, which the system seeds. Nothing is claimed of the
/// handle. The call is believed to return: it fails only where the system
/// cannot give the generator its seed.
pub assume_specification[ rand::thread_rng ]() -> (rng: ThreadRng)
;

/// `rand::seq::SliceRandom::choose` on the values of a pool, and a copy of
/// what it picked: nothing for an empty pool, else one of the pool's values.
/// Which one is left open, as it depends on the generator's state; that the
/// choice is uniform is not stated either.
#[verifier::external_body]
fn choose_value(pool: &Vec<Vec<u8>>, rng: &mut ThreadRng) -> (picked: Option<Vec<u8>>)
    ensures
        picked is None <==> pool@.len() == 0,
        picked is Some ==> exists|i: int|
            0 <= i < pool@.len() && (#[trigger] pool@[i])@ == picked.unwrap()@,
{
    pool.choose(rng).cloned()
}

/// `picked` holds one value of every pool, in the order of the pools.
pub open spec fn selection(pools: Seq<Seq<Seq<u8>>>, picked: Seq<Seq<u8>>) -> bool {
    &&& picked.len() == pools.len()
    &&& forall|i: int| 0 <= i < pools.len() ==> (#[trigger] pools[i]).contains(picked[i])
}

/// Every pool holds at least one value.
pub open spec fn all_filled(pools: Seq<Seq<Seq<u8>>>) -> bool {
    forall|i: int| 0 <= i < pools.len() ==> (#[trigger] pools[i]).len() > 0
}

/// Picks one value from every pool at random, each pool on its own.
pub fn pick_values(pools: &Vec<Vec<Vec<u8>>>) -> (picked: Vec<Vec<u8>>)
    requires
        all_filled(pools.deep_view()),
    ensures
        selection(pools.deep_view(), picked.deep_view()),
{
    let mut rng = rand::thread_rng();
    let mut picked: Vec<Vec<u8>> = Vec::new();
    let mut i: usize = 0;
    while i < pools.len()
        invariant
            i <= pools@.len(),
            picked@.len() == i,
            all_filled(pools.deep_view()),
            forall|k: int|
                0 <= k < i ==> (#[trigger] pools.deep_view()[k]).contains(picked.deep_view()[k]),
        decreases pools.len() - i,
    {
        let ghost before = picked;
        assert(pools.deep_view()[i as int].len() > 0);
        assert(pools.deep_view()[i as int].len() == pools@[i as int]@.len());
        let choice = choose_value(&pools[i], &mut rng);
        match choice {
            Some(v) => {
                proof {
                    let j = choose|j: int|
                        0 <= j < pools@[i as int]@.len() && (#[trigger] pools@[i as int]@[j])@ == v@;
                    lemma_bytes_deep_view(pools@[i as int]@[j]);
                    lemma_bytes_deep_view(v);
                    assert(pools.deep_view()[i as int][j] == v.deep_view());
                }
                picked.push(v);
            },
            None => {
                picked.push(Vec::new());
            },
        }
        proof {
            assert forall|k: int| 0 <= k < i + 1 implies (#[trigger] pools.deep_view()[k]).contains(
                picked.deep_view()[k],
            ) by {
                if k < i {
                    assert(picked.deep_view()[k] == before.deep_view()[k]);
                }
            }
        }
        i += 1;
    }
    picked
}

} // verus!
