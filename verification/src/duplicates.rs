use vstd::prelude::*;
use crate::model::{SoundFxApp, keep_indices};

verus! {

/// Whether a duplicate pair, given by the ids of its two sounds, leaves the
/// sound `id` out.
pub open spec fn pair_without(id: u128) -> spec_fn((u128, u128)) -> bool {
    |p: (u128, u128)| p.0 != id && p.1 != id
}

/// The positions of the duplicate pairs kept after one pass of the
/// duplicates panel: deleting the sound `deleted` drops every pair that names
/// it; then ignoring the pair at `removed` drops the pair at that position of
/// what is left, if there is one.
pub open spec fn pairs_left(pairs: Seq<(u128, u128)>, deleted: Option<u128>, removed: Option<usize>) -> Seq<
    usize,
> {
    let after = match deleted {
        Some(d) => keep_indices(pairs, pair_without(d)),
        None => Seq::new(pairs.len(), |i: int| i as usize),
    };
    match removed {
        Some(i) => if i < after.len() {
            after.remove(i as int)
        } else {
            after
        },
        None => after,
    }
}

impl SoundFxApp {
    /// Applies the actions of the duplicates panel to its list of pairs
    /// (each given by the ids of its two sounds): a deleted sound takes its
    /// pairs with it, then an ignored (or acted on) pair leaves by its
    /// position in the list that is left. Returns the positions, in the
    /// given list, of the pairs that stay, in order.
    pub fn duplicate_pairs_after_actions(
        pairs: &Vec<(u128, u128)>,
        deleted: Option<u128>,
        removed: Option<usize>,
    ) -> (kept: Vec<usize>)
        ensures
            kept@ == pairs_left(pairs@, deleted, removed),
    {
        let mut kept: Vec<usize> = Vec::new();
        let mut i: usize = 0;
        while i < pairs.len()
            invariant
                i <= pairs.len(),
                kept@ == (match deleted {
                    Some(d) => keep_indices(pairs@.take(i as int), pair_without(d)),
                    None => Seq::new(i as nat, |j: int| j as usize),
                }),
            decreases pairs.len() - i,
        {
            let p = pairs[i];
            proof {
                assert(pairs@.take(i + 1).drop_last() =~= pairs@.take(i as int));
                assert(pairs@.take(i + 1).last() == p);
            }
            let keep = match deleted {
                Some(d) => p.0 != d && p.1 != d,
                None => true,
            };
            if keep {
                kept.push(i);
            }
            proof {
                if deleted is None {
                    assert(kept@ =~= Seq::new((i + 1) as nat, |j: int| j as usize));
                }
            }
            i = i + 1;
        }
        assert(pairs@.take(pairs@.len() as int) =~= pairs@);
        match removed {
            Some(r) => {
                if r < kept.len() {
                    kept.remove(r);
                }
            },
            None => {},
        }
        kept
    }
}

} // verus!
