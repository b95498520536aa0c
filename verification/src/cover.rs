//! Choosing cover subnets: the candidates, the random choice among them, and the split of a
//! list of subnets by the answers that a provider gave for them.

use crate::common::{all_valid, SubnetId};
use crate::prng::{is_permutation, lemma_permutation, Prng};
use crate::subnet_set::{lemma_every_subnet, lemma_valid_set_bound, SubnetSet};
use vstd::prelude::*;
use vstd::set_lib::*;

verus! {

/// Largest number of extra subnets beside the mandatory ones: the configured number, or what
/// the 64 subnets leave room for if that is less.
pub open spec fn capacity(k: usize, mandatory: Set<SubnetId>) -> int {
    if k <= 64 - mandatory.len() {
        k as int
    } else {
        64 - mandatory.len()
    }
}

/// Whether `s` can be taken as a new extra: it is valid, not mandatory and not held already.
pub open spec fn is_free(s: SubnetId, mandatory: Set<SubnetId>, held: Set<SubnetId>) -> bool {
    s.is_valid() && !mandatory.contains(s) && !held.contains(s)
}

/// Whether the subnets of `list` come in strictly ascending order.
pub open spec fn ascending(list: Seq<SubnetId>) -> bool {
    forall|i: int, j: int| 0 <= i < j < list.len() ==> list[i].0 < list[j].0
}

/// The members of `items` whose flag equals `want`, in order. A member without a flag counts
/// as flagged `false`.
pub open spec fn picked(items: Seq<SubnetId>, flags: Seq<bool>, want: bool) -> Seq<SubnetId>
    decreases items.len(),
{
    if items.len() == 0 {
        Seq::empty()
    } else {
        let rest = picked(items.drop_last(), flags, want);
        let i = items.len() - 1;
        let flag = i < flags.len() && flags[i];
        if flag == want {
            rest.push(items.last())
        } else {
            rest
        }
    }
}

/// A member of a split is a member of the list, and where the list has no duplicates each of
/// its members is in exactly one of the two parts, which have no duplicates either.
pub proof fn lemma_picked(items: Seq<SubnetId>, flags: Seq<bool>)
    ensures
        forall|x: SubnetId|
            picked(items, flags, true).contains(x) || picked(items, flags, false).contains(x)
                <==> items.contains(x),
        picked(items, flags, true).len() + picked(items, flags, false).len() == items.len(),
        items.no_duplicates() ==> picked(items, flags, true).no_duplicates() && picked(
            items,
            flags,
            false,
        ).no_duplicates() && forall|x: SubnetId|
            !(picked(items, flags, true).contains(x) && picked(items, flags, false).contains(x)),
        all_valid(items) ==> all_valid(picked(items, flags, true)) && all_valid(
            picked(items, flags, false),
        ),
    decreases items.len(),
{
    let yes = picked(items, flags, true);
    let no = picked(items, flags, false);
    if items.len() == 0 {
    } else {
        let front = items.drop_last();
        let last = items.last();
        lemma_picked(front, flags);
        let yes0 = picked(front, flags, true);
        let no0 = picked(front, flags, false);
        let i = items.len() - 1;
        let flag = i < flags.len() && flags[i];
        assert(items =~= front.push(last));
        assert forall|x: SubnetId| yes.contains(x) || no.contains(x) <==> items.contains(x) by {
            if items.contains(x) {
                let k = choose|k: int| 0 <= k < items.len() && items[k] == x;
                if k < front.len() {
                    assert(front[k] == x);
                    assert(front.contains(x));
                    if yes0.contains(x) {
                        let a = choose|a: int| 0 <= a < yes0.len() && yes0[a] == x;
                        assert(yes[a] == x);
                    } else {
                        let a = choose|a: int| 0 <= a < no0.len() && no0[a] == x;
                        assert(no[a] == x);
                    }
                } else {
                    if flag {
                        assert(yes[yes0.len() as int] == x);
                    } else {
                        assert(no[no0.len() as int] == x);
                    }
                }
            }
            if yes.contains(x) {
                let a = choose|a: int| 0 <= a < yes.len() && yes[a] == x;
                if a < yes0.len() {
                    assert(yes0[a] == x);
                    assert(yes0.contains(x));
                    assert(front.contains(x));
                    let k = choose|k: int| 0 <= k < front.len() && front[k] == x;
                    assert(items[k] == x);
                } else {
                    assert(items[i] == x);
                }
            }
            if no.contains(x) {
                let a = choose|a: int| 0 <= a < no.len() && no[a] == x;
                if a < no0.len() {
                    assert(no0[a] == x);
                    assert(no0.contains(x));
                    assert(front.contains(x));
                    let k = choose|k: int| 0 <= k < front.len() && front[k] == x;
                    assert(items[k] == x);
                } else {
                    assert(items[i] == x);
                }
            }
        }
        if items.no_duplicates() {
            assert forall|a: int, b: int| 0 <= a < front.len() && 0 <= b < front.len() && a
                != b implies front[a] != front[b] by {
                assert(front[a] == items[a]);
                assert(front[b] == items[b]);
            }
            assert(!front.contains(last)) by {
                if front.contains(last) {
                    let k = choose|k: int| 0 <= k < front.len() && front[k] == last;
                    assert(items[k] == items[i]);
                }
            }
            assert(!yes0.contains(last));
            assert(!no0.contains(last));
            assert forall|x: SubnetId| !(yes.contains(x) && no.contains(x)) by {
                if yes.contains(x) && no.contains(x) {
                    let a = choose|a: int| 0 <= a < yes.len() && yes[a] == x;
                    let b = choose|b: int| 0 <= b < no.len() && no[b] == x;
                    if a < yes0.len() {
                        assert(yes0[a] == x);
                        assert(yes0.contains(x));
                    }
                    if b < no0.len() {
                        assert(no0[b] == x);
                        assert(no0.contains(x));
                    }
                }
            }
        }
        if all_valid(items) {
            assert forall|a: int| 0 <= a < front.len() implies (#[trigger] front[a]).is_valid() by {
                assert(front[a] == items[a]);
            }
            assert(items[i].is_valid());
        }
    }
}

/// Splits `list` by `flags` into the subnets flagged `true` and the others.
pub fn partition(list: &Vec<SubnetId>, flags: &Vec<bool>) -> (parts: (Vec<SubnetId>, Vec<SubnetId>))
    ensures
        parts.0@ == picked(list@, flags@, true),
        parts.1@ == picked(list@, flags@, false),
{
    let mut yes: Vec<SubnetId> = Vec::new();
    let mut no: Vec<SubnetId> = Vec::new();
    let mut i: usize = 0;
    while i < list.len()
        invariant
            i <= list.len(),
            yes@ == picked(list@.take(i as int), flags@, true),
            no@ == picked(list@.take(i as int), flags@, false),
        decreases list.len() - i,
    {
        let flag = i < flags.len() && flags[i];
        proof {
            let next = list@.take(i as int + 1);
            assert(next.drop_last() =~= list@.take(i as int));
            assert(next.last() == list@[i as int]);
        }
        if flag {
            yes.push(list[i]);
        } else {
            no.push(list[i]);
        }
        i = i + 1;
    }
    assert(list@.take(i as int) =~= list@);
    (yes, no)
}

/// The subnets that are free to become extras, in ascending order.
pub fn cover_candidates(mandatory: &SubnetSet, held: &SubnetSet) -> (list: Vec<SubnetId>)
    ensures
        ascending(list@),
        list@.no_duplicates(),
        all_valid(list@),
        forall|s: SubnetId| list@.contains(s) <==> is_free(s, mandatory@, held@),
{
    let mut list: Vec<SubnetId> = Vec::new();
    let mut id: u8 = 0;
    while id < 64
        invariant
            id <= 64,
            ascending(list@),
            forall|i: int| 0 <= i < list@.len() ==> (#[trigger] list@[i]).0 < id,
            forall|s: SubnetId|
                list@.contains(s) <==> (s.0 < id && is_free(s, mandatory@, held@)),
        decreases 64 - id,
    {
        let s = SubnetId(id);
        if !mandatory.contains(&s) && !held.contains(&s) {
            let ghost before = list@;
            list.push(s);
            proof {
                assert forall|x: SubnetId|
                    list@.contains(x) <==> (x.0 < id + 1 && is_free(x, mandatory@, held@)) by {
                    if list@.contains(x) {
                        let k = choose|k: int| 0 <= k < list@.len() && list@[k] == x;
                        if k < before.len() {
                            assert(before[k] == x);
                            assert(before.contains(x));
                        }
                    }
                    if x.0 < id + 1 && is_free(x, mandatory@, held@) {
                        if x.0 < id {
                            assert(before.contains(x));
                            let k = choose|k: int| 0 <= k < before.len() && before[k] == x;
                            assert(list@[k] == x);
                        } else {
                            assert(x == s);
                            assert(list@[before.len() as int] == x);
                        }
                    }
                }
            }
        } else {
            proof {
                assert forall|x: SubnetId|
                    list@.contains(x) <==> (x.0 < id + 1 && is_free(x, mandatory@, held@)) by {
                    if x.0 == id {
                        assert(x == s);
                    }
                }
            }
        }
        id = id + 1;
    }
    proof {
        assert forall|i: int| 0 <= i < list@.len() implies (#[trigger] list@[i]).is_valid() by {}
    }
    list
}

/// Whether `chosen` can be the outcome of shuffling `candidates` and keeping the first `room`:
/// it is the start of some rearrangement of the candidates, as long as `room` allows.
pub open spec fn is_random_choice(
    candidates: Seq<SubnetId>,
    room: usize,
    chosen: Seq<SubnetId>,
) -> bool {
    exists|order: Seq<SubnetId>| #[trigger]
        is_permutation(candidates, order) && chosen == order.take(
            if room <= candidates.len() {
                room as int
            } else {
                candidates.len() as int
            },
        )
}

/// A random choice has as many members as there is room for or as there are candidates, takes
/// candidates only, takes none twice where no candidate occurs twice, and takes every candidate
/// where there is room for all.
pub proof fn lemma_random_choice(candidates: Seq<SubnetId>, room: usize, chosen: Seq<SubnetId>)
    requires
        is_random_choice(candidates, room, chosen),
    ensures
        chosen.len() == if room <= candidates.len() {
            room as int
        } else {
            candidates.len() as int
        },
        forall|s: SubnetId| chosen.contains(s) ==> candidates.contains(s),
        candidates.no_duplicates() ==> chosen.no_duplicates(),
        all_valid(candidates) ==> all_valid(chosen),
        room >= candidates.len() ==> chosen.to_set() == candidates.to_set(),
{
    let order = choose|order: Seq<SubnetId>| #[trigger]
        is_permutation(candidates, order) && chosen == order.take(
            if room <= candidates.len() {
                room as int
            } else {
                candidates.len() as int
            },
        );
    lemma_permutation(candidates, order);
    assert forall|s: SubnetId| chosen.contains(s) implies candidates.contains(s) by {
        let k = choose|k: int| 0 <= k < chosen.len() && chosen[k] == s;
        assert(order[k] == s);
        assert(order.contains(s));
    }
    if candidates.no_duplicates() {
        assert forall|a: int, b: int| 0 <= a < chosen.len() && 0 <= b < chosen.len() && a
            != b implies chosen[a] != chosen[b] by {
            assert(chosen[a] == order[a]);
            assert(chosen[b] == order[b]);
        }
    }
    if all_valid(candidates) {
        assert forall|a: int| 0 <= a < chosen.len() implies (#[trigger] chosen[a]).is_valid() by {
            assert(chosen.contains(chosen[a]));
            let k = choose|k: int| 0 <= k < candidates.len() && candidates[k] == chosen[a];
            assert(candidates[k].is_valid());
        }
    }
    if room >= candidates.len() {
        assert(chosen =~= order);
    }
}

/// Shuffles the candidates and keeps the first `room` of them.
pub fn select_cover(candidates: Vec<SubnetId>, room: usize, rng: &mut Prng) -> (chosen: Vec<
    SubnetId,
>)
    ensures
        is_random_choice(candidates@, room, chosen@),
{
    let mut order = candidates;
    rng.shuffle(&mut order);
    let ghost shuffled = order@;
    order.truncate(room);
    proof {
        assert(is_permutation(candidates@, shuffled));
        if room <= shuffled.len() {
            assert(order@ =~= shuffled.take(room as int));
        } else {
            assert(order@ =~= shuffled.take(shuffled.len() as int));
        }
    }
    order
}

/// A set of valid subnets that avoids the mandatory ones fits into what the mandatory ones
/// leave of the 64.
pub proof fn lemma_room_beside(mandatory: Set<SubnetId>, extra: Set<SubnetId>)
    requires
        forall|s: SubnetId| mandatory.contains(s) ==> s.is_valid(),
        forall|s: SubnetId| extra.contains(s) ==> s.is_valid(),
        mandatory.disjoint(extra),
    ensures
        mandatory.finite(),
        extra.finite(),
        extra.len() <= 64 - mandatory.len(),
{
    crate::subnet_set::lemma_disjoint_bound(mandatory, extra);
}

/// The free subnets are as many as the 64 leave beside the mandatory and the held ones.
pub proof fn lemma_candidate_count(
    candidates: Seq<SubnetId>,
    mandatory: Set<SubnetId>,
    held: Set<SubnetId>,
)
    requires
        candidates.no_duplicates(),
        forall|s: SubnetId| candidates.contains(s) <==> is_free(s, mandatory, held),
        forall|s: SubnetId| mandatory.contains(s) ==> s.is_valid(),
        forall|s: SubnetId| held.contains(s) ==> s.is_valid(),
        mandatory.disjoint(held),
    ensures
        mandatory.finite(),
        held.finite(),
        candidates.len() == 64 - mandatory.len() - held.len(),
{
    lemma_every_subnet();
    lemma_valid_set_bound(mandatory);
    lemma_valid_set_bound(held);
    let full = crate::subnet_set::every_subnet().to_set();
    let free = candidates.to_set();
    candidates.unique_seq_to_set();
    let taken = mandatory.union(held);
    lemma_set_disjoint_lens(mandatory, held);
    assert(free.disjoint(taken));
    lemma_valid_set_bound(free);
    lemma_set_disjoint_lens(free, taken);
    assert(free.union(taken) =~= full);
}

} // verus!
