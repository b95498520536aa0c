//! A set of attestation subnets, kept in the order in which its members were added.

use crate::common::{all_valid, SubnetId};
use vstd::prelude::*;
use vstd::set_lib::*;

verus! {

/// Every valid subnet, in ascending order.
pub open spec fn every_subnet() -> Seq<SubnetId> {
    Seq::new(64, |i: int| SubnetId(i as u8))
}

/// The 64 valid subnets are distinct, and a subnet is among them exactly if it is valid.
pub proof fn lemma_every_subnet()
    ensures
        every_subnet().no_duplicates(),
        every_subnet().to_set().finite(),
        every_subnet().to_set().len() == 64,
        forall|id: SubnetId| every_subnet().to_set().contains(id) <==> id.is_valid(),
{
    let all = every_subnet();
    assert(all.no_duplicates());
    all.unique_seq_to_set();
    assert forall|id: SubnetId| all.to_set().contains(id) <==> id.is_valid() by {
        if id.is_valid() {
            assert(all[id.0 as int] == id);
        }
    }
}

/// A finite set of valid subnets has at most 64 members.
pub proof fn lemma_valid_set_bound(s: Set<SubnetId>)
    requires
        forall|id: SubnetId| s.contains(id) ==> id.is_valid(),
    ensures
        s.finite(),
        s.len() <= 64,
{
    lemma_every_subnet();
    let full = every_subnet().to_set();
    assert forall|id: SubnetId| s.contains(id) implies full.contains(id) by {
        assert(id.is_valid());
    }
    assert(s.subset_of(full));
    lemma_len_subset(s, full);
}

/// Two disjoint sets of valid subnets have at most 64 members together.
pub proof fn lemma_disjoint_bound(a: Set<SubnetId>, b: Set<SubnetId>)
    requires
        forall|id: SubnetId| a.contains(id) ==> id.is_valid(),
        forall|id: SubnetId| b.contains(id) ==> id.is_valid(),
        a.disjoint(b),
    ensures
        a.finite(),
        b.finite(),
        a.len() + b.len() <= 64,
{
    lemma_valid_set_bound(a);
    lemma_valid_set_bound(b);
    lemma_valid_set_bound(a.union(b));
    lemma_set_disjoint_lens(a, b);
}

/// Removing the member at `i` of a sequence without duplicates removes that member from its set.
pub proof fn lemma_remove_to_set<A>(s: Seq<A>, i: int)
    requires
        s.no_duplicates(),
        0 <= i < s.len(),
    ensures
        s.remove(i).no_duplicates(),
        s.remove(i).to_set() == s.to_set().remove(s[i]),
{
    let r = s.remove(i);
    assert forall|j: int, k: int| 0 <= j < r.len() && 0 <= k < r.len() && j != k implies r[j]
        != r[k] by {
        let jj = if j < i { j } else { j + 1 };
        let kk = if k < i { k } else { k + 1 };
        assert(r[j] == s[jj]);
        assert(r[k] == s[kk]);
    }
    assert forall|a: A| r.to_set().contains(a) <==> s.to_set().remove(s[i]).contains(a) by {
        if r.contains(a) {
            let j = choose|j: int| 0 <= j < r.len() && r[j] == a;
            let jj = if j < i { j } else { j + 1 };
            assert(r[j] == s[jj]);
            assert(s.contains(a));
        }
        if s.contains(a) && a != s[i] {
            let k = choose|k: int| 0 <= k < s.len() && s[k] == a;
            let kk = if k < i { k } else { k - 1 };
            assert(r[kk] == s[k]);
            assert(r.contains(a));
        }
    }
    assert(r.to_set() =~= s.to_set().remove(s[i]));
}

/// A set of valid subnets without repetition.
#[derive(Debug)]
pub struct SubnetSet {
    members: Vec<SubnetId>,
}

impl View for SubnetSet {
    type V = Set<SubnetId>;

    closed spec fn view(&self) -> Set<SubnetId> {
        self.members@.to_set()
    }
}

impl SubnetSet {
    /// The members in the order in which they were added.
    pub closed spec fn order(&self) -> Seq<SubnetId> {
        self.members@
    }

    /// The invariant of the type: every member is valid and none occurs twice.
    pub closed spec fn wf(&self) -> bool {
        &&& all_valid(self.members@)
        &&& self.members@.no_duplicates()
    }

    /// What the invariant says of the set and of the order of its members.
    pub proof fn lemma_wf(&self)
        requires
            self.wf(),
        ensures
            self@.finite(),
            self@.len() <= 64,
            self@.len() == self.order().len(),
            self.order().no_duplicates(),
            self.order().to_set() == self@,
            all_valid(self.order()),
            forall|id: SubnetId| self@.contains(id) ==> id.is_valid(),
    {
        self.members@.unique_seq_to_set();
        assert forall|id: SubnetId| self@.contains(id) implies id.is_valid() by {
            let i = choose|i: int| 0 <= i < self.members@.len() && self.members@[i] == id;
            assert(self.members@[i].is_valid());
        }
        lemma_valid_set_bound(self@);
    }

    /// The empty set.
    pub fn new() -> (set: SubnetSet)
        ensures
            set.wf(),
            set@ == Set::<SubnetId>::empty(),
            set.order() == Seq::<SubnetId>::empty(),
    {
        let set = SubnetSet { members: Vec::new() };
        assert(set@ =~= Set::<SubnetId>::empty());
        set
    }

    /// Number of members.
    pub fn len(&self) -> (n: usize)
        requires
            self.wf(),
        ensures
            n == self@.len(),
            n == self.order().len(),
            n <= 64,
    {
        proof {
            self.lemma_wf();
        }
        self.members.len()
    }

    /// Whether the set has no member.
    pub fn is_empty(&self) -> (empty: bool)
        requires
            self.wf(),
        ensures
            empty == (self@.len() == 0),
            empty == (self@ == Set::<SubnetId>::empty()),
    {
        proof {
            self.lemma_wf();
            if self.members@.len() == 0 {
                assert(self@ =~= Set::<SubnetId>::empty());
            }
        }
        self.members.len() == 0
    }

    /// Whether `id` is a member.
    pub fn contains(&self, id: &SubnetId) -> (found: bool)
        ensures
            found == self@.contains(*id),
    {
        let mut i: usize = 0;
        while i < self.members.len()
            invariant
                i <= self.members.len(),
                forall|j: int| 0 <= j < i ==> self.members@[j] != *id,
            decreases self.members.len() - i,
        {
            if self.members[i].0 == id.0 {
                assert(self.members@[i as int] == *id);
                return true;
            }
            i = i + 1;
        }
        false
    }

    /// Adds `id` if it is valid and not yet a member, and tells whether it was added.
    pub fn insert(&mut self, id: SubnetId) -> (added: bool)
        requires
            old(self).wf(),
        ensures
            final(self).wf(),
            added == (id.is_valid() && !old(self)@.contains(id)),
            added ==> final(self)@ == old(self)@.insert(id) && final(self).order() == old(self).order().push(id),
            !added ==> final(self)@ == old(self)@ && final(self).order() == old(self).order(),
    {
        if id.0 > 63 || self.contains(&id) {
            return false;
        }
        proof {
            self.members@.lemma_push_to_set_commute(id);
            assert(!self.members@.contains(id));
        }
        self.members.push(id);
        true
    }

    /// Removes `id` if it is a member, and tells whether it was.
    pub fn remove(&mut self, id: &SubnetId) -> (removed: bool)
        requires
            old(self).wf(),
        ensures
            final(self).wf(),
            removed == old(self)@.contains(*id),
            final(self)@ == old(self)@.remove(*id),
    {
        let mut i: usize = 0;
        while i < self.members.len()
            invariant
                i <= self.members.len(),
                self.wf(),
                self.members@ == old(self).members@,
                forall|j: int| 0 <= j < i ==> self.members@[j] != *id,
            decreases self.members.len() - i,
        {
            if self.members[i].0 == id.0 {
                proof {
                    assert(self.members@[i as int] == *id);
                    lemma_remove_to_set(self.members@, i as int);
                    let rest = self.members@.remove(i as int);
                    assert forall|j: int| 0 <= j < rest.len() implies (#[trigger] rest[j]).is_valid() by {
                        let jj = if j < i { j } else { j + 1 };
                        assert(rest[j] == self.members@[jj]);
                    }
                }
                self.members.remove(i);
                return true;
            }
            i = i + 1;
        }
        assert(self@ =~= old(self)@.remove(*id));
        false
    }

    /// The members, in the order in which they were added.
    pub fn to_vec(&self) -> (list: Vec<SubnetId>)
        ensures
            list@ == self.order(),
    {
        let mut list: Vec<SubnetId> = Vec::new();
        let mut i: usize = 0;
        while i < self.members.len()
            invariant
                i <= self.members.len(),
                list@ == self.members@.take(i as int),
            decreases self.members.len() - i,
        {
            list.push(self.members[i]);
            proof {
                assert(self.members@.take(i as int + 1) =~= self.members@.take(i as int).push(
                    self.members@[i as int],
                ));
            }
            i = i + 1;
        }
        assert(self.members@.take(i as int) =~= self.members@);
        list
    }

    /// The set of the valid subnets of `list`: invalid identifiers and repetitions are left out.
    pub fn from_list(list: &Vec<SubnetId>) -> (set: SubnetSet)
        ensures
            set.wf(),
            forall|id: SubnetId| #[trigger]
                set@.contains(id) <==> (list@.contains(id) && id.is_valid()),
    {
        let mut set = SubnetSet::new();
        let mut i: usize = 0;
        while i < list.len()
            invariant
                i <= list.len(),
                set.wf(),
                forall|id: SubnetId|
                    set@.contains(id) <==> (list@.take(i as int).contains(id) && id.is_valid()),
            decreases list.len() - i,
        {
            let id = list[i];
            let ghost before = set@;
            set.insert(id);
            proof {
                let prev = list@.take(i as int);
                let next = list@.take(i as int + 1);
                assert(next =~= prev.push(id));
                assert forall|x: SubnetId|
                    set@.contains(x) <==> (next.contains(x) && x.is_valid()) by {
                    if next.contains(x) {
                        let k = choose|k: int| 0 <= k < next.len() && next[k] == x;
                        if k < prev.len() {
                            assert(prev[k] == x);
                            assert(prev.contains(x));
                        }
                    }
                    if prev.contains(x) {
                        let k = choose|k: int| 0 <= k < prev.len() && prev[k] == x;
                        assert(next[k] == x);
                    }
                    assert(next[i as int] == id);
                }
            }
            i = i + 1;
        }
        assert(list@.take(i as int) =~= list@);
        assert forall|id: SubnetId| #[trigger]
            set@.contains(id) <==> (list@.contains(id) && id.is_valid()) by {}
        set
    }

    /// The members of `self` that are not members of `other`, in the order of `self`.
    pub fn without(&self, other: &SubnetSet) -> (rest: SubnetSet)
        requires
            self.wf(),
        ensures
            rest.wf(),
            rest@ == self@.difference(other@),
    {
        let mut rest = SubnetSet::new();
        let mut i: usize = 0;
        while i < self.members.len()
            invariant
                i <= self.members.len(),
                self.wf(),
                rest.wf(),
                rest@ == self.members@.take(i as int).to_set().difference(other@),
            decreases self.members.len() - i,
        {
            let id = self.members[i];
            proof {
                let prev = self.members@.take(i as int);
                let next = self.members@.take(i as int + 1);
                assert(next =~= prev.push(id));
                prev.lemma_push_to_set_commute(id);
                assert(id.is_valid());
                if other@.contains(id) {
                    assert(next.to_set().difference(other@) =~= prev.to_set().difference(other@));
                } else {
                    assert(next.to_set().difference(other@) =~= prev.to_set().difference(
                        other@,
                    ).insert(id));
                }
            }
            if !other.contains(&id) {
                let ghost before = rest@;
                let added = rest.insert(id);
                proof {
                    if !added {
                        assert(before.insert(id) =~= before);
                    }
                }
            }
            i = i + 1;
        }
        assert(self.members@.take(i as int) =~= self.members@);
        rest
    }

    /// The members of `self` and of `other`.
    pub fn union(&self, other: &SubnetSet) -> (all: SubnetSet)
        requires
            self.wf(),
            other.wf(),
        ensures
            all.wf(),
            all@ == self@.union(other@),
    {
        let mut all = self.duplicate();
        let mut i: usize = 0;
        while i < other.members.len()
            invariant
                i <= other.members.len(),
                other.wf(),
                all.wf(),
                all@ == self@.union(other.members@.take(i as int).to_set()),
            decreases other.members.len() - i,
        {
            let id = other.members[i];
            proof {
                let prev = other.members@.take(i as int);
                let next = other.members@.take(i as int + 1);
                assert(next =~= prev.push(id));
                prev.lemma_push_to_set_commute(id);
                assert(id.is_valid());
                assert(self@.union(prev.to_set()).insert(id) =~= self@.union(next.to_set()));
            }
            let ghost before = all@;
            let added = all.insert(id);
            proof {
                if !added {
                    assert(before.insert(id) =~= before);
                }
            }
            i = i + 1;
        }
        assert(other.members@.take(i as int) =~= other.members@);
        all
    }

    /// A copy of the set.
    pub fn duplicate(&self) -> (copy: SubnetSet)
        ensures
            copy@ == self@,
            copy.order() == self.order(),
            copy.wf() == self.wf(),
    {
        SubnetSet { members: self.to_vec() }
    }
}

} // verus!
