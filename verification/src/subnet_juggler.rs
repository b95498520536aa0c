//! The subnet juggler: keeps the node subscribed to the validator's mandatory subnets and to a
//! changing choice of extra subnets that covers them.

use crate::common::{
    all_valid, EpochInfo, MandatorySubnetSource, StealthConfig, StealthError, SubnetId,
};
use crate::cover::{
    capacity, cover_candidates, is_free, is_random_choice, lemma_picked, lemma_random_choice,
    lemma_room_beside, partition, picked, select_cover,
};
use crate::prng::Prng;
use crate::subnet_set::SubnetSet;
use crate::text::{decimal_chars, decimal_string};
use vstd::prelude::*;
use vstd::string::*;

verus! {

/// Commands that the juggler takes.
#[derive(Debug)]
pub enum SubnetCommand {
    /// Replace the extra subnets by a new random choice at once.
    ForceReshuffle,
    /// Add these subnets to the extra ones.
    AddSubnets(Vec<SubnetId>),
    /// Remove these subnets from the extra ones.
    RemoveSubnets(Vec<SubnetId>),
    /// Report the current state.
    GetStatus,
    /// Stop the juggler.
    Stop,
}

/// Events that the juggler emits.
#[derive(Debug)]
pub enum SubnetEvent {
    /// These subnets were joined.
    SubnetsJoined(Vec<SubnetId>),
    /// These subnets were left.
    SubnetsLeft(Vec<SubnetId>),
    /// The extras were reshuffled at the start of `epoch`.
    EpochReshuffle { epoch: u64, new_subnets: Vec<SubnetId> },
    /// Something went wrong.
    Error(String),
}

/// What an event says.
pub enum SubnetEventView {
    SubnetsJoined(Seq<SubnetId>),
    SubnetsLeft(Seq<SubnetId>),
    EpochReshuffle { epoch: u64, new_subnets: Seq<SubnetId> },
    Error(Seq<char>),
}

impl View for SubnetEvent {
    type V = SubnetEventView;

    open spec fn view(&self) -> SubnetEventView {
        match self {
            SubnetEvent::SubnetsJoined(list) => SubnetEventView::SubnetsJoined(list@),
            SubnetEvent::SubnetsLeft(list) => SubnetEventView::SubnetsLeft(list@),
            SubnetEvent::EpochReshuffle { epoch, new_subnets } => SubnetEventView::EpochReshuffle {
                epoch: *epoch,
                new_subnets: new_subnets@,
            },
            SubnetEvent::Error(message) => SubnetEventView::Error(message@),
        }
    }
}

/// What a sequence of events says.
pub open spec fn event_views(events: Seq<SubnetEvent>) -> Seq<SubnetEventView> {
    events.map_values(|e: SubnetEvent| e@)
}

/// The subscriptions that the juggler keeps.
#[derive(Debug)]
pub struct SubnetState {
    pub current_epoch: u64,
    /// Every subnet that the node is subscribed to.
    pub subscribed_subnets: SubnetSet,
    /// The subnets that the validator is required to be on.
    pub mandatory_subnets: SubnetSet,
    /// The subnets joined for cover.
    pub extra_subnets: SubnetSet,
    /// Time of the last reshuffle, in seconds since the start of 1970.
    pub last_reshuffle: i64,
    /// Time of the next epoch boundary, in seconds since the start of 1970.
    pub next_reshuffle: i64,
}

impl SubnetState {
    /// The invariant of the state: the subscribed subnets are the mandatory and the extra ones,
    /// and no subnet is both mandatory and extra.
    pub open spec fn wf(&self) -> bool {
        &&& self.subscribed_subnets.wf()
        &&& self.mandatory_subnets.wf()
        &&& self.extra_subnets.wf()
        &&& self.subscribed_subnets@ == self.mandatory_subnets@.union(self.extra_subnets@)
        &&& self.mandatory_subnets@.disjoint(self.extra_subnets@)
    }

    /// Whether the extras are no more than `k` and no more than the mandatory subnets leave
    /// room for.
    pub open spec fn within(&self, k: usize) -> bool {
        self.extra_subnets@.len() <= capacity(k, self.mandatory_subnets@)
    }

    /// A copy of the state.
    pub fn snapshot(&self) -> (copy: SubnetState)
        ensures
            copy.current_epoch == self.current_epoch,
            copy.subscribed_subnets@ == self.subscribed_subnets@,
            copy.mandatory_subnets@ == self.mandatory_subnets@,
            copy.extra_subnets@ == self.extra_subnets@,
            copy.last_reshuffle == self.last_reshuffle,
            copy.next_reshuffle == self.next_reshuffle,
            self.wf() ==> copy.wf(),
    {
        SubnetState {
            current_epoch: self.current_epoch,
            subscribed_subnets: self.subscribed_subnets.duplicate(),
            mandatory_subnets: self.mandatory_subnets.duplicate(),
            extra_subnets: self.extra_subnets.duplicate(),
            last_reshuffle: self.last_reshuffle,
            next_reshuffle: self.next_reshuffle,
        }
    }
}

/// Access to the networking layer. Every call can fail, and nothing is assumed of what a
/// provider answers.
pub trait NetworkingProvider {
    /// Subscribes the node to an attestation subnet.
    fn subscribe_to_subnet(&self, subnet_id: SubnetId) -> Result<(), StealthError>;

    /// Unsubscribes the node from an attestation subnet.
    fn unsubscribe_from_subnet(&self, subnet_id: SubnetId) -> Result<(), StealthError>;

    /// The present position of the beacon chain clock.
    fn get_current_epoch_info(&self) -> Result<EpochInfo, StealthError>;

    /// The subnets that the validator is required to be on in the present epoch.
    fn get_validator_subnets(&self, validator_pubkey: &str) -> Result<Vec<SubnetId>, StealthError>;
}

/// Where the juggler stands in its life.
#[derive(Debug, Clone, Copy, PartialEq, Eq, Structural)]
pub enum JugglerPhase {
    Uninitialized,
    Initialized,
    Running,
    Reshuffling,
    ShuttingDown,
    Stopped,
}

/// What a reshuffle did.
#[derive(Debug)]
pub struct ReshuffleReport {
    /// Former extras that the provider unsubscribed.
    pub left: Vec<SubnetId>,
    /// Former extras that the provider failed to unsubscribe: they stay extras.
    pub stuck: Vec<SubnetId>,
    /// The new random choice.
    pub selected: Vec<SubnetId>,
    /// The subnets of the choice that the provider subscribed.
    pub joined: Vec<SubnetId>,
}

/// What adding or removing subnets did.
#[derive(Debug)]
pub struct ChangeReport {
    /// Subnets for which the change was made.
    pub changed: Vec<SubnetId>,
    /// Subnets for which the provider refused the change.
    pub refused: Vec<SubnetId>,
}

/// What the start of a new epoch did.
#[derive(Debug)]
pub struct EpochChange {
    /// The mandatory subnets as their source gave them.
    pub mandatory: Vec<SubnetId>,
    /// How many subnets that are no longer mandatory the provider failed to unsubscribe, and
    /// how many new mandatory subnets it failed to subscribe.
    pub failures: (usize, usize),
    /// What the reshuffle of the extras did.
    pub reshuffle: ReshuffleReport,
}

/// What a tick of the epoch timer did.
#[derive(Debug)]
pub struct TickOutcome {
    /// The position of the beacon chain clock as the provider told it.
    pub info: EpochInfo,
    /// The change that the tick brought, or nothing where the epoch is the one on the books.
    pub change: Option<EpochChange>,
}

/// What a command did.
#[derive(Debug)]
pub enum CommandOutcome {
    /// The extras were reshuffled.
    Reshuffled(ReshuffleReport),
    /// Subnets were added to the extras.
    Added(ChangeReport),
    /// Subnets were removed from the extras.
    Removed(ChangeReport),
    /// The state was reported.
    Status(SubnetState),
}

/// The message of the error event for `n` subnets that could not be unsubscribed.
pub open spec fn leave_failure_text(n: nat) -> Seq<char> {
    "Failed to unsubscribe from "@ + decimal_chars(n) + " subnets"@
}

/// The message of the error event for `n` subnets that could not be subscribed.
pub open spec fn join_failure_text(n: nat) -> Seq<char> {
    "Failed to subscribe to "@ + decimal_chars(n) + " subnets"@
}

/// The events of a change of subscriptions, in the order in which they are emitted: the
/// subnets left, the failures to leave, the failures to join, the subnets joined. A part
/// with nothing to report is left out.
pub open spec fn change_events(
    left: Seq<SubnetId>,
    leave_failures: nat,
    join_failures: nat,
    joined: Seq<SubnetId>,
) -> Seq<SubnetEventView> {
    let a = if left.len() > 0 {
        seq![SubnetEventView::SubnetsLeft(left)]
    } else {
        Seq::empty()
    };
    let b = if leave_failures > 0 {
        seq![SubnetEventView::Error(leave_failure_text(leave_failures))]
    } else {
        Seq::empty()
    };
    let c = if join_failures > 0 {
        seq![SubnetEventView::Error(join_failure_text(join_failures))]
    } else {
        Seq::empty()
    };
    let d = if joined.len() > 0 {
        seq![SubnetEventView::SubnetsJoined(joined)]
    } else {
        Seq::empty()
    };
    a + b + c + d
}

/// The extras after `s` was asked for: it is added if it is free, if there is room for it and
/// if the provider did not refuse it.
pub open spec fn with_added(
    extra: Set<SubnetId>,
    mandatory: Set<SubnetId>,
    k: usize,
    s: SubnetId,
    refused: Set<SubnetId>,
) -> Set<SubnetId> {
    if is_free(s, mandatory, extra) && extra.len() < capacity(k, mandatory) && !refused.contains(
        s,
    ) {
        extra.insert(s)
    } else {
        extra
    }
}

/// The extras after each subnet of `subnets` was asked for in turn.
pub open spec fn with_all_added(
    extra: Set<SubnetId>,
    mandatory: Set<SubnetId>,
    k: usize,
    subnets: Seq<SubnetId>,
    refused: Set<SubnetId>,
) -> Set<SubnetId>
    decreases subnets.len(),
{
    if subnets.len() == 0 {
        extra
    } else {
        with_added(
            with_all_added(extra, mandatory, k, subnets.drop_last(), refused),
            mandatory,
            k,
            subnets.last(),
            refused,
        )
    }
}

/// The extras after `s` was asked to be removed: it leaves unless the provider refused.
pub open spec fn with_removed(extra: Set<SubnetId>, s: SubnetId, refused: Set<SubnetId>) -> Set<
    SubnetId,
> {
    if extra.contains(s) && !refused.contains(s) {
        extra.remove(s)
    } else {
        extra
    }
}

/// The extras after each subnet of `subnets` was asked to be removed in turn.
pub open spec fn with_all_removed(
    extra: Set<SubnetId>,
    subnets: Seq<SubnetId>,
    refused: Set<SubnetId>,
) -> Set<SubnetId>
    decreases subnets.len(),
{
    if subnets.len() == 0 {
        extra
    } else {
        with_removed(with_all_removed(extra, subnets.drop_last(), refused), subnets.last(), refused)
    }
}

/// Adding a subnet a second time changes nothing, unless the provider refused the subnet the
/// first time and takes it the second time.
pub proof fn lemma_add_twice(
    extra: Set<SubnetId>,
    mandatory: Set<SubnetId>,
    k: usize,
    s: SubnetId,
    refused_first: Set<SubnetId>,
    refused_second: Set<SubnetId>,
)
    requires
        extra.finite(),
        refused_first.contains(s) ==> refused_second.contains(s),
    ensures
        with_all_added(
            with_all_added(extra, mandatory, k, seq![s], refused_first),
            mandatory,
            k,
            seq![s],
            refused_second,
        ) == with_all_added(extra, mandatory, k, seq![s], refused_first),
{
    reveal_with_fuel(with_all_added, 2);
    let one = seq![s];
    assert(one.drop_last() =~= Seq::<SubnetId>::empty());
    assert(one.last() == s);
    let once = with_added(extra, mandatory, k, s, refused_first);
    assert(with_all_added(extra, mandatory, k, one, refused_first) == once);
    assert(with_all_added(once, mandatory, k, one, refused_second) == with_added(
        once,
        mandatory,
        k,
        s,
        refused_second,
    ));
}

/// Adding a subnet that was no extra and removing it again leaves the extras as they were,
/// as long as the provider does not refuse to unsubscribe it.
pub proof fn lemma_add_then_remove(
    extra: Set<SubnetId>,
    mandatory: Set<SubnetId>,
    k: usize,
    s: SubnetId,
    refused_to_join: Set<SubnetId>,
    refused_to_leave: Set<SubnetId>,
)
    requires
        !extra.contains(s),
        !refused_to_leave.contains(s),
    ensures
        with_all_removed(
            with_all_added(extra, mandatory, k, seq![s], refused_to_join),
            seq![s],
            refused_to_leave,
        ) == extra,
{
    reveal_with_fuel(with_all_added, 2);
    reveal_with_fuel(with_all_removed, 2);
    let one = seq![s];
    assert(one.drop_last() =~= Seq::<SubnetId>::empty());
    assert(one.last() == s);
    let added = with_added(extra, mandatory, k, s, refused_to_join);
    assert(with_all_added(extra, mandatory, k, one, refused_to_join) == added);
    assert(with_all_removed(added, one, refused_to_leave) == with_removed(
        added,
        s,
        refused_to_leave,
    ));
    assert(with_removed(added, s, refused_to_leave) =~= extra);
}

/// Asks the provider to unsubscribe each subnet of `list` and notes which it unsubscribed.
pub fn leave_each<P: NetworkingProvider>(provider: &P, list: &Vec<SubnetId>) -> (done: Vec<bool>)
    ensures
        done@.len() == list@.len(),
{
    let mut done: Vec<bool> = Vec::new();
    let mut i: usize = 0;
    while i < list.len()
        invariant
            i <= list.len(),
            done@.len() == i,
        decreases list.len() - i,
    {
        let answer = provider.unsubscribe_from_subnet(list[i]);
        done.push(answer.is_ok());
        i = i + 1;
    }
    done
}

/// Asks the provider to subscribe each subnet of `list` and notes which it subscribed.
pub fn join_each<P: NetworkingProvider>(provider: &P, list: &Vec<SubnetId>) -> (done: Vec<bool>)
    ensures
        done@.len() == list@.len(),
{
    let mut done: Vec<bool> = Vec::new();
    let mut i: usize = 0;
    while i < list.len()
        invariant
            i <= list.len(),
            done@.len() == i,
        decreases list.len() - i,
    {
        let answer = provider.subscribe_to_subnet(list[i]);
        done.push(answer.is_ok());
        i = i + 1;
    }
    done
}

/// The error event for `n` subnets that could not be unsubscribed.
fn leave_failure_event(n: usize) -> (event: SubnetEvent)
    ensures
        event@ == SubnetEventView::Error(leave_failure_text(n as nat)),
{
    let mut text = String::from_str("Failed to unsubscribe from ");
    text.append(decimal_string(n as u64).as_str());
    text.append(" subnets");
    SubnetEvent::Error(text)
}

/// The error event for `n` subnets that could not be subscribed.
fn join_failure_event(n: usize) -> (event: SubnetEvent)
    ensures
        event@ == SubnetEventView::Error(join_failure_text(n as nat)),
{
    let mut text = String::from_str("Failed to subscribe to ");
    text.append(decimal_string(n as u64).as_str());
    text.append(" subnets");
    SubnetEvent::Error(text)
}

/// A copy of a list of subnets.
pub fn copy_list(list: &Vec<SubnetId>) -> (copy: Vec<SubnetId>)
    ensures
        copy@ == list@,
{
    let mut copy: Vec<SubnetId> = Vec::new();
    let mut i: usize = 0;
    while i < list.len()
        invariant
            i <= list.len(),
            copy@ == list@.take(i as int),
        decreases list.len() - i,
    {
        copy.push(list[i]);
        proof {
            assert(list@.take(i as int + 1) =~= list@.take(i as int).push(list@[i as int]));
        }
        i = i + 1;
    }
    assert(list@.take(i as int) =~= list@);
    copy
}

/// Appends the events of a change of subscriptions to `events`.
fn push_change_events(
    events: &mut Vec<SubnetEvent>,
    left: &Vec<SubnetId>,
    leave_failures: usize,
    join_failures: usize,
    joined: &Vec<SubnetId>,
)
    ensures
        event_views(final(events)@) == event_views(old(events)@) + change_events(
            left@,
            leave_failures as nat,
            join_failures as nat,
            joined@,
        ),
{
    let ghost start = event_views(events@);
    let ghost a: Seq<SubnetEventView> = if left@.len() > 0 {
        seq![SubnetEventView::SubnetsLeft(left@)]
    } else {
        Seq::empty()
    };
    let ghost b: Seq<SubnetEventView> = if leave_failures > 0 {
        seq![SubnetEventView::Error(leave_failure_text(leave_failures as nat))]
    } else {
        Seq::empty()
    };
    let ghost c: Seq<SubnetEventView> = if join_failures > 0 {
        seq![SubnetEventView::Error(join_failure_text(join_failures as nat))]
    } else {
        Seq::empty()
    };
    let ghost d: Seq<SubnetEventView> = if joined@.len() > 0 {
        seq![SubnetEventView::SubnetsJoined(joined@)]
    } else {
        Seq::empty()
    };
    if left.len() > 0 {
        events.push(SubnetEvent::SubnetsLeft(copy_list(left)));
    }
    assert(event_views(events@) =~= start + a);
    if leave_failures > 0 {
        events.push(leave_failure_event(leave_failures));
    }
    assert(event_views(events@) =~= start + a + b);
    if join_failures > 0 {
        events.push(join_failure_event(join_failures));
    }
    assert(event_views(events@) =~= start + a + b + c);
    if joined.len() > 0 {
        events.push(SubnetEvent::SubnetsJoined(copy_list(joined)));
    }
    assert(event_views(events@) =~= start + a + b + c + d);
    assert(start + a + b + c + d =~= start + (a + b + c + d));
}

/// A subnet that did not become an extra can be counted among the refused ones without
/// changing what was added.
pub proof fn lemma_refusal_irrelevant(
    extra: Set<SubnetId>,
    mandatory: Set<SubnetId>,
    k: usize,
    subnets: Seq<SubnetId>,
    refused: Set<SubnetId>,
    x: SubnetId,
)
    requires
        extra.finite(),
        !with_all_added(extra, mandatory, k, subnets, refused).contains(x),
    ensures
        with_all_added(extra, mandatory, k, subnets, refused.insert(x)) == with_all_added(
            extra,
            mandatory,
            k,
            subnets,
            refused,
        ),
    decreases subnets.len(),
{
    if subnets.len() > 0 {
        lemma_refusal_irrelevant(extra, mandatory, k, subnets.drop_last(), refused, x);
    }
}

/// The extras after the subnets of `subnets` that the provider did not refuse have left.
pub open spec fn remaining_after(
    extra: Set<SubnetId>,
    subnets: Seq<SubnetId>,
    refused: Set<SubnetId>,
) -> Set<SubnetId> {
    Set::new(|s: SubnetId| extra.contains(s) && !(subnets.contains(s) && !refused.contains(s)))
}

/// Removing subnets one after the other leaves the extras that were not asked for or that
/// the provider refused to unsubscribe.
pub proof fn lemma_all_removed(extra: Set<SubnetId>, subnets: Seq<SubnetId>, refused: Set<SubnetId>)
    ensures
        with_all_removed(extra, subnets, refused) == remaining_after(extra, subnets, refused),
    decreases subnets.len(),
{
    if subnets.len() == 0 {
        assert(remaining_after(extra, subnets, refused) =~= extra);
    } else {
        let front = subnets.drop_last();
        let last = subnets.last();
        lemma_all_removed(extra, front, refused);
        assert forall|s: SubnetId| subnets.contains(s) <==> (front.contains(s) || s == last) by {
            if subnets.contains(s) {
                let i = choose|i: int| 0 <= i < subnets.len() && subnets[i] == s;
                if i < front.len() {
                    assert(front[i] == s);
                }
            }
            if front.contains(s) {
                let i = choose|i: int| 0 <= i < front.len() && front[i] == s;
                assert(subnets[i] == s);
            }
            assert(subnets[subnets.len() - 1] == last);
        }
        assert(with_removed(remaining_after(extra, front, refused), last, refused)
            =~= remaining_after(extra, subnets, refused));
    }
}

/// With a quota of no extra subnets, a consistent state has no extras: the node is subscribed
/// to the mandatory subnets alone.
pub proof fn lemma_no_quota_no_extras(state: SubnetState)
    requires
        state.wf(),
        state.within(0),
    ensures
        state.extra_subnets@ == Set::<SubnetId>::empty(),
        state.subscribed_subnets@ == state.mandatory_subnets@,
{
    state.mandatory_subnets.lemma_wf();
    state.extra_subnets.lemma_wf();
    assert(state.extra_subnets@.len() == 0);
    assert(state.extra_subnets@ =~= Set::<SubnetId>::empty());
    assert(state.subscribed_subnets@ =~= state.mandatory_subnets@);
}

/// With a quota that fills the room beside the mandatory subnets, a random choice among all
/// subnets that are not mandatory takes every one of them.
pub proof fn lemma_full_quota_takes_all(
    mandatory: Set<SubnetId>,
    k: usize,
    candidates: Seq<SubnetId>,
    selected: Seq<SubnetId>,
)
    requires
        forall|s: SubnetId| mandatory.contains(s) ==> s.is_valid(),
        k >= 64 - mandatory.len(),
        candidates.no_duplicates(),
        forall|s: SubnetId| candidates.contains(s) <==> is_free(s, mandatory, Set::empty()),
        is_random_choice(candidates, capacity(k, mandatory) as usize, selected),
    ensures
        forall|s: SubnetId| selected.contains(s) <==> s.is_valid() && !mandatory.contains(s),
        selected.len() == 64 - mandatory.len(),
{
    crate::cover::lemma_candidate_count(candidates, mandatory, Set::empty());
    lemma_random_choice(candidates, capacity(k, mandatory) as usize, selected);
    assert forall|s: SubnetId| selected.contains(s) <==> s.is_valid() && !mandatory.contains(
        s,
    ) by {
        assert(selected.to_set().contains(s) == candidates.to_set().contains(s));
    }
}

/// The juggler.
pub struct SubnetJuggler<P: NetworkingProvider> {
    config: StealthConfig,
    provider: P,
    state: SubnetState,
    phase: JugglerPhase,
    rng: Prng,
    events: Vec<SubnetEvent>,
}

impl<P: NetworkingProvider> SubnetJuggler<P> {
    /// The subscriptions that the juggler keeps.
    pub closed spec fn state(&self) -> SubnetState {
        self.state
    }

    /// Where the juggler stands in its life.
    pub closed spec fn phase(&self) -> JugglerPhase {
        self.phase
    }

    /// The configured number of extra subnets per epoch.
    pub closed spec fn k(&self) -> usize {
        self.config.extra_subnets_per_epoch
    }

    /// What the events say that were emitted and not yet taken.
    pub closed spec fn emitted(&self) -> Seq<SubnetEventView> {
        event_views(self.events@)
    }

    /// The configured source of the mandatory subnets.
    pub closed spec fn source(&self) -> MandatorySubnetSource {
        self.config.mandatory_subnet_source
    }

    /// The invariant of the juggler: the state is consistent and the extras are within the
    /// configured number and within the room that the mandatory subnets leave.
    pub open spec fn wf(&self) -> bool {
        &&& self.state().wf()
        &&& self.state().within(self.k())
    }

    /// Whether `self` differs from `before` in nothing but the phase, the extras, the
    /// subscribed subnets, the time of the last reshuffle and the events.
    pub open spec fn same_frame(&self, before: Self) -> bool {
        &&& self.k() == before.k()
        &&& self.source() == before.source()
        &&& self.state().current_epoch == before.state().current_epoch
        &&& self.state().next_reshuffle == before.state().next_reshuffle
        &&& self.state().mandatory_subnets@ == before.state().mandatory_subnets@
    }

    /// Whether `self` is what the reshuffle at `now` that `report` describes makes of `before`.
    ///
    /// Every former extra was unsubscribed or is stuck, and none is both; the extras are the
    /// stuck ones and the joined ones; the selection is a random choice, as large as the room
    /// beside the stuck ones allows, among the subnets that are neither mandatory nor stuck;
    /// the joined ones are those of the selection that the provider subscribed; and the
    /// events tell of all that.
    pub open spec fn is_reshuffle_of(&self, before: Self, report: ReshuffleReport, now: i64) -> bool {
        &&& self.same_frame(before)
        &&& self.state().last_reshuffle == now
        &&& self.state().extra_subnets@ == report.stuck@.to_set().union(report.joined@.to_set())
        &&& forall|s: SubnetId|
            before.state().extra_subnets@.contains(s) <==> (report.left@.contains(s)
                || report.stuck@.contains(s))
        &&& forall|s: SubnetId| !(report.left@.contains(s) && report.stuck@.contains(s))
        &&& forall|s: SubnetId|
            before.state().extra_subnets@.contains(s) ==> report.left@.contains(s)
                || self.state().extra_subnets@.contains(s)
        &&& exists|candidates: Seq<SubnetId>, room: usize|
            {
                &&& candidates.no_duplicates()
                &&& forall|s: SubnetId|
                    candidates.contains(s) <==> is_free(
                        s,
                        before.state().mandatory_subnets@,
                        report.stuck@.to_set(),
                    )
                &&& room == capacity(before.k(), before.state().mandatory_subnets@)
                    - report.stuck@.len()
                &&& #[trigger] is_random_choice(candidates, room, report.selected@)
            }
        &&& exists|flags: Seq<bool>|
            flags.len() == report.selected@.len() && report.joined@ == #[trigger] picked(
                report.selected@,
                flags,
                true,
            )
        &&& self.emitted() == before.emitted() + change_events(
            report.left@,
            report.stuck@.len(),
            (report.selected@.len() - report.joined@.len()) as nat,
            report.joined@,
        )
    }

    /// Whether `self` is what asking for `subnets`, with the outcome that `report` describes,
    /// makes of `before`.
    pub open spec fn is_addition_to(&self, before: Self, subnets: Seq<SubnetId>, report: ChangeReport) -> bool {
        &&& self.same_frame(before)
        &&& self.state().last_reshuffle == before.state().last_reshuffle
        &&& self.state().extra_subnets@ == with_all_added(
            before.state().extra_subnets@,
            before.state().mandatory_subnets@,
            before.k(),
            subnets,
            report.refused@.to_set(),
        )
        &&& self.state().extra_subnets@ == before.state().extra_subnets@.union(
            report.changed@.to_set(),
        )
        &&& report.changed@.no_duplicates()
        &&& forall|s: SubnetId|
            report.changed@.contains(s) ==> !before.state().extra_subnets@.contains(s)
        &&& forall|s: SubnetId|
            report.refused@.contains(s) ==> subnets.contains(s)
                && !self.state().extra_subnets@.contains(s)
        &&& self.emitted() == before.emitted() + change_events(
            Seq::empty(),
            0,
            report.refused@.len(),
            report.changed@,
        )
    }

    /// Whether `self` is what asking to remove `subnets`, with the outcome that `report`
    /// describes, makes of `before`.
    pub open spec fn is_removal_from(&self, before: Self, subnets: Seq<SubnetId>, report: ChangeReport) -> bool {
        &&& self.same_frame(before)
        &&& self.state().last_reshuffle == before.state().last_reshuffle
        &&& self.state().extra_subnets@ == with_all_removed(
            before.state().extra_subnets@,
            subnets,
            report.refused@.to_set(),
        )
        &&& self.state().extra_subnets@ == before.state().extra_subnets@.difference(
            report.changed@.to_set(),
        )
        &&& forall|s: SubnetId| #[trigger]
            report.changed@.contains(s) ==> subnets.contains(s)
                && before.state().extra_subnets@.contains(s)
        &&& forall|s: SubnetId|
            report.refused@.contains(s) ==> subnets.contains(s)
                && self.state().extra_subnets@.contains(s)
        &&& self.emitted() == before.emitted() + change_events(
            report.changed@,
            report.refused@.len(),
            0,
            Seq::empty(),
        )
    }

    /// A juggler that is not initialized: no subscriptions, epoch 0.
    pub fn new(config: StealthConfig, provider: P, rng: Prng) -> (juggler: Self)
        ensures
            juggler.wf(),
            juggler.phase() == JugglerPhase::Uninitialized,
            juggler.k() == config.extra_subnets_per_epoch,
            juggler.source() == config.mandatory_subnet_source,
            juggler.state().current_epoch == 0,
            juggler.state().subscribed_subnets@ == Set::<SubnetId>::empty(),
            juggler.state().mandatory_subnets@ == Set::<SubnetId>::empty(),
            juggler.state().extra_subnets@ == Set::<SubnetId>::empty(),
            juggler.state().last_reshuffle == 0,
            juggler.state().next_reshuffle == 0,
            juggler.emitted() == Seq::<SubnetEventView>::empty(),
    {
        let juggler = SubnetJuggler {
            config,
            provider,
            state: SubnetState {
                current_epoch: 0,
                subscribed_subnets: SubnetSet::new(),
                mandatory_subnets: SubnetSet::new(),
                extra_subnets: SubnetSet::new(),
                last_reshuffle: 0,
                next_reshuffle: 0,
            },
            phase: JugglerPhase::Uninitialized,
            rng,
            events: Vec::new(),
        };
        proof {
            assert(juggler.state.subscribed_subnets@ =~= juggler.state.mandatory_subnets@.union(
                juggler.state.extra_subnets@,
            ));
            assert(juggler.emitted() =~= Seq::<SubnetEventView>::empty());
        }
        juggler
    }

    /// The state of the juggler.
    pub fn get_state(&self) -> (state: &SubnetState)
        ensures
            *state == self.state(),
    {
        &self.state
    }

    /// The phase of the juggler.
    pub fn get_phase(&self) -> (phase: JugglerPhase)
        ensures
            phase == self.phase(),
    {
        self.phase
    }

    /// Hands over the events that were emitted since the last call, oldest first.
    pub fn take_events(&mut self) -> (events: Vec<SubnetEvent>)
        ensures
            event_views(events@) == old(self).emitted(),
            final(self).emitted() == Seq::<SubnetEventView>::empty(),
            final(self).state() == old(self).state(),
            final(self).phase() == old(self).phase(),
            final(self).k() == old(self).k(),
            final(self).source() == old(self).source(),
    {
        let mut events: Vec<SubnetEvent> = Vec::new();
        std::mem::swap(&mut events, &mut self.events);
        assert(self.emitted() =~= Seq::<SubnetEventView>::empty());
        events
    }

    /// Replaces the extra subnets by a new random choice.
    ///
    /// Every extra is unsubscribed; one that the provider fails to unsubscribe stays an extra.
    /// Among the subnets that are then free, as many are chosen at random as the configured
    /// number and the 64 subnets leave room for, and each is subscribed; one that the provider
    /// fails to subscribe does not become an extra.
    pub fn reshuffle_extra_subnets(&mut self, now: i64) -> (report: ReshuffleReport)
        requires
            old(self).wf(),
        ensures
            final(self).wf(),
            final(self).phase() == old(self).phase(),
            final(self).is_reshuffle_of(*old(self), report, now),
    {
        let k = self.config.extra_subnets_per_epoch;
        let ghost mandatory = self.state.mandatory_subnets@;
        let ghost old_extra = self.state.extra_subnets@;
        proof {
            self.state.mandatory_subnets.lemma_wf();
            self.state.extra_subnets.lemma_wf();
        }
        let former = self.state.extra_subnets.to_vec();
        let left_flags = leave_each(&self.provider, &former);
        let (left, stuck) = partition(&former, &left_flags);
        proof {
            lemma_picked(former@, left_flags@);
        }
        let mut held = SubnetSet::new();
        let mut i: usize = 0;
        while i < stuck.len()
            invariant
                i <= stuck.len(),
                held.wf(),
                stuck@.no_duplicates(),
                all_valid(stuck@),
                held@ == stuck@.take(i as int).to_set(),
                held.order() == stuck@.take(i as int),
            decreases stuck.len() - i,
        {
            proof {
                let prev = stuck@.take(i as int);
                let next = stuck@.take(i as int + 1);
                assert(next =~= prev.push(stuck@[i as int]));
                prev.lemma_push_to_set_commute(stuck@[i as int]);
                assert(!prev.contains(stuck@[i as int])) by {
                    if prev.contains(stuck@[i as int]) {
                        let j = choose|j: int| 0 <= j < prev.len() && prev[j] == stuck@[i as int];
                        assert(stuck@[j] == stuck@[i as int]);
                    }
                }
            }
            held.insert(stuck[i]);
            i = i + 1;
        }
        assert(stuck@.take(i as int) =~= stuck@);
        proof {
            held.lemma_wf();
            assert forall|s: SubnetId| held@.contains(s) implies old_extra.contains(s) by {
                assert(stuck@.contains(s));
            }
            assert(mandatory.disjoint(held@));
            lemma_room_beside(mandatory, held@);
            vstd::set_lib::lemma_len_subset(held@, old_extra);
        }
        let mandatory_count = self.state.mandatory_subnets.len();
        let limit: usize = if k <= 64 - mandatory_count {
            k
        } else {
            64 - mandatory_count
        };
        assert(limit == capacity(k, mandatory));
        let room: usize = limit - stuck.len();
        let candidates = cover_candidates(&self.state.mandatory_subnets, &held);
        let ghost pool = candidates@;
        let selected = select_cover(candidates, room, &mut self.rng);
        proof {
            lemma_random_choice(pool, room, selected@);
        }
        let join_flags = join_each(&self.provider, &selected);
        let (joined, failed) = partition(&selected, &join_flags);
        proof {
            lemma_picked(selected@, join_flags@);
            assert forall|s: SubnetId| joined@.contains(s) implies !stuck@.contains(s) by {
                assert(selected@.contains(s));
                assert(pool.contains(s));
                assert(is_free(s, mandatory, held@));
            }
        }
        let mut extra = held;
        let mut j: usize = 0;
        while j < joined.len()
            invariant
                j <= joined.len(),
                extra.wf(),
                joined@.no_duplicates(),
                all_valid(joined@),
                forall|s: SubnetId| joined@.contains(s) ==> !stuck@.contains(s),
                extra.order() == stuck@ + joined@.take(j as int),
                extra@ == stuck@.to_set().union(joined@.take(j as int).to_set()),
            decreases joined.len() - j,
        {
            proof {
                let prev = joined@.take(j as int);
                let next = joined@.take(j as int + 1);
                let s = joined@[j as int];
                assert(next =~= prev.push(s));
                prev.lemma_push_to_set_commute(s);
                assert(joined@.contains(s));
                assert(!prev.contains(s)) by {
                    if prev.contains(s) {
                        let a = choose|a: int| 0 <= a < prev.len() && prev[a] == s;
                        assert(joined@[a] == joined@[j as int]);
                    }
                }
                assert(stuck@.to_set().union(prev.to_set()).insert(s) =~= stuck@.to_set().union(
                    next.to_set(),
                ));
                assert((stuck@ + prev).push(s) =~= stuck@ + next);
            }
            extra.insert(joined[j]);
            j = j + 1;
        }
        assert(joined@.take(j as int) =~= joined@);
        proof {
            extra.lemma_wf();
            assert forall|s: SubnetId| extra@.contains(s) implies !mandatory.contains(s) by {
                if stuck@.contains(s) {
                    assert(old_extra.contains(s));
                } else {
                    assert(joined@.contains(s));
                    assert(selected@.contains(s));
                    assert(pool.contains(s));
                }
            }
            assert(mandatory.disjoint(extra@));
            assert((stuck@ + joined@).len() == stuck@.len() + joined@.len());
            assert(extra@.len() <= limit);
        }
        let mut subscribed = self.state.mandatory_subnets.duplicate();
        let members = extra.to_vec();
        let mut m: usize = 0;
        while m < members.len()
            invariant
                m <= members.len(),
                subscribed.wf(),
                all_valid(members@),
                subscribed@ == mandatory.union(members@.take(m as int).to_set()),
            decreases members.len() - m,
        {
            proof {
                let prev = members@.take(m as int);
                let next = members@.take(m as int + 1);
                let s = members@[m as int];
                assert(next =~= prev.push(s));
                prev.lemma_push_to_set_commute(s);
                assert(mandatory.union(prev.to_set()).insert(s) =~= mandatory.union(next.to_set()));
                assert(s.is_valid());
            }
            let ghost before = subscribed@;
            let added = subscribed.insert(members[m]);
            proof {
                if !added {
                    assert(before.insert(members@[m as int]) =~= before);
                }
            }
            m = m + 1;
        }
        assert(members@.take(m as int) =~= members@);
        self.state.extra_subnets = extra;
        self.state.subscribed_subnets = subscribed;
        self.state.last_reshuffle = now;
        let failures: usize = selected.len() - joined.len();
        push_change_events(&mut self.events, &left, stuck.len(), failures, &joined);
        let report = ReshuffleReport { left, stuck, selected, joined };
        proof {
            assert(is_random_choice(pool, room, report.selected@));
            assert(pool.no_duplicates());
            assert(forall|s: SubnetId|
                pool.contains(s) <==> is_free(s, mandatory, report.stuck@.to_set()));
            assert(room == capacity(k, mandatory) - report.stuck@.len());
            assert(join_flags@.len() == report.selected@.len());
            assert(report.joined@ == picked(report.selected@, join_flags@, true));
        }
        report
    }

    /// Adds subnets to the extras, one after the other: a subnet is subscribed and becomes an
    /// extra if it is valid, not subscribed already, and if there is room for one more extra.
    /// A subnet that the provider refuses is not asked for again.
    pub fn add_subnets(&mut self, subnets: &Vec<SubnetId>) -> (report: ChangeReport)
        requires
            old(self).wf(),
        ensures
            final(self).wf(),
            final(self).phase() == old(self).phase(),
            final(self).is_addition_to(*old(self), subnets@, report),
    {
        let k = self.config.extra_subnets_per_epoch;
        let ghost mandatory = self.state.mandatory_subnets@;
        let ghost start = self.state.extra_subnets@;
        proof {
            self.state.mandatory_subnets.lemma_wf();
            self.state.extra_subnets.lemma_wf();
        }
        let mandatory_count = self.state.mandatory_subnets.len();
        let limit: usize = if k <= 64 - mandatory_count {
            k
        } else {
            64 - mandatory_count
        };
        let mut extra = self.state.extra_subnets.duplicate();
        let mut refused = SubnetSet::new();
        let mut changed: Vec<SubnetId> = Vec::new();
        let mut i: usize = 0;
        while i < subnets.len()
            invariant
                i <= subnets.len(),
                start.finite(),
                extra.wf(),
                refused.wf(),
                limit == capacity(k, mandatory),
                self.state.mandatory_subnets@ == mandatory,
                self.state.mandatory_subnets.wf(),
                extra@ == with_all_added(
                    start,
                    mandatory,
                    k,
                    subnets@.take(i as int),
                    refused@,
                ),
                extra@ == start.union(changed@.to_set()),
                changed@.no_duplicates(),
                forall|s: SubnetId| changed@.contains(s) ==> !start.contains(s),
                forall|s: SubnetId|
                    refused@.contains(s) ==> subnets@.contains(s) && !extra@.contains(s),
                refused.order().to_set() == refused@,
                extra@.len() <= limit,
                start.len() <= limit,
                mandatory.disjoint(extra@),
            decreases subnets.len() - i,
        {
            let s = subnets[i];
            let ghost prev = subnets@.take(i as int);
            let ghost next = subnets@.take(i as int + 1);
            proof {
                assert(next.drop_last() =~= prev);
                assert(next.last() == s);
                extra.lemma_wf();
                refused.lemma_wf();
                assert(subnets@.contains(s));
            }
            let wanted = s.0 <= 63 && !self.state.mandatory_subnets.contains(&s) && !extra.contains(
                &s,
            ) && extra.len() < limit && !refused.contains(&s);
            if wanted {
                let answer = self.provider.subscribe_to_subnet(s);
                if answer.is_ok() {
                    let ghost before = changed@;
                    extra.insert(s);
                    changed.push(s);
                    proof {
                        before.lemma_push_to_set_commute(s);
                        assert(!before.contains(s)) by {
                            if before.contains(s) {
                                assert(before.to_set().contains(s));
                            }
                        }
                        assert(start.union(before.to_set()).insert(s) =~= start.union(
                            changed@.to_set(),
                        ));
                        assert forall|x: SubnetId| changed@.contains(x) implies !start.contains(
                            x,
                        ) by {
                            let a = choose|a: int| 0 <= a < changed@.len() && changed@[a] == x;
                            if a < before.len() {
                                assert(before[a] == x);
                                assert(before.contains(x));
                            }
                        }
                        extra.lemma_wf();
                    }
                } else {
                    let ghost before = refused@;
                    refused.insert(s);
                    proof {
                        lemma_refusal_irrelevant(start, mandatory, k, prev, before, s);
                        refused.lemma_wf();
                    }
                }
            }
            i = i + 1;
        }
        assert(subnets@.take(i as int) =~= subnets@);
        let subscribed = self.state.mandatory_subnets.union(&extra);
        self.state.extra_subnets = extra;
        self.state.subscribed_subnets = subscribed;
        let refused_list = refused.to_vec();
        let none: Vec<SubnetId> = Vec::new();
        push_change_events(&mut self.events, &none, 0, refused_list.len(), &changed);
        proof {
            refused.lemma_wf();
            assert forall|s: SubnetId| refused_list@.contains(s) implies subnets@.contains(s)
                && !self.state.extra_subnets@.contains(s) by {
                assert(refused_list@.to_set().contains(s));
            }
        }
        ChangeReport { changed, refused: refused_list }
    }

    /// Removes subnets from the extras, one after the other: a subnet that is an extra is
    /// unsubscribed and ceases to be one. Mandatory subnets are never removed. A subnet that
    /// the provider refuses to unsubscribe stays an extra and is not asked for again.
    pub fn remove_subnets(&mut self, subnets: &Vec<SubnetId>) -> (report: ChangeReport)
        requires
            old(self).wf(),
        ensures
            final(self).wf(),
            final(self).phase() == old(self).phase(),
            final(self).is_removal_from(*old(self), subnets@, report),
    {
        let ghost mandatory = self.state.mandatory_subnets@;
        let ghost start = self.state.extra_subnets@;
        proof {
            self.state.mandatory_subnets.lemma_wf();
            self.state.extra_subnets.lemma_wf();
        }
        let mut extra = self.state.extra_subnets.duplicate();
        let mut refused = SubnetSet::new();
        let mut changed: Vec<SubnetId> = Vec::new();
        let mut i: usize = 0;
        while i < subnets.len()
            invariant
                i <= subnets.len(),
                start.finite(),
                extra.wf(),
                refused.wf(),
                extra@ == remaining_after(start, subnets@.take(i as int), refused@),
                extra@ == start.difference(changed@.to_set()),
                forall|s: SubnetId| #[trigger]
                    changed@.contains(s) ==> subnets@.contains(s) && start.contains(s),
                forall|s: SubnetId|
                    refused@.contains(s) ==> subnets@.contains(s) && extra@.contains(s),
            decreases subnets.len() - i,
        {
            let s = subnets[i];
            let ghost prev = subnets@.take(i as int);
            let ghost next = subnets@.take(i as int + 1);
            proof {
                assert(next =~= prev.push(s));
                assert forall|x: SubnetId| next.contains(x) <==> (prev.contains(x) || x == s) by {
                    if next.contains(x) {
                        let a = choose|a: int| 0 <= a < next.len() && next[a] == x;
                        if a < prev.len() {
                            assert(prev[a] == x);
                        }
                    }
                    if prev.contains(x) {
                        let a = choose|a: int| 0 <= a < prev.len() && prev[a] == x;
                        assert(next[a] == x);
                    }
                    assert(next[i as int] == s);
                }
                assert(subnets@.contains(s));
                extra.lemma_wf();
            }
            if extra.contains(&s) && !refused.contains(&s) {
                let answer = self.provider.unsubscribe_from_subnet(s);
                if answer.is_ok() {
                    let ghost before = changed@;
                    let ghost held = extra@;
                    extra.remove(&s);
                    changed.push(s);
                    proof {
                        before.lemma_push_to_set_commute(s);
                        assert(extra@ =~= remaining_after(start, next, refused@));
                        assert(extra@ =~= start.difference(changed@.to_set()));
                        assert(held.contains(s));
                        assert(start.contains(s));
                        assert forall|x: SubnetId| #[trigger]
                            changed@.contains(x) implies subnets@.contains(x) && start.contains(
                            x,
                        ) by {
                            let a = choose|a: int| 0 <= a < changed@.len() && changed@[a] == x;
                            if a < before.len() {
                                assert(before[a] == x);
                                assert(before.contains(x));
                            } else {
                                assert(x == s);
                            }
                        }
                    }
                } else {
                    let ghost before = refused@;
                    refused.insert(s);
                    proof {
                        assert(extra@ =~= remaining_after(start, next, refused@));
                    }
                }
            } else {
                proof {
                    assert(extra@ =~= remaining_after(start, next, refused@));
                }
            }
            i = i + 1;
        }
        assert(subnets@.take(i as int) =~= subnets@);
        let subscribed = self.state.mandatory_subnets.union(&extra);
        proof {
            extra.lemma_wf();
            vstd::set_lib::lemma_len_subset(extra@, start);
            assert(mandatory.disjoint(extra@));
        }
        self.state.extra_subnets = extra;
        self.state.subscribed_subnets = subscribed;
        let refused_list = refused.to_vec();
        let none: Vec<SubnetId> = Vec::new();
        push_change_events(&mut self.events, &changed, refused_list.len(), 0, &none);
        proof {
            refused.lemma_wf();
            lemma_all_removed(start, subnets@, refused_list@.to_set());
            assert forall|s: SubnetId| refused_list@.contains(s) implies subnets@.contains(s)
                && self.state.extra_subnets@.contains(s) by {
                assert(refused_list@.to_set().contains(s));
            }
        }
        ChangeReport { changed, refused: refused_list }
    }

    /// Makes `mandatory` the mandatory subnets on the books: an extra that is now mandatory
    /// ceases to be an extra.
    fn install_mandatory(&mut self, mandatory: SubnetSet)
        requires
            old(self).wf(),
            mandatory.wf(),
        ensures
            final(self).wf(),
            final(self).phase() == old(self).phase(),
            final(self).k() == old(self).k(),
            final(self).source() == old(self).source(),
            final(self).emitted() == old(self).emitted(),
            final(self).state().current_epoch == old(self).state().current_epoch,
            final(self).state().next_reshuffle == old(self).state().next_reshuffle,
            final(self).state().last_reshuffle == old(self).state().last_reshuffle,
            final(self).state().mandatory_subnets@ == mandatory@,
            final(self).state().extra_subnets@ == old(self).state().extra_subnets@.difference(
                mandatory@,
            ),
    {
        let extra = self.state.extra_subnets.without(&mandatory);
        let subscribed = mandatory.union(&extra);
        proof {
            mandatory.lemma_wf();
            extra.lemma_wf();
            self.state.extra_subnets.lemma_wf();
            self.state.mandatory_subnets.lemma_wf();
            assert(mandatory@.disjoint(extra@));
            lemma_room_beside(mandatory@, extra@);
            vstd::set_lib::lemma_len_subset(extra@, self.state.extra_subnets@);
        }
        self.state.mandatory_subnets = mandatory;
        self.state.extra_subnets = extra;
        self.state.subscribed_subnets = subscribed;
    }

    /// The mandatory subnets as the configured source gives them: the fixed list, or what the
    /// provider answers for the validator.
    fn fetch_mandatory(&self) -> (result: Result<Vec<SubnetId>, StealthError>)
        ensures
            self.source() matches MandatorySubnetSource::Static(list) ==> (result matches Ok(found)
                && found@ == list@),
    {
        match &self.config.mandatory_subnet_source {
            MandatorySubnetSource::Static(list) => Ok(copy_list(list)),
            MandatorySubnetSource::ValidatorPubkey(key) => self.provider.get_validator_subnets(
                key.as_str(),
            ),
        }
    }

    /// Takes a new list of mandatory subnets: the subnets that are no longer mandatory are
    /// unsubscribed, the new ones that the node is not subscribed to are subscribed, and the
    /// valid subnets of the list become the mandatory ones. Returns how many subnets the
    /// provider failed to unsubscribe and to subscribe.
    pub fn update_mandatory(&mut self, list: &Vec<SubnetId>) -> (failures: (usize, usize))
        requires
            old(self).wf(),
        ensures
            final(self).wf(),
            final(self).phase() == old(self).phase(),
            final(self).is_mandatory_update_of(*old(self), list@, failures),
    {
        let mandatory = SubnetSet::from_list(list);
        let ghost wanted = mandatory@;
        let dropped = self.state.mandatory_subnets.without(&mandatory).to_vec();
        let leave_flags = leave_each(&self.provider, &dropped);
        let (_, not_left) = partition(&dropped, &leave_flags);
        let fresh = mandatory.without(&self.state.subscribed_subnets).to_vec();
        let join_flags = join_each(&self.provider, &fresh);
        let (_, not_joined) = partition(&fresh, &join_flags);
        self.install_mandatory(mandatory);
        let none: Vec<SubnetId> = Vec::new();
        push_change_events(&mut self.events, &none, not_left.len(), not_joined.len(), &none);
        proof {
            assert forall|s: SubnetId|
                self.state().mandatory_subnets@.contains(s) <==> (list@.contains(s)
                    && s.is_valid()) by {
                assert(self.state().mandatory_subnets@.contains(s) == wanted.contains(s));
            }
        }
        (not_left.len(), not_joined.len())
    }

    /// Whether nothing of `self` differs from `before` but the events that were taken or
    /// emitted: the phase, the state, the configured number and the source are the same.
    pub open spec fn same_service(&self, before: Self) -> bool {
        &&& self.phase() == before.phase()
        &&& self.state() == before.state()
        &&& self.k() == before.k()
        &&& self.source() == before.source()
    }

    /// Asks the provider to subscribe the valid subnets of `list`, one after the other, and
    /// stops at the first that it refuses: the refusal is returned.
    fn subscribe_mandatory(&self, list: &Vec<SubnetId>) -> (subscribed: Result<(), StealthError>) {
        let members = SubnetSet::from_list(list).to_vec();
        let mut i: usize = 0;
        while i < members.len()
            invariant
                i <= members.len(),
            decreases members.len() - i,
        {
            match self.provider.subscribe_to_subnet(members[i]) {
                Ok(_) => {},
                Err(e) => {
                    return Err(e);
                },
            }
            i = i + 1;
        }
        Ok(())
    }

    /// Brings a juggler that is not initialized into service with what the provider
    /// answered: the epoch information `info`, the mandatory subnets `mandatory`, and in
    /// `subscribed` whether it subscribed them all or which refusal stopped it.
    ///
    /// The juggler enters service exactly if it is not initialized, the information tells a
    /// next boundary at `now`, and the mandatory subnets are subscribed. It then notes the
    /// epoch and the boundary, takes the mandatory subnets, makes a first choice of extras
    /// and is running. Otherwise the error is returned and the juggler stays as it was: for
    /// a juggler that is initialized already, for information without a next boundary, and
    /// for a refused subscription, in this order; the last is the provider's own error.
    pub fn start_with(
        &mut self,
        info: EpochInfo,
        mandatory: &Vec<SubnetId>,
        subscribed: Result<(), StealthError>,
        now: i64,
    ) -> (result: Result<TickOutcome, StealthError>)
        requires
            old(self).wf(),
        ensures
            final(self).wf(),
            final(self).k() == old(self).k(),
            final(self).source() == old(self).source(),
            result is Ok <==> old(self).phase() == JugglerPhase::Uninitialized
                && crate::common::boundary_if_any(info, now) is Some && subscribed is Ok,
            result is Err ==> final(self).same_service(*old(self)) && final(self).emitted()
                == old(self).emitted(),
            old(self).phase() != JugglerPhase::Uninitialized ==> (result matches Err(
                StealthError::Internal(m),
            ) && m@ == "Juggler is already initialized"@),
            old(self).phase() == JugglerPhase::Uninitialized && crate::common::boundary_if_any(
                info,
                now,
            ) is None ==> (result matches Err(StealthError::ProviderApi(m)) && m@
                == "Malformed epoch information"@),
            old(self).phase() == JugglerPhase::Uninitialized && crate::common::boundary_if_any(
                info,
                now,
            ) is Some ==> (subscribed matches Err(e) ==> (result matches Err(r) && r == e)),
            result matches Ok(outcome) ==> {
                &&& final(self).phase() == JugglerPhase::Running
                &&& outcome.info == info
                &&& outcome.change matches Some(change)
                &&& change.mandatory@ == mandatory@
                &&& change.failures == (0usize, 0usize)
                &&& final(self).is_epoch_change_of(*old(self), info, change, now, false)
            },
    {
        if self.phase != JugglerPhase::Uninitialized {
            return Err(StealthError::Internal(String::from_str("Juggler is already initialized")));
        }
        let boundary = match crate::common::next_epoch_boundary_at(&info, now) {
            Some(at) => at,
            None => {
                return Err(
                    StealthError::ProviderApi(String::from_str("Malformed epoch information")),
                );
            },
        };
        match subscribed {
            Ok(_) => {},
            Err(e) => {
                return Err(e);
            },
        }
        let list = copy_list(mandatory);
        let wanted_set = SubnetSet::from_list(&list);
        let ghost wanted = wanted_set@;
        self.state.current_epoch = info.epoch;
        self.state.next_reshuffle = boundary;
        let ghost noted = *self;
        self.install_mandatory(wanted_set);
        self.phase = JugglerPhase::Initialized;
        let ghost updated = *self;
        let reshuffle = self.reshuffle_extra_subnets(now);
        let ghost shuffled = *self;
        self.phase = JugglerPhase::Running;
        let change = EpochChange { mandatory: list, failures: (0, 0), reshuffle };
        proof {
            assert forall|s: SubnetId|
                updated.state().mandatory_subnets@.contains(s) <==> (change.mandatory@.contains(s)
                    && s.is_valid()) by {
                assert(updated.state().mandatory_subnets@.contains(s) == wanted.contains(s));
            }
            assert(updated.emitted() =~= noted.emitted() + change_events(
                Seq::empty(),
                0,
                0,
                Seq::empty(),
            ));
            assert(updated.is_mandatory_update_of(noted, change.mandatory@, change.failures));
            assert(shuffled.is_reshuffle_of(updated, change.reshuffle, now));
            assert(self.is_epoch_change_of(*old(self), info, change, now, false));
        }
        Ok(TickOutcome { info, change: Some(change) })
    }

    /// Brings a juggler that is not initialized into service: asks the provider for the epoch
    /// and the mandatory subnets, has it subscribe them, and goes on as `start_with` says
    /// with what it answered.
    ///
    /// A refusal of the provider to tell the epoch or the mandatory subnets is returned as
    /// it is, and the juggler stays as it was. The mandatory subnets are asked for, and
    /// subscribed, only where the epoch information tells a next boundary.
    pub fn initialize(&mut self, now: i64) -> (result: Result<TickOutcome, StealthError>)
        requires
            old(self).wf(),
        ensures
            final(self).wf(),
            final(self).k() == old(self).k(),
            final(self).source() == old(self).source(),
            old(self).phase() != JugglerPhase::Uninitialized ==> (result matches Err(
                StealthError::Internal(m),
            ) && m@ == "Juggler is already initialized"@),
            result is Err ==> final(self).phase() == old(self).phase() && final(self).state()
                == old(self).state() && final(self).emitted() == old(self).emitted(),
            result matches Ok(outcome) ==> {
                &&& old(self).phase() == JugglerPhase::Uninitialized
                &&& final(self).phase() == JugglerPhase::Running
                &&& outcome.info.slots_per_epoch > 0
                &&& crate::common::boundary_after(outcome.info, now) <= i64::MAX
                &&& outcome.change matches Some(change)
                &&& change.failures == (0usize, 0usize)
                &&& final(self).is_epoch_change_of(*old(self), outcome.info, change, now, false)
                &&& old(self).source() matches MandatorySubnetSource::Static(list)
                    ==> change.mandatory@ == list@
            },
    {
        if self.phase != JugglerPhase::Uninitialized {
            return Err(StealthError::Internal(String::from_str("Juggler is already initialized")));
        }
        let info = match self.provider.get_current_epoch_info() {
            Ok(info) => info,
            Err(e) => {
                return Err(e);
            },
        };
        if crate::common::next_epoch_boundary_at(&info, now).is_none() {
            return Err(StealthError::ProviderApi(String::from_str("Malformed epoch information")));
        }
        let list = match self.fetch_mandatory() {
            Ok(list) => list,
            Err(e) => {
                return Err(e);
            },
        };
        let subscribed = self.subscribe_mandatory(&list);
        self.start_with(info, &list, subscribed, now)
    }

    /// Whether the epoch information `info` at `now` starts a new epoch for a juggler in
    /// service: it tells a next boundary and another epoch than the one on the books. Only
    /// then are the mandatory subnets asked for.
    pub open spec fn starts_epoch(&self, info: EpochInfo, now: i64) -> bool {
        &&& self.phase() == JugglerPhase::Running
        &&& crate::common::boundary_if_any(info, now) is Some
        &&& info.epoch != self.state().current_epoch
    }

    /// Tells whether the epoch information `info` at `now` starts a new epoch.
    pub fn is_new_epoch(&self, info: &EpochInfo, now: i64) -> (fresh: bool)
        ensures
            fresh == self.starts_epoch(*info, now),
    {
        self.phase == JugglerPhase::Running && crate::common::next_epoch_boundary_at(
            info,
            now,
        ).is_some() && info.epoch != self.state.current_epoch
    }

    /// Whether `self` is `before` with nothing changed but the time of the next boundary,
    /// which is the one that `info` tells at `now`.
    pub open spec fn is_boundary_note_of(&self, before: Self, info: EpochInfo, now: i64) -> bool {
        &&& self.phase() == before.phase()
        &&& self.k() == before.k()
        &&& self.source() == before.source()
        &&& self.emitted() == before.emitted()
        &&& self.state().current_epoch == before.state().current_epoch
        &&& self.state().next_reshuffle == crate::common::boundary_after(info, now)
        &&& self.state().last_reshuffle == before.state().last_reshuffle
        &&& self.state().subscribed_subnets == before.state().subscribed_subnets
        &&& self.state().mandatory_subnets == before.state().mandatory_subnets
        &&& self.state().extra_subnets == before.state().extra_subnets
    }

    /// Handles the tick of the epoch timer with what the provider answered: the epoch
    /// information `info` and, for a new epoch, the mandatory subnets `mandatory`.
    ///
    /// A juggler that is not running, or information that tells no next boundary at `now`,
    /// gives an error and leaves the juggler as it was. Where the epoch is the one on the
    /// books, the time of the next boundary is noted and nothing else happens. Otherwise
    /// the epoch and the boundary are noted, `mandatory` becomes the list of the mandatory
    /// subnets, the extras are reshuffled and the reshuffle is announced.
    pub fn take_epoch_info(&mut self, info: EpochInfo, mandatory: &Vec<SubnetId>, now: i64) -> (result:
        Result<TickOutcome, StealthError>)
        requires
            old(self).wf(),
        ensures
            final(self).wf(),
            final(self).k() == old(self).k(),
            final(self).source() == old(self).source(),
            final(self).phase() == old(self).phase(),
            result is Ok <==> old(self).phase() == JugglerPhase::Running
                && crate::common::boundary_if_any(info, now) is Some,
            result is Err ==> final(self).same_service(*old(self)) && final(self).emitted()
                == old(self).emitted(),
            old(self).phase() != JugglerPhase::Running ==> (result matches Err(
                StealthError::Internal(m),
            ) && m@ == "Juggler is not running"@),
            old(self).phase() == JugglerPhase::Running && crate::common::boundary_if_any(
                info,
                now,
            ) is None ==> (result matches Err(StealthError::ProviderApi(m)) && m@
                == "Malformed epoch information"@),
            result matches Ok(outcome) ==> {
                &&& outcome.info == info
                &&& outcome.change is None <==> info.epoch == old(self).state().current_epoch
                &&& outcome.change is None ==> final(self).is_boundary_note_of(
                    *old(self),
                    info,
                    now,
                )
                &&& outcome.change matches Some(change) ==> {
                    &&& change.mandatory@ == mandatory@
                    &&& final(self).is_epoch_change_of(*old(self), info, change, now, true)
                }
            },
    {
        if self.phase != JugglerPhase::Running {
            return Err(StealthError::Internal(String::from_str("Juggler is not running")));
        }
        let boundary = match crate::common::next_epoch_boundary_at(&info, now) {
            Some(at) => at,
            None => {
                return Err(
                    StealthError::ProviderApi(String::from_str("Malformed epoch information")),
                );
            },
        };
        if info.epoch == self.state.current_epoch {
            self.state.next_reshuffle = boundary;
            return Ok(TickOutcome { info, change: None });
        }
        let list = copy_list(mandatory);
        self.state.current_epoch = info.epoch;
        self.state.next_reshuffle = boundary;
        let ghost noted = *self;
        let failures = self.update_mandatory(&list);
        let ghost updated = *self;
        self.phase = JugglerPhase::Reshuffling;
        let ghost ready = *self;
        let reshuffle = self.reshuffle_extra_subnets(now);
        let ghost shuffled = *self;
        self.phase = JugglerPhase::Running;
        let new_subnets = self.state.extra_subnets.to_vec();
        let ghost before = self.events@;
        self.events.push(SubnetEvent::EpochReshuffle { epoch: info.epoch, new_subnets });
        let change = EpochChange { mandatory: list, failures, reshuffle };
        proof {
            assert(event_views(self.events@) =~= event_views(before).push(
                SubnetEventView::EpochReshuffle {
                    epoch: info.epoch,
                    new_subnets: self.state.extra_subnets.order(),
                },
            ));
            assert(updated.is_mandatory_update_of(noted, change.mandatory@, change.failures));
            assert(ready.state() == updated.state());
            assert(ready.emitted() == updated.emitted());
            assert forall|s: SubnetId|
                ready.state().mandatory_subnets@.contains(s) <==> (change.mandatory@.contains(s)
                    && s.is_valid()) by {
                assert(ready.state().mandatory_subnets@.contains(s)
                    == updated.state().mandatory_subnets@.contains(s));
            }
            assert(ready.is_mandatory_update_of(noted, change.mandatory@, change.failures));
            assert(shuffled.is_reshuffle_of(ready, change.reshuffle, now));
            assert(self.is_epoch_change_of(*old(self), info, change, now, true));
        }
        Ok(TickOutcome { info, change: Some(change) })
    }

    /// Handles the tick of the epoch timer: asks the provider for the epoch and, where the
    /// epoch is new, for the mandatory subnets, and goes on as `take_epoch_info` says with
    /// what it answered.
    ///
    /// A refusal of the provider to tell the epoch or the mandatory subnets is returned as
    /// it is, and the juggler stays as it was. A juggler that is not running does not ask.
    pub fn handle_epoch_boundary(&mut self, now: i64) -> (result: Result<
        TickOutcome,
        StealthError,
    >)
        requires
            old(self).wf(),
        ensures
            final(self).wf(),
            final(self).k() == old(self).k(),
            final(self).source() == old(self).source(),
            final(self).phase() == old(self).phase(),
            old(self).phase() != JugglerPhase::Running ==> (result matches Err(
                StealthError::Internal(m),
            ) && m@ == "Juggler is not running"@),
            result is Err ==> final(self).state() == old(self).state() && final(self).emitted()
                == old(self).emitted(),
            result matches Ok(outcome) ==> {
                &&& old(self).phase() == JugglerPhase::Running
                &&& outcome.info.slots_per_epoch > 0
                &&& crate::common::boundary_after(outcome.info, now) <= i64::MAX
                &&& outcome.change is None <==> outcome.info.epoch == old(
                    self
                ).state().current_epoch
                &&& outcome.change is None ==> final(self).is_boundary_note_of(
                    *old(self),
                    outcome.info,
                    now,
                )
                &&& outcome.change matches Some(change) ==> {
                    &&& final(self).is_epoch_change_of(*old(self), outcome.info, change, now, true)
                    &&& old(self).source() matches MandatorySubnetSource::Static(list)
                        ==> change.mandatory@ == list@
                }
            },
    {
        if self.phase != JugglerPhase::Running {
            return Err(StealthError::Internal(String::from_str("Juggler is not running")));
        }
        let info = match self.provider.get_current_epoch_info() {
            Ok(info) => info,
            Err(e) => {
                return Err(e);
            },
        };
        let list = if self.is_new_epoch(&info, now) {
            match self.fetch_mandatory() {
                Ok(list) => list,
                Err(e) => {
                    return Err(e);
                },
            }
        } else {
            Vec::new()
        };
        self.take_epoch_info(info, &list, now)
    }

    /// Whether `self` is what taking `list` as the list of mandatory subnets, with `failures`
    /// of the provider, makes of `before`: the valid subnets of the list are the mandatory
    /// ones, and an extra that is now mandatory is no extra any more.
    pub open spec fn is_mandatory_update_of(
        &self,
        before: Self,
        list: Seq<SubnetId>,
        failures: (usize, usize),
    ) -> bool {
        &&& self.k() == before.k()
        &&& self.source() == before.source()
        &&& self.state().current_epoch == before.state().current_epoch
        &&& self.state().next_reshuffle == before.state().next_reshuffle
        &&& self.state().last_reshuffle == before.state().last_reshuffle
        &&& forall|s: SubnetId| #[trigger]
            self.state().mandatory_subnets@.contains(s) <==> (list.contains(s) && s.is_valid())
        &&& self.state().extra_subnets@ == before.state().extra_subnets@.difference(
            self.state().mandatory_subnets@,
        )
        &&& self.emitted() == before.emitted() + change_events(
            Seq::empty(),
            failures.0 as nat,
            failures.1 as nat,
            Seq::empty(),
        )
    }

    /// Whether `self` is what the start of the epoch that `info` tells, at `now`, makes of
    /// `before`: the epoch and the time of the next boundary are noted, the mandatory subnets
    /// are brought up to date, the extras are reshuffled, and the reshuffle is announced with
    /// an event if `announced` says so.
    pub open spec fn is_epoch_change_of(
        &self,
        before: Self,
        info: EpochInfo,
        change: EpochChange,
        now: i64,
        announced: bool,
    ) -> bool {
        exists|noted: Self, updated: Self, shuffled: Self|
            #![trigger
                updated.is_mandatory_update_of(noted, change.mandatory@, change.failures),
                shuffled.is_reshuffle_of(updated, change.reshuffle, now),
            ]
            {
                &&& noted.k() == before.k()
                &&& noted.source() == before.source()
                &&& noted.emitted() == before.emitted()
                &&& noted.state().current_epoch == info.epoch
                &&& noted.state().next_reshuffle == crate::common::boundary_after(info, now)
                &&& noted.state().last_reshuffle == before.state().last_reshuffle
                &&& noted.state().mandatory_subnets@ == before.state().mandatory_subnets@
                &&& noted.state().extra_subnets@ == before.state().extra_subnets@
                &&& updated.is_mandatory_update_of(noted, change.mandatory@, change.failures)
                &&& shuffled.is_reshuffle_of(updated, change.reshuffle, now)
                &&& self.state() == shuffled.state()
                &&& self.k() == shuffled.k()
                &&& self.source() == shuffled.source()
                &&& self.emitted() == if announced {
                    shuffled.emitted().push(
                        SubnetEventView::EpochReshuffle {
                            epoch: info.epoch,
                            new_subnets: self.state().extra_subnets.order(),
                        },
                    )
                } else {
                    shuffled.emitted()
                }
            }
    }

    /// Whether `report` shows the state of `self`.
    pub open spec fn is_shown_by(&self, report: SubnetState) -> bool {
        &&& report.current_epoch == self.state().current_epoch
        &&& report.subscribed_subnets@ == self.state().subscribed_subnets@
        &&& report.mandatory_subnets@ == self.state().mandatory_subnets@
        &&& report.extra_subnets@ == self.state().extra_subnets@
        &&& report.last_reshuffle == self.state().last_reshuffle
        &&& report.next_reshuffle == self.state().next_reshuffle
    }

    /// Whether `self` is what the command `command` at `now`, with the outcome `outcome`,
    /// makes of `before`: a reshuffle, an addition or a removal as the outcome describes it, or
    /// nothing but a report of the state.
    pub open spec fn is_outcome_of(
        &self,
        before: Self,
        command: SubnetCommand,
        outcome: CommandOutcome,
        now: i64,
    ) -> bool {
        match command {
            SubnetCommand::ForceReshuffle => outcome matches CommandOutcome::Reshuffled(report)
                && self.is_reshuffle_of(before, report, now) && self.phase() == before.phase(),
            SubnetCommand::AddSubnets(list) => outcome matches CommandOutcome::Added(report)
                && self.is_addition_to(before, list@, report) && self.phase() == before.phase(),
            SubnetCommand::RemoveSubnets(list) => outcome matches CommandOutcome::Removed(report)
                && self.is_removal_from(before, list@, report) && self.phase() == before.phase(),
            SubnetCommand::GetStatus => outcome matches CommandOutcome::Status(report)
                && self.is_shown_by(report) && self.state() == before.state() && self.phase()
                == before.phase() && self.k() == before.k() && self.source() == before.source()
                && self.emitted() == before.emitted(),
            SubnetCommand::Stop => false,
        }
    }

    /// Carries out a command.
    ///
    /// `Stop` puts the juggler into shutdown and is answered with the error that ends the
    /// caller's loop. `GetStatus` changes nothing and is answered with a copy of the state,
    /// made without asking the provider. The other commands reshuffle, add or remove extras
    /// as `reshuffle_extra_subnets`, `add_subnets` and `remove_subnets` say, and are answered
    /// with what was done.
    pub fn handle_command(&mut self, command: SubnetCommand, now: i64) -> (result: Result<
        CommandOutcome,
        StealthError,
    >)
        requires
            old(self).wf(),
        ensures
            final(self).wf(),
            command is Stop ==> (result matches Err(StealthError::SubnetManagement(m)) && m@
                == "Stop requested"@) && final(self).phase() == JugglerPhase::ShuttingDown
                && final(self).k() == old(self).k() && final(self).source() == old(self).source()
                && final(self).state() == old(self).state() && final(self).emitted() == old(
                self
            ).emitted(),
            !(command is Stop) ==> (result matches Ok(outcome) && final(self).is_outcome_of(
                *old(self),
                command,
                outcome,
                now,
            )),
    {
        match command {
            SubnetCommand::ForceReshuffle => Ok(
                CommandOutcome::Reshuffled(self.reshuffle_extra_subnets(now)),
            ),
            SubnetCommand::AddSubnets(list) => Ok(CommandOutcome::Added(self.add_subnets(&list))),
            SubnetCommand::RemoveSubnets(list) => Ok(
                CommandOutcome::Removed(self.remove_subnets(&list)),
            ),
            SubnetCommand::GetStatus => Ok(CommandOutcome::Status(self.state.snapshot())),
            SubnetCommand::Stop => {
                self.phase = JugglerPhase::ShuttingDown;
                Err(StealthError::SubnetManagement(String::from_str("Stop requested")))
            },
        }
    }

    /// A copy of the state as it stands, made without asking the provider.
    pub fn status(&self) -> (state: SubnetState)
        ensures
            state.current_epoch == self.state().current_epoch,
            state.subscribed_subnets@ == self.state().subscribed_subnets@,
            state.mandatory_subnets@ == self.state().mandatory_subnets@,
            state.extra_subnets@ == self.state().extra_subnets@,
            state.last_reshuffle == self.state().last_reshuffle,
            state.next_reshuffle == self.state().next_reshuffle,
    {
        self.state.snapshot()
    }

    /// Ends the juggler's service: every extra is unsubscribed and the mandatory subnets are
    /// left alone. An extra that the provider fails to unsubscribe stays on the books. A
    /// juggler that is stopped already does nothing. Returns the subnets that were
    /// unsubscribed.
    pub fn cleanup(&mut self) -> (left: Vec<SubnetId>)
        requires
            old(self).wf(),
        ensures
            final(self).wf(),
            final(self).k() == old(self).k(),
            final(self).source() == old(self).source(),
            final(self).phase() == JugglerPhase::Stopped,
            final(self).state().current_epoch == old(self).state().current_epoch,
            final(self).state().next_reshuffle == old(self).state().next_reshuffle,
            final(self).state().last_reshuffle == old(self).state().last_reshuffle,
            final(self).state().mandatory_subnets@ == old(self).state().mandatory_subnets@,
            old(self).phase() == JugglerPhase::Stopped ==> left@.len() == 0 && final(self).state()
                == old(self).state() && final(self).emitted() == old(self).emitted(),
            old(self).phase() != JugglerPhase::Stopped ==> {
                &&& final(self).state().extra_subnets@ == old(self).state().extra_subnets@.difference(
                    left@.to_set(),
                )
                &&& final(self).emitted() == old(self).emitted() + change_events(
                    left@,
                    (old(self).state().extra_subnets@.len() - left@.len()) as nat,
                    0,
                    Seq::empty(),
                )
            },
            forall|s: SubnetId| #[trigger]
                left@.contains(s) ==> old(self).state().extra_subnets@.contains(s),
            left@.no_duplicates(),
    {
        if self.phase == JugglerPhase::Stopped {
            return Vec::new();
        }
        proof {
            self.state.mandatory_subnets.lemma_wf();
            self.state.extra_subnets.lemma_wf();
        }
        let ghost start = self.state.extra_subnets@;
        let ghost mandatory = self.state.mandatory_subnets@;
        let former = self.state.extra_subnets.to_vec();
        let flags = leave_each(&self.provider, &former);
        let (left, stuck) = partition(&former, &flags);
        proof {
            lemma_picked(former@, flags@);
        }
        let gone = SubnetSet::from_list(&left);
        let extra = self.state.extra_subnets.without(&gone);
        let subscribed = self.state.mandatory_subnets.union(&extra);
        proof {
            extra.lemma_wf();
            left@.unique_seq_to_set();
            assert(gone@ =~= left@.to_set()) by {
                assert forall|s: SubnetId| gone@.contains(s) <==> left@.to_set().contains(s) by {
                    if left@.contains(s) {
                        let a = choose|a: int| 0 <= a < left@.len() && left@[a] == s;
                        assert(left@[a].is_valid());
                    }
                }
            }
            vstd::set_lib::lemma_len_subset(extra@, start);
            assert(mandatory.disjoint(extra@));
            assert(left@.to_set().subset_of(start)) by {
                assert forall|s: SubnetId| left@.to_set().contains(s) implies start.contains(s) by {
                    assert(left@.contains(s));
                    assert(former@.contains(s));
                }
            }
            vstd::set_lib::lemma_len_subset(left@.to_set(), start);
            assert(stuck@.len() == start.len() - left@.len());
        }
        self.state.extra_subnets = extra;
        self.state.subscribed_subnets = subscribed;
        self.phase = JugglerPhase::Stopped;
        let none: Vec<SubnetId> = Vec::new();
        push_change_events(&mut self.events, &left, stuck.len(), 0, &none);
        left
    }

    /// Carries out a command as the juggler's loop does. The command to stop ends the loop:
    /// it is answered with nothing and is not announced as an error. Every other command is
    /// answered with what was done, and the loop goes on.
    pub fn process_command(&mut self, command: SubnetCommand, now: i64) -> (outcome: Option<
        CommandOutcome,
    >)
        requires
            old(self).wf(),
        ensures
            final(self).wf(),
            command is Stop ==> outcome is None && final(self).phase()
                == JugglerPhase::ShuttingDown && final(self).k() == old(self).k() && final(
                self
            ).source() == old(self).source() && final(self).state() == old(self).state()
                && final(self).emitted() == old(self).emitted(),
            !(command is Stop) ==> (outcome matches Some(done) && final(self).is_outcome_of(
                *old(self),
                command,
                done,
                now,
            )),
    {
        match self.handle_command(command, now) {
            Ok(done) => Some(done),
            Err(_) => None,
        }
    }

    /// Closes a tick of the epoch timer as the juggler's loop does: an outcome is handed on,
    /// and an error is announced as an error event with the text of the error. Nothing
    /// else changes.
    pub fn close_tick(&mut self, result: Result<TickOutcome, StealthError>) -> (told: Option<
        TickOutcome,
    >)
        ensures
            final(self).same_service(*old(self)),
            result matches Ok(outcome) ==> told == Some(outcome) && final(self).emitted() == old(
                self
            ).emitted(),
            result matches Err(e) ==> told is None && final(self).emitted() == old(
                self
            ).emitted().push(SubnetEventView::Error(e.prefix() + e.detail())),
    {
        match result {
            Ok(outcome) => Some(outcome),
            Err(e) => {
                let ghost before = self.events@;
                self.events.push(SubnetEvent::Error(e.message()));
                proof {
                    assert(event_views(self.events@) =~= event_views(before).push(
                        SubnetEventView::Error(e.prefix() + e.detail()),
                    ));
                }
                None
            },
        }
    }

    /// Handles the tick of the epoch timer as the juggler's loop does: the tick is handled
    /// as `handle_epoch_boundary` says and closed as `close_tick` says. So an error at the
    /// boundary is announced as an error event, and the juggler is otherwise as it was.
    pub fn process_tick(&mut self, now: i64) -> (told: Option<TickOutcome>)
        requires
            old(self).wf(),
        ensures
            final(self).wf(),
            final(self).k() == old(self).k(),
            final(self).source() == old(self).source(),
            final(self).phase() == old(self).phase(),
            old(self).phase() != JugglerPhase::Running ==> told is None && final(self).emitted()
                == old(self).emitted().push(
                SubnetEventView::Error("Internal error: Juggler is not running"@),
            ),
            told is None ==> final(self).state() == old(self).state() && final(
                self
            ).emitted().len() == old(self).emitted().len() + 1 && final(
                self
            ).emitted().drop_last() == old(self).emitted() && final(self).emitted().last()
                is Error,
            told matches Some(outcome) ==> {
                &&& outcome.info.slots_per_epoch > 0
                &&& outcome.change is None <==> outcome.info.epoch == old(
                    self
                ).state().current_epoch
                &&& outcome.change is None ==> final(self).is_boundary_note_of(
                    *old(self),
                    outcome.info,
                    now,
                )
                &&& outcome.change matches Some(change) ==> final(self).is_epoch_change_of(
                    *old(self),
                    outcome.info,
                    change,
                    now,
                    true,
                )
            },
    {
        let ghost start = *self;
        let result = self.handle_epoch_boundary(now);
        let ghost handled = *self;
        let ghost answer = result;
        let told = self.close_tick(result);
        proof {
            if let Err(e) = answer {
                assert(self.emitted().drop_last() =~= handled.emitted());
                if start.phase() != JugglerPhase::Running {
                    reveal_strlit("Internal error: ");
                    reveal_strlit("Juggler is not running");
                    reveal_strlit("Internal error: Juggler is not running");
                    assert(e.prefix() + e.detail()
                        =~= "Internal error: Juggler is not running"@);
                }
            }
        }
        told
    }
}

} // verus!
