//! The supervisor: what is to be done for each gossip message, each event of the juggler and of
//! the relay, each health tick and each control command. The supervisor decides; the caller
//! carries the actions out.

use crate::common::SubnetId;
use crate::friend_relay::RelayEvent;
use crate::providers::{MAINNET_GENESIS_TIME, SECONDS_PER_SLOT, SLOTS_PER_EPOCH};
use crate::subnet_juggler::SubnetEvent;
use crate::topics::{
    extract_subnet_id_from_topic, is_block_topic, is_block_topic_name, topic_subnet,
    topic_subnet_id,
};
use vstd::prelude::*;

verus! {

/// A gossip message taken from the gossip engine.
#[derive(Debug)]
pub enum GossipMessage {
    Attestation { data: Vec<u8>, subnet_id: u8, source_peer: String, message_id: Vec<u8> },
    Block { data: Vec<u8>, source_peer: String, message_id: Vec<u8> },
    Other { topic: String, data: Vec<u8>, source_peer: String, message_id: Vec<u8> },
}

/// What a gossip message of `topic` is: an attestation where the topic is that of one of the
/// 64 subnets, a block where it is the block topic, and another message else.
pub open spec fn kind_of_topic(topic: Seq<char>) -> MessageKind {
    if topic_subnet_id(topic) is Some {
        MessageKind::Attestation
    } else if is_block_topic(topic) {
        MessageKind::Block
    } else {
        MessageKind::Other
    }
}

/// Sorts a message of the gossip engine by its topic.
pub fn classify_gossip(
    topic: String,
    data: Vec<u8>,
    source_peer: String,
    message_id: Vec<u8>,
) -> (message: GossipMessage)
    ensures
        kind_of_topic(topic@) == MessageKind::Attestation ==> message == (
        GossipMessage::Attestation {
            data,
            subnet_id: topic_subnet(topic@).unwrap(),
            source_peer,
            message_id,
        }),
        kind_of_topic(topic@) == MessageKind::Block ==> message == (GossipMessage::Block {
            data,
            source_peer,
            message_id,
        }),
        kind_of_topic(topic@) == MessageKind::Other ==> message == (GossipMessage::Other {
            topic,
            data,
            source_peer,
            message_id,
        }),
{
    match extract_subnet_id_from_topic(topic.as_str()) {
        Some(subnet) => GossipMessage::Attestation {
            data,
            subnet_id: subnet.0,
            source_peer,
            message_id,
        },
        None => {
            if is_block_topic_name(topic.as_str()) {
                GossipMessage::Block { data, source_peer, message_id }
            } else {
                GossipMessage::Other { topic, data, source_peer, message_id }
            }
        },
    }
}

/// The kind of a gossip message.
#[derive(Debug, Clone, Copy, PartialEq, Eq, Structural)]
pub enum MessageKind {
    Attestation,
    Block,
    Other,
}

/// The kinds of event that the privacy counter counts.
#[derive(Debug, Clone, Copy, PartialEq, Eq, Structural)]
pub enum PrivacyEvent {
    SubnetShuffle,
    FriendRelay,
    AnonymityPreserved,
    Error,
}

/// An update of the telemetry.
#[derive(Debug, Clone, Copy, PartialEq, Eq, Structural)]
pub enum Metric {
    /// A gossip message of this size and kind was seen.
    MessageSize { bytes: usize, kind: MessageKind },
    /// This many bytes came in over gossip.
    InboundGossip { bytes: usize },
    /// A subnet was joined.
    SubnetJoined { mandatory: bool },
    /// A subnet was left.
    SubnetLeft { mandatory: bool },
    /// The extras were reshuffled at an epoch boundary.
    EpochReshuffle,
    /// This many extra subnets are subscribed.
    SubscribedSubnets { count: usize },
    /// An event of this kind happened.
    Privacy(PrivacyEvent),
    /// An attestation was relayed with this latency.
    AttestationRelayed { latency_ms: u64 },
    /// This many friends were reached.
    FriendConnections { count: usize },
    /// An attestation arrived from a friend.
    AttestationReceived,
    /// The rate limiter refused a message.
    RateLimitViolation,
    /// The figures of the system are due.
    SystemMetrics,
}

/// Something that the supervisor wants done.
#[derive(Debug)]
pub enum SupervisorAction {
    /// Bring the telemetry up to date.
    Record(Metric),
    /// Count a message that this friend sent.
    RecordFriendMessage(String),
    /// Hand an attestation to the friend relay.
    Relay { data: Vec<u8>, subnet_id: u8 },
    /// Have the gossip engine subscribe to the topic of a subnet.
    Subscribe(SubnetId),
    /// Have the gossip engine unsubscribe from the topic of a subnet.
    Unsubscribe(SubnetId),
    /// Warn that fewer friends are configured than anonymity needs.
    WarnFewFriends { count: usize },
}

/// What an action says.
pub enum ActionView {
    Record(Metric),
    RecordFriendMessage(Seq<char>),
    Relay { data: Seq<u8>, subnet_id: u8 },
    Subscribe(SubnetId),
    Unsubscribe(SubnetId),
    WarnFewFriends { count: usize },
}

impl View for SupervisorAction {
    type V = ActionView;

    open spec fn view(&self) -> ActionView {
        match self {
            SupervisorAction::Record(metric) => ActionView::Record(*metric),
            SupervisorAction::RecordFriendMessage(id) => ActionView::RecordFriendMessage(id@),
            SupervisorAction::Relay { data, subnet_id } => ActionView::Relay {
                data: data@,
                subnet_id: *subnet_id,
            },
            SupervisorAction::Subscribe(s) => ActionView::Subscribe(*s),
            SupervisorAction::Unsubscribe(s) => ActionView::Unsubscribe(*s),
            SupervisorAction::WarnFewFriends { count } => ActionView::WarnFewFriends {
                count: *count,
            },
        }
    }
}

/// What a list of actions says.
pub open spec fn action_views(actions: Seq<SupervisorAction>) -> Seq<ActionView> {
    actions.map_values(|a: SupervisorAction| a@)
}

/// The telemetry of a gossip message of `bytes` bytes.
pub open spec fn seen_message(bytes: usize, kind: MessageKind) -> Seq<ActionView> {
    seq![
        ActionView::Record(Metric::MessageSize { bytes, kind }),
        ActionView::Record(Metric::InboundGossip { bytes }),
    ]
}

/// What is done for a gossip message: every message is measured, and an attestation is handed
/// to the friend relay.
pub open spec fn gossip_actions(message: GossipMessage) -> Seq<ActionView> {
    match message {
        GossipMessage::Attestation { data, subnet_id, .. } => seen_message(
            data@.len() as usize,
            MessageKind::Attestation,
        ).push(ActionView::Relay { data: data@, subnet_id }),
        GossipMessage::Block { data, .. } => seen_message(data@.len() as usize, MessageKind::Block),
        GossipMessage::Other { data, .. } => seen_message(data@.len() as usize, MessageKind::Other),
    }
}

/// What is done for the subnets that the juggler joined: each is counted and subscribed at
/// the gossip engine.
pub open spec fn joined_actions(subnets: Seq<SubnetId>) -> Seq<ActionView>
    decreases subnets.len(),
{
    if subnets.len() == 0 {
        Seq::empty()
    } else {
        joined_actions(subnets.drop_last()).push(
            ActionView::Record(Metric::SubnetJoined { mandatory: false }),
        ).push(ActionView::Subscribe(subnets.last()))
    }
}

/// What is done for the subnets that the juggler left: each is counted and unsubscribed at
/// the gossip engine.
pub open spec fn left_actions(subnets: Seq<SubnetId>) -> Seq<ActionView>
    decreases subnets.len(),
{
    if subnets.len() == 0 {
        Seq::empty()
    } else {
        left_actions(subnets.drop_last()).push(
            ActionView::Record(Metric::SubnetLeft { mandatory: false }),
        ).push(ActionView::Unsubscribe(subnets.last()))
    }
}

/// What is done for an event of the juggler.
pub open spec fn subnet_event_actions(event: SubnetEvent) -> Seq<ActionView> {
    match event {
        SubnetEvent::SubnetsJoined(subnets) => joined_actions(subnets@).push(
            ActionView::Record(Metric::Privacy(PrivacyEvent::SubnetShuffle)),
        ),
        SubnetEvent::SubnetsLeft(subnets) => left_actions(subnets@),
        SubnetEvent::EpochReshuffle { epoch, new_subnets } => seq![
            ActionView::Record(Metric::EpochReshuffle),
            ActionView::Record(Metric::SubscribedSubnets { count: new_subnets@.len() as usize }),
        ],
        SubnetEvent::Error(_) => seq![ActionView::Record(Metric::Privacy(PrivacyEvent::Error))],
    }
}

/// What is done for an event of the relay.
pub open spec fn relay_event_actions(event: RelayEvent) -> Seq<ActionView> {
    match event {
        RelayEvent::MessageRelayed { message_id, friends_count, latency_ms } => seq![
            ActionView::Record(Metric::AttestationRelayed { latency_ms }),
            ActionView::Record(Metric::FriendConnections { count: friends_count }),
            ActionView::Record(Metric::Privacy(PrivacyEvent::AnonymityPreserved)),
        ],
        RelayEvent::MessageReceived { message_id, from_friend } => seq![
            ActionView::Record(Metric::AttestationReceived),
            ActionView::RecordFriendMessage(from_friend@),
        ],
        RelayEvent::FriendConnected(_) => Seq::empty(),
        RelayEvent::FriendDisconnected(_) => Seq::empty(),
        RelayEvent::RateLimitExceeded { .. } => seq![ActionView::Record(Metric::RateLimitViolation)],
        RelayEvent::Error(_) => seq![ActionView::Record(Metric::Privacy(PrivacyEvent::Error))],
    }
}

/// What is done at a health tick: the figures of the system are brought up to date, and a
/// warning is given where fewer than three friends are configured.
pub open spec fn health_actions(friend_count: usize) -> Seq<ActionView> {
    if friend_count < 3 {
        seq![
            ActionView::Record(Metric::SystemMetrics),
            ActionView::WarnFewFriends { count: friend_count },
        ]
    } else {
        seq![ActionView::Record(Metric::SystemMetrics)]
    }
}

/// Appends the telemetry of a gossip message to `actions`.
fn push_seen(actions: &mut Vec<SupervisorAction>, bytes: usize, kind: MessageKind)
    ensures
        action_views(final(actions)@) == action_views(old(actions)@) + seen_message(bytes, kind),
{
    actions.push(SupervisorAction::Record(Metric::MessageSize { bytes, kind }));
    actions.push(SupervisorAction::Record(Metric::InboundGossip { bytes }));
    assert(action_views(actions@) =~= action_views(old(actions)@) + seen_message(bytes, kind));
}

/// Decides what is done for a gossip message.
pub fn handle_gossip_message(message: GossipMessage) -> (actions: Vec<SupervisorAction>)
    ensures
        action_views(actions@) == gossip_actions(message),
{
    let mut actions: Vec<SupervisorAction> = Vec::new();
    assert(action_views(actions@) =~= Seq::<ActionView>::empty());
    match message {
        GossipMessage::Attestation { data, subnet_id, source_peer, message_id } => {
            push_seen(&mut actions, data.len(), MessageKind::Attestation);
            let ghost before = action_views(actions@);
            actions.push(SupervisorAction::Relay { data, subnet_id });
            assert(action_views(actions@) =~= before.push(
                ActionView::Relay { data: data@, subnet_id },
            ));
        },
        GossipMessage::Block { data, source_peer, message_id } => {
            push_seen(&mut actions, data.len(), MessageKind::Block);
        },
        GossipMessage::Other { topic, data, source_peer, message_id } => {
            push_seen(&mut actions, data.len(), MessageKind::Other);
        },
    }
    assert(action_views(actions@) =~= gossip_actions(message));
    actions
}

/// Decides what is done for an event of the juggler.
pub fn handle_subnet_event(event: &SubnetEvent) -> (actions: Vec<SupervisorAction>)
    ensures
        action_views(actions@) == subnet_event_actions(*event),
{
    let mut actions: Vec<SupervisorAction> = Vec::new();
    assert(action_views(actions@) =~= Seq::<ActionView>::empty());
    match event {
        SubnetEvent::SubnetsJoined(subnets) => {
            let mut i: usize = 0;
            while i < subnets.len()
                invariant
                    i <= subnets.len(),
                    action_views(actions@) == joined_actions(subnets@.take(i as int)),
                decreases subnets.len() - i,
            {
                proof {
                    let next = subnets@.take(i as int + 1);
                    assert(next.drop_last() =~= subnets@.take(i as int));
                    assert(next.last() == subnets@[i as int]);
                }
                let ghost before = action_views(actions@);
                actions.push(SupervisorAction::Record(Metric::SubnetJoined { mandatory: false }));
                actions.push(SupervisorAction::Subscribe(subnets[i]));
                assert(action_views(actions@) =~= before.push(
                    ActionView::Record(Metric::SubnetJoined { mandatory: false }),
                ).push(ActionView::Subscribe(subnets@[i as int])));
                i = i + 1;
            }
            assert(subnets@.take(i as int) =~= subnets@);
            let ghost before = action_views(actions@);
            actions.push(SupervisorAction::Record(Metric::Privacy(PrivacyEvent::SubnetShuffle)));
            assert(action_views(actions@) =~= before.push(
                ActionView::Record(Metric::Privacy(PrivacyEvent::SubnetShuffle)),
            ));
        },
        SubnetEvent::SubnetsLeft(subnets) => {
            let mut i: usize = 0;
            while i < subnets.len()
                invariant
                    i <= subnets.len(),
                    action_views(actions@) == left_actions(subnets@.take(i as int)),
                decreases subnets.len() - i,
            {
                proof {
                    let next = subnets@.take(i as int + 1);
                    assert(next.drop_last() =~= subnets@.take(i as int));
                    assert(next.last() == subnets@[i as int]);
                }
                let ghost before = action_views(actions@);
                actions.push(SupervisorAction::Record(Metric::SubnetLeft { mandatory: false }));
                actions.push(SupervisorAction::Unsubscribe(subnets[i]));
                assert(action_views(actions@) =~= before.push(
                    ActionView::Record(Metric::SubnetLeft { mandatory: false }),
                ).push(ActionView::Unsubscribe(subnets@[i as int])));
                i = i + 1;
            }
            assert(subnets@.take(i as int) =~= subnets@);
        },
        SubnetEvent::EpochReshuffle { epoch, new_subnets } => {
            actions.push(SupervisorAction::Record(Metric::EpochReshuffle));
            actions.push(
                SupervisorAction::Record(Metric::SubscribedSubnets { count: new_subnets.len() }),
            );
            assert(action_views(actions@) =~= subnet_event_actions(*event));
        },
        SubnetEvent::Error(_) => {
            actions.push(SupervisorAction::Record(Metric::Privacy(PrivacyEvent::Error)));
            assert(action_views(actions@) =~= subnet_event_actions(*event));
        },
    }
    actions
}

/// Decides what is done for an event of the relay.
pub fn handle_relay_event(event: &RelayEvent) -> (actions: Vec<SupervisorAction>)
    ensures
        action_views(actions@) == relay_event_actions(*event),
{
    let mut actions: Vec<SupervisorAction> = Vec::new();
    assert(action_views(actions@) =~= Seq::<ActionView>::empty());
    match event {
        RelayEvent::MessageRelayed { message_id, friends_count, latency_ms } => {
            actions.push(
                SupervisorAction::Record(Metric::AttestationRelayed { latency_ms: *latency_ms }),
            );
            actions.push(
                SupervisorAction::Record(Metric::FriendConnections { count: *friends_count }),
            );
            actions.push(SupervisorAction::Record(Metric::Privacy(PrivacyEvent::AnonymityPreserved)));
        },
        RelayEvent::MessageReceived { message_id, from_friend } => {
            actions.push(SupervisorAction::Record(Metric::AttestationReceived));
            actions.push(SupervisorAction::RecordFriendMessage(from_friend.clone()));
        },
        RelayEvent::FriendConnected(_) => {},
        RelayEvent::FriendDisconnected(_) => {},
        RelayEvent::RateLimitExceeded { epoch, attempts, limit } => {
            actions.push(SupervisorAction::Record(Metric::RateLimitViolation));
        },
        RelayEvent::Error(_) => {
            actions.push(SupervisorAction::Record(Metric::Privacy(PrivacyEvent::Error)));
        },
    }
    assert(action_views(actions@) =~= relay_event_actions(*event));
    actions
}

/// Decides what is done at a health tick.
pub fn perform_health_check(friend_count: usize) -> (actions: Vec<SupervisorAction>)
    ensures
        action_views(actions@) == health_actions(friend_count),
{
    let mut actions: Vec<SupervisorAction> = Vec::new();
    actions.push(SupervisorAction::Record(Metric::SystemMetrics));
    if friend_count < 3 {
        actions.push(SupervisorAction::WarnFewFriends { count: friend_count });
    }
    assert(action_views(actions@) =~= health_actions(friend_count));
    actions
}

/// A control command of the operator.
#[derive(Debug)]
pub enum SidecarCommand {
    EnableStealth,
    DisableStealth,
    GetStatus,
    SendAttestation { validator_id: u8, subnet_id: u8, data: Vec<u8> },
    Shutdown,
}

/// What the sidecar reports of itself.
#[derive(Debug, Clone, Copy, PartialEq, Eq, Structural)]
pub struct StatusReport {
    pub stealth_enabled: bool,
    pub current_epoch: u64,
    pub current_slot: u64,
    pub extra_subnets_per_epoch: usize,
    pub friend_nodes_count: usize,
    pub metrics_enabled: bool,
}

/// What is to be done for a control command.
#[derive(Debug)]
pub enum ControlAction {
    /// Start the juggler and the relay.
    StartComponents,
    /// Stop the juggler and the relay.
    StopComponents,
    /// Answer with the status.
    Report(StatusReport),
    /// Hand the attestation to the friend relay.
    Relay { data: Vec<u8>, subnet_id: u8 },
    /// Nothing: the command changes nothing, or the attestation takes the direct path.
    Nothing,
    /// Stop the components if they run, and leave.
    Exit { stop_components: bool },
}

/// What a control action says.
pub enum ControlActionView {
    StartComponents,
    StopComponents,
    Report(StatusReport),
    Relay { data: Seq<u8>, subnet_id: u8 },
    Nothing,
    Exit { stop_components: bool },
}

impl View for ControlAction {
    type V = ControlActionView;

    open spec fn view(&self) -> ControlActionView {
        match self {
            ControlAction::StartComponents => ControlActionView::StartComponents,
            ControlAction::StopComponents => ControlActionView::StopComponents,
            ControlAction::Report(report) => ControlActionView::Report(*report),
            ControlAction::Relay { data, subnet_id } => ControlActionView::Relay {
                data: data@,
                subnet_id: *subnet_id,
            },
            ControlAction::Nothing => ControlActionView::Nothing,
            ControlAction::Exit { stop_components } => ControlActionView::Exit {
                stop_components: *stop_components,
            },
        }
    }
}

/// The slot of the main network at `now` seconds since the start of 1970: 0 before the chain
/// started.
pub open spec fn slot_at(now: u64) -> u64 {
    if now > MAINNET_GENESIS_TIME {
        ((now - MAINNET_GENESIS_TIME) / 12) as u64
    } else {
        0
    }
}

/// The supervisor's own state: whether the privacy path is on, and the figures it reports.
#[derive(Debug)]
pub struct Supervisor {
    stealth_enabled: bool,
    extra_subnets_per_epoch: usize,
    friend_nodes_count: usize,
    metrics_enabled: bool,
}

impl Supervisor {
    /// Whether the privacy path is on.
    pub closed spec fn enabled(&self) -> bool {
        self.stealth_enabled
    }

    /// The status that the supervisor reports at `now`.
    pub closed spec fn report_at(&self, now: u64) -> StatusReport {
        StatusReport {
            stealth_enabled: self.stealth_enabled,
            current_epoch: slot_at(now) / 32,
            current_slot: slot_at(now),
            extra_subnets_per_epoch: self.extra_subnets_per_epoch,
            friend_nodes_count: self.friend_nodes_count,
            metrics_enabled: self.metrics_enabled,
        }
    }

    /// What the supervisor does for `command` at `now`, and whether the privacy path is on
    /// afterwards.
    pub open spec fn decide(&self, command: SidecarCommand, now: u64) -> (ControlActionView, bool) {
        match command {
            SidecarCommand::EnableStealth => if self.enabled() {
                (ControlActionView::Nothing, true)
            } else {
                (ControlActionView::StartComponents, true)
            },
            SidecarCommand::DisableStealth => if self.enabled() {
                (ControlActionView::StopComponents, false)
            } else {
                (ControlActionView::Nothing, false)
            },
            SidecarCommand::GetStatus => (
                ControlActionView::Report(self.report_at(now)),
                self.enabled(),
            ),
            SidecarCommand::SendAttestation { validator_id, subnet_id, data } => if self.enabled() {
                (ControlActionView::Relay { data: data@, subnet_id }, true)
            } else {
                (ControlActionView::Nothing, false)
            },
            SidecarCommand::Shutdown => (
                ControlActionView::Exit { stop_components: self.enabled() },
                false,
            ),
        }
    }

    /// A supervisor with the privacy path off.
    pub fn new(
        extra_subnets_per_epoch: usize,
        friend_nodes_count: usize,
        metrics_enabled: bool,
    ) -> (supervisor: Self)
        ensures
            !supervisor.enabled(),
            forall|now: u64|
                supervisor.report_at(now) == (StatusReport {
                    stealth_enabled: false,
                    current_epoch: slot_at(now) / 32,
                    current_slot: slot_at(now),
                    extra_subnets_per_epoch,
                    friend_nodes_count,
                    metrics_enabled,
                }),
    {
        Supervisor {
            stealth_enabled: false,
            extra_subnets_per_epoch,
            friend_nodes_count,
            metrics_enabled,
        }
    }

    /// Whether the privacy path is on.
    pub fn is_enabled(&self) -> (enabled: bool)
        ensures
            enabled == self.enabled(),
    {
        self.stealth_enabled
    }

    /// The status at `now` seconds since the start of 1970.
    pub fn get_status(&self, now: u64) -> (report: StatusReport)
        ensures
            report == self.report_at(now),
    {
        let current_slot = if now > MAINNET_GENESIS_TIME {
            (now - MAINNET_GENESIS_TIME) / SECONDS_PER_SLOT
        } else {
            0
        };
        StatusReport {
            stealth_enabled: self.stealth_enabled,
            current_epoch: current_slot / SLOTS_PER_EPOCH,
            current_slot,
            extra_subnets_per_epoch: self.extra_subnets_per_epoch,
            friend_nodes_count: self.friend_nodes_count,
            metrics_enabled: self.metrics_enabled,
        }
    }

    /// Decides what is done for a control command at `now`.
    ///
    /// Enabling and disabling the privacy path take effect once: a repeated command changes
    /// nothing. An attestation is handed to the relay while the path is on, and takes the
    /// direct path of the beacon client otherwise.
    pub fn handle_control(&mut self, command: SidecarCommand, now: u64) -> (action: ControlAction)
        ensures
            action@ == old(self).decide(command, now).0,
            final(self).enabled() == old(self).decide(command, now).1,
            forall|t: u64|
                final(self).report_at(t) == (StatusReport {
                    stealth_enabled: final(self).enabled(),
                    ..old(self).report_at(t)
                }),
    {
        match command {
            SidecarCommand::EnableStealth => {
                if self.stealth_enabled {
                    ControlAction::Nothing
                } else {
                    self.stealth_enabled = true;
                    ControlAction::StartComponents
                }
            },
            SidecarCommand::DisableStealth => {
                if self.stealth_enabled {
                    self.stealth_enabled = false;
                    ControlAction::StopComponents
                } else {
                    ControlAction::Nothing
                }
            },
            SidecarCommand::GetStatus => ControlAction::Report(self.get_status(now)),
            SidecarCommand::SendAttestation { validator_id, subnet_id, data } => {
                if self.stealth_enabled {
                    ControlAction::Relay { data, subnet_id }
                } else {
                    ControlAction::Nothing
                }
            },
            SidecarCommand::Shutdown => {
                let stop_components = self.stealth_enabled;
                self.stealth_enabled = false;
                ControlAction::Exit { stop_components }
            },
        }
    }
}

} // verus!
