//! Shared data types: errors, epochs, subnet identifiers and configuration.

use crate::clock::{is_clock_reading, wall_clock_nanos, wall_clock_seconds, MAX_CLOCK_SECONDS};
use crate::prng::Prng;
use crate::text::{decimal_chars, decimal_string};
use vstd::prelude::*;
use vstd::string::*;

verus! {

/// Errors of the sidecar, by the part of the system that they come from.
#[derive(Debug)]
pub enum StealthError {
    /// Transport or peer-reachability problem.
    Network(String),
    /// An invariant of the configuration is violated.
    Config(String),
    /// A remote provider rejected a call or returned a malformed result.
    ProviderApi(String),
    /// Proof generation or verification failed, or the rate limit was violated.
    RlnProof(String),
    /// Subscribing to or unsubscribing from a subnet failed.
    SubnetManagement(String),
    /// A queue was closed or a task ended unexpectedly.
    Internal(String),
}

impl StealthError {
    /// The text that the error carries.
    pub open spec fn detail(self) -> Seq<char> {
        match self {
            StealthError::Network(m) => m@,
            StealthError::Config(m) => m@,
            StealthError::ProviderApi(m) => m@,
            StealthError::RlnProof(m) => m@,
            StealthError::SubnetManagement(m) => m@,
            StealthError::Internal(m) => m@,
        }
    }

    /// The words that introduce an error of this kind.
    pub open spec fn prefix(self) -> Seq<char> {
        match self {
            StealthError::Network(_) => "Network error: "@,
            StealthError::Config(_) => "Configuration error: "@,
            StealthError::ProviderApi(_) => "Provider API error: "@,
            StealthError::RlnProof(_) => "RLN proof error: "@,
            StealthError::SubnetManagement(_) => "Subnet management error: "@,
            StealthError::Internal(_) => "Internal error: "@,
        }
    }

    /// The error as one line of text: its kind, then its detail.
    pub fn message(&self) -> (text: String)
        ensures
            text@ == self.prefix() + self.detail(),
    {
        match self {
            StealthError::Network(m) => String::from_str("Network error: ").concat(m.as_str()),
            StealthError::Config(m) => String::from_str("Configuration error: ").concat(m.as_str()),
            StealthError::ProviderApi(m) => String::from_str("Provider API error: ").concat(
                m.as_str(),
            ),
            StealthError::RlnProof(m) => String::from_str("RLN proof error: ").concat(m.as_str()),
            StealthError::SubnetManagement(m) => String::from_str(
                "Subnet management error: ",
            ).concat(m.as_str()),
            StealthError::Internal(m) => String::from_str("Internal error: ").concat(m.as_str()),
        }
    }
}

/// Position of the beacon chain clock.
#[derive(Debug, Clone, Copy, PartialEq, Eq, Structural)]
pub struct EpochInfo {
    pub epoch: u64,
    pub slot: u64,
    pub slots_per_epoch: u64,
    pub seconds_per_slot: u64,
}

impl EpochInfo {
    /// Slots left until the next epoch starts, counting the current slot.
    pub open spec fn spec_slots_remaining(self) -> int {
        self.slots_per_epoch - (self.slot % self.slots_per_epoch)
    }

    /// Seconds from the start of the current slot to the next epoch boundary.
    pub open spec fn spec_seconds_until_next_epoch(self) -> int {
        self.spec_slots_remaining() * self.seconds_per_slot
    }

    /// Whether the record is consistent: slots have a length and `epoch` is the epoch of `slot`.
    pub open spec fn wf(self) -> bool {
        &&& self.slots_per_epoch > 0
        &&& self.epoch == self.slot / self.slots_per_epoch
    }

    /// Epoch that contains `slot`.
    pub fn epoch_from_slot(slot: u64, slots_per_epoch: u64) -> (epoch: u64)
        requires
            slots_per_epoch > 0,
        ensures
            epoch == slot / slots_per_epoch,
    {
        slot / slots_per_epoch
    }

    /// Slots remaining in the current epoch.
    pub fn slots_remaining_in_epoch(&self) -> (remaining: u64)
        requires
            self.slots_per_epoch > 0,
        ensures
            remaining == self.spec_slots_remaining(),
            1 <= remaining <= self.slots_per_epoch,
    {
        self.slots_per_epoch - (self.slot % self.slots_per_epoch)
    }

    /// Seconds until the next epoch boundary.
    pub fn seconds_until_next_epoch(&self) -> (seconds: u64)
        requires
            self.slots_per_epoch > 0,
            self.spec_seconds_until_next_epoch() <= u64::MAX,
        ensures
            seconds == self.spec_seconds_until_next_epoch(),
    {
        self.slots_remaining_in_epoch() * self.seconds_per_slot
    }

    /// Seconds until the next epoch boundary, or `None` where the product does not fit in 64 bits.
    pub fn checked_seconds_until_next_epoch(&self) -> (seconds: Option<u64>)
        ensures
            self.slots_per_epoch == 0 ==> seconds is None,
            self.slots_per_epoch > 0 && self.spec_seconds_until_next_epoch() <= u64::MAX
                ==> seconds == Some(self.spec_seconds_until_next_epoch() as u64),
            self.slots_per_epoch > 0 && self.spec_seconds_until_next_epoch() > u64::MAX
                ==> seconds is None,
    {
        if self.slots_per_epoch == 0 {
            None
        } else {
            self.slots_remaining_in_epoch().checked_mul(self.seconds_per_slot)
        }
    }
}

/// Number of attestation subnets.
pub const SUBNET_COUNT: u8 = 64;

/// Attestation subnet identifier, `0..=63`.
#[derive(Debug, Clone, Copy, PartialEq, Eq, Structural, Hash)]
pub struct SubnetId(pub u8);

impl SubnetId {
    /// Largest subnet identifier.
    pub const MAX_SUBNET_ID: u8 = 63;

    /// Whether the identifier names one of the 64 subnets.
    pub open spec fn is_valid(self) -> bool {
        self.0 <= 63
    }

    /// The message of the error that `new` gives for `id`.
    pub open spec fn invalid_message(id: u8) -> Seq<char> {
        "Invalid subnet ID: "@ + decimal_chars(id as nat) + ". Must be 0-63"@
    }

    /// The topic on which attestations of subnet `id` are gossiped under `fork_digest`.
    pub open spec fn topic_chars(fork_digest: Seq<char>, id: u8) -> Seq<char> {
        "/eth2/"@ + fork_digest + "/beacon_attestation_"@ + decimal_chars(id as nat)
            + "/ssz_snappy"@
    }

    /// Accepts `id` if it is at most 63 and refuses it with a configuration error otherwise.
    pub fn new(id: u8) -> (result: Result<SubnetId, StealthError>)
        ensures
            id <= 63 ==> result == Ok::<SubnetId, StealthError>(SubnetId(id)),
            id > 63 ==> (result matches Err(StealthError::Config(m)) && m@
                == Self::invalid_message(id)),
    {
        if id > Self::MAX_SUBNET_ID {
            let mut text = String::from_str("Invalid subnet ID: ");
            text.append(decimal_string(id as u64).as_str());
            text.append(". Must be 0-63");
            return Err(StealthError::Config(text));
        }
        Ok(SubnetId(id))
    }

    /// All 64 subnets, in ascending order.
    pub fn all_subnets() -> (all: Vec<SubnetId>)
        ensures
            all@.len() == 64,
            forall|i: int| 0 <= i < 64 ==> #[trigger] all@[i] == SubnetId(i as u8),
    {
        let mut all: Vec<SubnetId> = Vec::new();
        let mut id: u8 = 0;
        while id < 64
            invariant
                id <= 64,
                all@.len() == id,
                forall|i: int| 0 <= i < id ==> #[trigger] all@[i] == SubnetId(i as u8),
            decreases 64 - id,
        {
            all.push(SubnetId(id));
            id = id + 1;
        }
        all
    }

    /// The gossip topic of this subnet under the fork digest `fork_digest`, which the
    /// configuration supplies.
    pub fn as_topic_name(&self, fork_digest: &str) -> (topic: String)
        ensures
            topic@ == Self::topic_chars(fork_digest@, self.0),
    {
        let mut topic = String::from_str("/eth2/");
        topic.append(fork_digest);
        topic.append("/beacon_attestation_");
        topic.append(decimal_string(self.0 as u64).as_str());
        topic.append("/ssz_snappy");
        topic
    }
}

/// A validator and the subnets it is assigned to.
#[derive(Debug)]
pub struct ValidatorInfo {
    pub pubkey: String,
    pub validator_index: u64,
    pub assigned_subnets: Vec<SubnetId>,
    pub last_attestation_slot: Option<u64>,
}

/// A friend of the relay mesh.
#[derive(Debug)]
pub struct FriendNodeConfig {
    /// Stable identifier, unique within the set of friends.
    pub peer_id: String,
    /// Transport address, in multiaddr text form.
    pub multiaddr: String,
    /// Public key used to authenticate the friend.
    pub public_key: String,
}

impl Clone for FriendNodeConfig {
    fn clone(&self) -> (copy: Self)
        ensures
            copy == *self,
    {
        FriendNodeConfig {
            peer_id: self.peer_id.clone(),
            multiaddr: self.multiaddr.clone(),
            public_key: self.public_key.clone(),
        }
    }
}

/// Settings of the RLN and pub/sub provider.
#[derive(Debug)]
pub struct WakuConfig {
    /// RPC endpoint of the local provider node.
    pub nwaku_rpc_url: String,
    /// Address of the RLN membership contract, if any.
    pub rln_contract_address: Option<String>,
    /// Messages allowed per epoch.
    pub rate_limit_per_epoch: u32,
}

/// Settings of the metrics endpoint.
#[derive(Debug)]
pub struct MetricsConfig {
    pub enabled: bool,
    pub listen_address: String,
    pub listen_port: u16,
}

/// Settings of the node's own networking.
#[derive(Debug)]
pub struct NetworkConfig {
    pub listen_port: u16,
    pub external_ip: Option<String>,
}

/// Where the mandatory subnets of the validator come from.
#[derive(Debug)]
pub enum MandatorySubnetSource {
    /// Ask the networking provider for the subnets of this validator at every epoch.
    ValidatorPubkey(String),
    /// Use this fixed list.
    Static(Vec<SubnetId>),
}

/// Configuration of the sidecar.
#[derive(Debug)]
pub struct StealthConfig {
    /// HTTP endpoint of the beacon node.
    pub lighthouse_http_api: String,
    /// Number of extra subnets to join per epoch.
    pub extra_subnets_per_epoch: usize,
    /// Friends of the relay mesh.
    pub friend_nodes: Vec<FriendNodeConfig>,
    /// Provider settings.
    pub waku_config: WakuConfig,
    /// Metrics settings.
    pub metrics: MetricsConfig,
    /// Networking settings.
    pub network: NetworkConfig,
    /// Fork digest used in attestation topic names.
    pub fork_digest: String,
    /// Source of the mandatory subnets.
    pub mandatory_subnet_source: MandatorySubnetSource,
}

/// Largest accepted number of extra subnets per epoch.
pub const MAX_EXTRA_SUBNETS: usize = 32;

/// Smallest accepted number of friends.
pub const MIN_FRIENDS: usize = 3;

impl Default for StealthConfig {
    fn default() -> (config: Self)
        ensures
            config.lighthouse_http_api@ == "http://localhost:5052"@,
            config.extra_subnets_per_epoch == 8,
            config.friend_nodes@.len() == 0,
            config.waku_config.nwaku_rpc_url@ == "http://localhost:8545"@,
            config.waku_config.rln_contract_address is None,
            config.waku_config.rate_limit_per_epoch == 100,
            config.metrics.enabled,
            config.metrics.listen_address@ == "127.0.0.1"@,
            config.metrics.listen_port == 9090,
            config.network.listen_port == 9000,
            config.network.external_ip is None,
            config.fork_digest@ == "7a7b8b7f"@,
            config.mandatory_subnet_source matches MandatorySubnetSource::ValidatorPubkey(key)
                && key@ == "0x1234567890abcdef"@,
    {
        StealthConfig {
            lighthouse_http_api: String::from_str("http://localhost:5052"),
            extra_subnets_per_epoch: 8,
            friend_nodes: Vec::new(),
            waku_config: WakuConfig {
                nwaku_rpc_url: String::from_str("http://localhost:8545"),
                rln_contract_address: None,
                rate_limit_per_epoch: 100,
            },
            metrics: MetricsConfig {
                enabled: true,
                listen_address: String::from_str("127.0.0.1"),
                listen_port: 9090,
            },
            network: NetworkConfig { listen_port: 9000, external_ip: None },
            fork_digest: String::from_str("7a7b8b7f"),
            mandatory_subnet_source: MandatorySubnetSource::ValidatorPubkey(
                String::from_str("0x1234567890abcdef"),
            ),
        }
    }
}

/// The time of the next epoch boundary for a clock that reads `now`, in the unit of seconds.
pub open spec fn boundary_after(info: EpochInfo, now: i64) -> int {
    now + info.spec_seconds_until_next_epoch()
}

/// The time of the next epoch boundary for a clock that reads `now`, where there is one:
/// there is none where an epoch has no slots or where the time does not fit in 64 bits.
pub open spec fn boundary_if_any(info: EpochInfo, now: i64) -> Option<i64> {
    if info.slots_per_epoch > 0 && boundary_after(info, now) <= i64::MAX {
        Some(boundary_after(info, now) as i64)
    } else {
        None
    }
}

/// The time of the next epoch boundary, in seconds since the start of 1970, for a clock that
/// reads `now`. There is none where slots have no length or where the time does not fit in
/// 64 bits.
pub fn next_epoch_boundary_at(current_epoch_info: &EpochInfo, now: i64) -> (boundary: Option<i64>)
    ensures
        boundary == boundary_if_any(*current_epoch_info, now),
        current_epoch_info.slots_per_epoch > 0 && boundary_after(*current_epoch_info, now)
            <= i64::MAX ==> boundary == Some(boundary_after(*current_epoch_info, now) as i64),
        current_epoch_info.slots_per_epoch == 0 || boundary_after(*current_epoch_info, now)
            > i64::MAX ==> boundary is None,
{
    match current_epoch_info.checked_seconds_until_next_epoch() {
        Some(seconds) => {
            let at: i128 = now as i128 + seconds as i128;
            if at > i64::MAX as i128 {
                None
            } else {
                Some(at as i64)
            }
        },
        None => None,
    }
}

/// The seconds to wait at `now` for the time `boundary`: the time that is left, and one
/// second where the boundary is reached or passed, so that a timer set to it always waits.
pub open spec fn wait_until(boundary: i64, now: i64) -> int {
    if boundary - now < 1 {
        1
    } else {
        boundary - now
    }
}

/// The seconds for which a timer has to wait at `now` to ring at `boundary`.
pub fn seconds_to_wait(boundary: i64, now: i64) -> (wait: u64)
    ensures
        wait == wait_until(boundary, now),
{
    let left: i128 = boundary as i128 - now as i128;
    if left < 1 {
        1
    } else {
        left as u64
    }
}

/// The time of the next epoch boundary by the wall clock, in seconds since the start of 1970:
/// what `next_epoch_boundary_at` gives for the reading of the clock.
///
/// There is a boundary whenever an epoch has slots and the rest of the epoch, added to the
/// latest time that the clock can tell, fits in 64 bits.
pub fn next_epoch_boundary(current_epoch_info: &EpochInfo) -> (boundary: Option<i64>)
    ensures
        exists|now: i64|
            is_clock_reading(now) && boundary == #[trigger] boundary_if_any(
                *current_epoch_info,
                now,
            ),
        current_epoch_info.slots_per_epoch == 0 ==> boundary is None,
        current_epoch_info.slots_per_epoch > 0
            && current_epoch_info.spec_seconds_until_next_epoch() + MAX_CLOCK_SECONDS
            <= i64::MAX ==> boundary is Some,
{
    let now = wall_clock_seconds();
    let boundary = next_epoch_boundary_at(current_epoch_info, now);
    assert(boundary == boundary_if_any(*current_epoch_info, now));
    boundary
}

/// The first `count` subnets of a random order of all 64.
pub fn random_subnet_selection_with(count: usize, rng: &mut Prng) -> (chosen: Vec<SubnetId>)
    ensures
        chosen@.len() == if count <= 64 {
            count as int
        } else {
            64
        },
        chosen@.no_duplicates(),
        all_valid(chosen@),
{
    let mut all = SubnetId::all_subnets();
    let ghost start = all@;
    proof {
        assert(start.no_duplicates());
        assert(all_valid(start));
    }
    rng.shuffle(&mut all);
    let ghost shuffled = all@;
    proof {
        crate::prng::lemma_permutation(start, shuffled);
        assert forall|i: int| 0 <= i < shuffled.len() implies (#[trigger] shuffled[i]).is_valid() by {
            assert(shuffled.contains(shuffled[i]));
            let k = choose|k: int| 0 <= k < start.len() && start[k] == shuffled[i];
            assert(start[k].is_valid());
        }
    }
    all.truncate(count);
    proof {
        assert forall|i: int, j: int| 0 <= i < all@.len() && 0 <= j < all@.len() && i
            != j implies all@[i] != all@[j] by {
            assert(all@[i] == shuffled[i]);
            assert(all@[j] == shuffled[j]);
        }
        assert forall|i: int| 0 <= i < all@.len() implies (#[trigger] all@[i]).is_valid() by {
            assert(all@[i] == shuffled[i]);
        }
    }
    all
}

/// A random selection of `count` subnets, or of all 64 where `count` is larger: distinct
/// subnets, made with a generator that the operating system seeds, or that the wall clock
/// seeds where the system has no entropy to give.
pub fn random_subnet_selection(count: usize) -> (chosen: Vec<SubnetId>)
    ensures
        chosen@.len() == if count <= 64 {
            count as int
        } else {
            64
        },
        chosen@.no_duplicates(),
        all_valid(chosen@),
{
    let mut rng = match Prng::from_os() {
        Some(rng) => rng,
        None => {
            let stamp = wall_clock_nanos();
            Prng::from_seed(
                if stamp < 0 {
                    0
                } else {
                    stamp as u64
                },
            )
        },
    };
    random_subnet_selection_with(count, &mut rng)
}

/// Whether every subnet of `subnets` is one of the 64.
pub open spec fn all_valid(subnets: Seq<SubnetId>) -> bool {
    forall|i: int| 0 <= i < subnets.len() ==> (#[trigger] subnets[i]).is_valid()
}

/// Whether a static list of mandatory subnets, if the configuration has one, names valid subnets only.
pub open spec fn static_subnets_valid(source: MandatorySubnetSource) -> bool {
    match source {
        MandatorySubnetSource::ValidatorPubkey(_) => true,
        MandatorySubnetSource::Static(list) => all_valid(list@),
    }
}

/// What `validate_config` answers for a configuration: nothing where it is accepted,
/// and else the message of the first rule that it breaks.
pub open spec fn config_fault(config: StealthConfig) -> Option<Seq<char>> {
    if config.extra_subnets_per_epoch > 32 {
        Some("Too many extra subnets per epoch. Maximum is 32."@)
    } else if config.friend_nodes@.len() < 3 {
        Some("At least 3 friend nodes required for k-anonymity."@)
    } else if !static_subnets_valid(config.mandatory_subnet_source) {
        Some("Mandatory subnet IDs must be 0-63."@)
    } else {
        None
    }
}

/// Checks that every subnet of `subnets` is valid.
pub fn check_all_valid(subnets: &Vec<SubnetId>) -> (ok: bool)
    ensures
        ok == all_valid(subnets@),
{
    let mut i: usize = 0;
    while i < subnets.len()
        invariant
            i <= subnets.len(),
            forall|j: int| 0 <= j < i ==> (#[trigger] subnets@[j]).is_valid(),
        decreases subnets.len() - i,
    {
        if subnets[i].0 > 63 {
            return false;
        }
        i = i + 1;
    }
    true
}

/// Accepts a configuration with at most 32 extra subnets per epoch, at least 3 friends and,
/// where the mandatory subnets are a fixed list, valid subnets in it. Rejects any other with a
/// configuration error that names the first broken rule.
pub fn validate_config(config: &StealthConfig) -> (result: Result<(), StealthError>)
    ensures
        config_fault(*config) is None ==> result is Ok,
        config_fault(*config) matches Some(text) ==> (result matches Err(StealthError::Config(m))
            && m@ == text),
{
    if config.extra_subnets_per_epoch > MAX_EXTRA_SUBNETS {
        return Err(
            StealthError::Config(
                String::from_str("Too many extra subnets per epoch. Maximum is 32."),
            ),
        );
    }
    if config.friend_nodes.len() < MIN_FRIENDS {
        return Err(
            StealthError::Config(
                String::from_str("At least 3 friend nodes required for k-anonymity."),
            ),
        );
    }
    let static_ok = match &config.mandatory_subnet_source {
        MandatorySubnetSource::ValidatorPubkey(_) => true,
        MandatorySubnetSource::Static(list) => check_all_valid(list),
    };
    if !static_ok {
        return Err(StealthError::Config(String::from_str("Mandatory subnet IDs must be 0-63.")));
    }
    Ok(())
}

} // verus!
