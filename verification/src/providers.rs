//! What the networking providers compute: the position of the beacon chain clock from a
//! reading of the wall clock or from the head slot that a node reports, and a provider that
//! needs nothing but the wall clock.

use crate::clock::{is_clock_reading, wall_clock_seconds, MAX_CLOCK_SECONDS};
use crate::common::{EpochInfo, StealthError, SubnetId};
use crate::subnet_juggler::NetworkingProvider;
use crate::text::{chars_of, parse_unsigned, parse_unsigned_range};
use vstd::prelude::*;
use vstd::string::*;

verus! {

/// Start of the beacon chain of the main network, in seconds since the start of 1970.
pub const MAINNET_GENESIS_TIME: u64 = 1606824023;

/// Length of a slot of the main network in seconds.
pub const SECONDS_PER_SLOT: u64 = 12;

/// Number of slots in an epoch of the main network.
pub const SLOTS_PER_EPOCH: u64 = 32;

/// The position of a beacon chain clock at `slot`, with the constants of the main network.
pub open spec fn mainnet_info(slot: u64) -> EpochInfo {
    EpochInfo { epoch: slot / 32, slot, slots_per_epoch: 32, seconds_per_slot: 12 }
}

/// The position of the beacon chain clock `now` seconds after the start of 1970, for a chain
/// that started at `genesis`. There is none before the chain started.
pub fn epoch_info_at(now: u64, genesis: u64) -> (result: Result<EpochInfo, StealthError>)
    ensures
        now < genesis ==> (result matches Err(StealthError::Config(m)) && m@
            == "Time before genesis"@),
        now >= genesis ==> result == Ok::<EpochInfo, StealthError>(
            mainnet_info(((now - genesis) / 12) as u64),
        ),
        result matches Ok(info) ==> info.wf(),
{
    if now < genesis {
        return Err(StealthError::Config(String::from_str("Time before genesis")));
    }
    let slot = (now - genesis) / SECONDS_PER_SLOT;
    Ok(
        EpochInfo {
            epoch: slot / SLOTS_PER_EPOCH,
            slot,
            slots_per_epoch: SLOTS_PER_EPOCH,
            seconds_per_slot: SECONDS_PER_SLOT,
        },
    )
}

/// Whether `result` is what a clock that reads `now` gives for the position of a chain that
/// started at `genesis`: the slot that began last, or the error that the chain has not
/// started.
pub open spec fn is_position_at(
    result: Result<EpochInfo, StealthError>,
    now: i64,
    genesis: u64,
) -> bool {
    if now < genesis {
        result matches Err(StealthError::Config(m)) && m@ == "Time before genesis"@
    } else {
        result == Ok::<EpochInfo, StealthError>(mainnet_info(((now - genesis) / 12) as u64))
    }
}

/// The position of the beacon chain clock at the head slot that a node reports as decimal
/// text. Text that is no number of 64 bits is an error of the provider.
pub fn epoch_info_from_head_slot(head_slot: &str) -> (result: Result<EpochInfo, StealthError>)
    ensures
        parse_unsigned(head_slot@, u64::MAX as nat) matches Some(slot) ==> result == Ok::<
            EpochInfo,
            StealthError,
        >(mainnet_info(slot as u64)),
        parse_unsigned(head_slot@, u64::MAX as nat) is None ==> (result matches Err(
            StealthError::ProviderApi(m),
        ) && m@ == "Invalid slot number"@),
{
    let chars = chars_of(head_slot);
    assert(chars@.subrange(0, chars@.len() as int) =~= head_slot@);
    match parse_unsigned_range(&chars, 0, chars.len(), u64::MAX) {
        Some(slot) => Ok(
            EpochInfo {
                epoch: slot / SLOTS_PER_EPOCH,
                slot,
                slots_per_epoch: SLOTS_PER_EPOCH,
                seconds_per_slot: SECONDS_PER_SLOT,
            },
        ),
        None => Err(StealthError::ProviderApi(String::from_str("Invalid slot number"))),
    }
}

/// A networking provider that tells the epoch by the wall clock and takes every subscription
/// without doing anything.
#[derive(Debug)]
pub struct SystemClockProvider {
    genesis_time: u64,
}

impl SystemClockProvider {
    /// The start of the chain that the provider counts from.
    pub closed spec fn genesis(&self) -> u64 {
        self.genesis_time
    }

    /// A provider for the main network.
    pub fn new() -> (provider: Self)
        ensures
            provider.genesis() == MAINNET_GENESIS_TIME,
    {
        SystemClockProvider { genesis_time: MAINNET_GENESIS_TIME }
    }

    /// A provider for a chain that started at `genesis_time`.
    pub fn with_genesis(genesis_time: u64) -> (provider: Self)
        ensures
            provider.genesis() == genesis_time,
    {
        SystemClockProvider { genesis_time }
    }

    /// The position of the beacon chain clock at `now`.
    pub fn epoch_info_at(&self, now: u64) -> (result: Result<EpochInfo, StealthError>)
        ensures
            now < self.genesis() ==> result is Err,
            now >= self.genesis() ==> result == Ok::<EpochInfo, StealthError>(
                mainnet_info(((now - self.genesis()) / 12) as u64),
            ),
    {
        epoch_info_at(now, self.genesis_time)
    }
}

impl NetworkingProvider for SystemClockProvider {
    fn subscribe_to_subnet(&self, subnet_id: SubnetId) -> (result: Result<(), StealthError>)
        ensures
            result is Ok,
    {
        Ok(())
    }

    fn unsubscribe_from_subnet(&self, subnet_id: SubnetId) -> (result: Result<(), StealthError>)
        ensures
            result is Ok,
    {
        Ok(())
    }

    /// The position of the beacon chain clock by the wall clock: the slot that began last,
    /// counted from the start of the chain, or an error where the clock reads a time before
    /// that start. A chain that starts later than the clock can tell has no position.
    fn get_current_epoch_info(&self) -> (result: Result<EpochInfo, StealthError>)
        ensures
            exists|now: i64|
                is_clock_reading(now) && #[trigger] is_position_at(result, now, self.genesis()),
            self.genesis() > MAX_CLOCK_SECONDS ==> result is Err,
            result matches Ok(info) ==> info.wf() && info.slots_per_epoch == 32
                && info.seconds_per_slot == 12,
    {
        let now = wall_clock_seconds();
        if now < 0 {
            let result = Err(StealthError::Config(String::from_str("Time before genesis")));
            assert(is_position_at(result, now, self.genesis()));
            return result;
        }
        let result = epoch_info_at(now as u64, self.genesis_time);
        assert(is_position_at(result, now, self.genesis()));
        result
    }

    fn get_validator_subnets(&self, validator_pubkey: &str) -> (result: Result<
        Vec<SubnetId>,
        StealthError,
    >)
        ensures
            result matches Ok(list) && list@ == seq![SubnetId(0), SubnetId(1)],
    {
        let mut list: Vec<SubnetId> = Vec::new();
        list.push(SubnetId(0));
        list.push(SubnetId(1));
        assert(list@ =~= seq![SubnetId(0), SubnetId(1)]);
        Ok(list)
    }
}

} // verus!
