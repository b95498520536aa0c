//! Reading the subnet out of the name of an attestation topic.
//!
//! A topic name has the form `/eth2/<fork digest>/beacon_attestation_<subnet>/...`: after the
//! prefix `/eth2/` comes the fork digest, up to the next `/`, and then a segment, again up to
//! the next `/`, that starts with `beacon_attestation_` and ends with the subnet in decimal.

use crate::common::SubnetId;
use crate::text::{
    chars_of, decimal_chars, find_slash, first_slash, lemma_decimal_chars_value, matches_at,
    parse_unsigned, parse_unsigned_range,
};
use vstd::prelude::*;
use vstd::string::*;

verus! {

/// The words with which every topic name starts.
pub open spec fn topic_prefix() -> Seq<char> {
    "/eth2/"@
}

/// The words with which the segment of an attestation topic starts.
pub open spec fn segment_prefix() -> Seq<char> {
    "beacon_attestation_"@
}

/// The words that are the segment of a block topic.
pub open spec fn block_segment() -> Seq<char> {
    "beacon_block"@
}

/// The segment of a topic name: what stands between the `/` that ends the fork digest and the
/// next `/`. A name without the prefix or without those two `/` has none.
pub open spec fn topic_segment(topic: Seq<char>) -> Option<Seq<char>> {
    if !topic_prefix().is_prefix_of(topic) {
        None
    } else {
        let fork_end = first_slash(topic, topic_prefix().len() as int);
        if fork_end >= topic.len() {
            None
        } else {
            let segment_end = first_slash(topic, fork_end + 1);
            if segment_end >= topic.len() {
                None
            } else {
                Some(topic.subrange(fork_end + 1, segment_end))
            }
        }
    }
}

/// The text that stands for the subnet in a topic name, if the name has the form of an
/// attestation topic.
pub open spec fn topic_number(topic: Seq<char>) -> Option<Seq<char>> {
    match topic_segment(topic) {
        Some(segment) => if segment_prefix().is_prefix_of(segment) {
            Some(segment.skip(segment_prefix().len() as int))
        } else {
            None
        },
        None => None,
    }
}

/// Whether a topic name is that of the block topic.
pub open spec fn is_block_topic(topic: Seq<char>) -> bool {
    topic_segment(topic) == Some(block_segment())
}

/// The number that a topic name gives for the subnet, if the name has the form of an
/// attestation topic and the number fits in a byte.
pub open spec fn topic_subnet(topic: Seq<char>) -> Option<u8> {
    match topic_number(topic) {
        Some(number) => match parse_unsigned(number, 255) {
            Some(value) => Some(value as u8),
            None => None,
        },
        None => None,
    }
}

/// The subnet that a topic name gives, if it is one of the 64.
pub open spec fn topic_subnet_id(topic: Seq<char>) -> Option<SubnetId> {
    match topic_subnet(topic) {
        Some(id) => if id <= 63 {
            Some(SubnetId(id))
        } else {
            None
        },
        None => None,
    }
}

/// Where the first `/` at or after `from` stands, given that none stands before `to` and one
/// stands at `to`.
pub proof fn lemma_first_slash(s: Seq<char>, from: int, to: int)
    requires
        0 <= from <= to < s.len(),
        forall|i: int| from <= i < to ==> s[i] != '/',
        s[to] == '/',
    ensures
        first_slash(s, from) == to,
    decreases to - from,
{
    if from < to {
        lemma_first_slash(s, from + 1, to);
    }
}

/// The name that is made for a subnet is read back as that subnet, whatever the fork digest,
/// as long as the digest holds no `/`.
pub proof fn lemma_topic_round_trip(fork_digest: Seq<char>, id: u8)
    requires
        !fork_digest.contains('/'),
    ensures
        topic_subnet(SubnetId::topic_chars(fork_digest, id)) == Some(id),
        id <= 63 ==> topic_subnet_id(SubnetId::topic_chars(fork_digest, id)) == Some(SubnetId(id)),
{
    reveal_strlit("/eth2/");
    reveal_strlit("/beacon_attestation_");
    reveal_strlit("beacon_attestation_");
    reveal_strlit("/ssz_snappy");
    lemma_decimal_chars_value(id as nat);
    let p = "/eth2/"@;
    let a = "/beacon_attestation_"@;
    let b = "beacon_attestation_"@;
    let digits = decimal_chars(id as nat);
    let tail = "/ssz_snappy"@;
    let topic = SubnetId::topic_chars(fork_digest, id);
    assert(topic =~= p + fork_digest + a + digits + tail);
    assert(p.len() == 6);
    assert(a.len() == 20);
    assert(b.len() == 19);
    assert(tail.len() == 11);
    let fork_end = 6 + fork_digest.len() as int;
    let segment_start = fork_end + 1;
    let segment_end = segment_start + 19 + digits.len() as int;
    assert(topic.len() == segment_end + 11);
    assert(p =~= topic.subrange(0, 6));
    assert(p.is_prefix_of(topic));
    assert forall|i: int| 6 <= i < fork_end implies topic[i] != '/' by {
        assert(topic[i] == fork_digest[i - 6]);
        assert(fork_digest.contains(fork_digest[i - 6]));
    }
    assert(topic[fork_end] == a[0]);
    lemma_first_slash(topic, 6, fork_end);
    assert forall|i: int| segment_start <= i < segment_end implies topic[i] != '/' by {
        if i < segment_start + 19 {
            assert(topic[i] == a[i - fork_end]);
            assert(a[i - fork_end] == b[i - segment_start]);
        } else {
            assert(topic[i] == digits[i - segment_start - 19]);
            assert(digits.contains(digits[i - segment_start - 19]));
        }
    }
    assert(topic[segment_end] == tail[0]);
    lemma_first_slash(topic, segment_start, segment_end);
    let segment = topic.subrange(segment_start, segment_end);
    assert(segment =~= b + digits);
    assert(b =~= segment.subrange(0, 19));
    assert(b.is_prefix_of(segment));
    assert(segment.skip(19) =~= digits);
    assert(topic_number(topic) == Some(digits));
}

/// Finds the segment of a topic name: where it starts and where it ends.
pub fn find_segment(chars: &Vec<char>) -> (bounds: Option<(usize, usize)>)
    ensures
        match bounds {
            Some((start, end)) => start <= end < chars@.len() && topic_segment(chars@) == Some(
                chars@.subrange(start as int, end as int),
            ),
            None => topic_segment(chars@) is None,
        },
{
    let prefix = chars_of("/eth2/");
    proof {
        assert(chars@.skip(0) =~= chars@);
    }
    if !matches_at(chars, 0, &prefix) {
        return None;
    }
    proof {
        assert(prefix@ == chars@.subrange(0, prefix@.len() as int));
    }
    let fork_end = find_slash(chars, prefix.len());
    if fork_end >= chars.len() {
        return None;
    }
    let segment_start = fork_end + 1;
    let segment_end = find_slash(chars, segment_start);
    if segment_end >= chars.len() {
        return None;
    }
    Some((segment_start, segment_end))
}

/// Whether `pattern` is the start of `chars[start..end]`.
fn segment_starts_with(chars: &Vec<char>, start: usize, end: usize, pattern: &Vec<char>) -> (found:
    bool)
    requires
        start <= end <= chars.len(),
    ensures
        found == pattern@.is_prefix_of(chars@.subrange(start as int, end as int)),
{
    let found = pattern.len() <= end - start && matches_at(chars, start, pattern);
    proof {
        let segment = chars@.subrange(start as int, end as int);
        let rest = chars@.skip(start as int);
        if pattern@.len() <= segment.len() {
            assert(rest.subrange(0, pattern@.len() as int) =~= segment.subrange(
                0,
                pattern@.len() as int,
            ));
        }
    }
    found
}

/// Reads the subnet out of a topic name. The number may be any that fits in a byte.
pub fn parse_subnet_from_topic(topic: &str) -> (subnet: Option<u8>)
    ensures
        subnet == topic_subnet(topic@),
{
    let chars = chars_of(topic);
    let marker = chars_of("beacon_attestation_");
    let (segment_start, segment_end) = match find_segment(&chars) {
        Some(bounds) => bounds,
        None => {
            return None;
        },
    };
    if !segment_starts_with(&chars, segment_start, segment_end, &marker) {
        return None;
    }
    let number_start = segment_start + marker.len();
    proof {
        let segment = chars@.subrange(segment_start as int, segment_end as int);
        assert(segment.skip(marker@.len() as int) =~= chars@.subrange(
            number_start as int,
            segment_end as int,
        ));
    }
    match parse_unsigned_range(&chars, number_start, segment_end, 255) {
        Some(value) => Some(value as u8),
        None => None,
    }
}

/// Tells whether a topic name is that of the block topic.
pub fn is_block_topic_name(topic: &str) -> (block: bool)
    ensures
        block == is_block_topic(topic@),
{
    let chars = chars_of(topic);
    let wanted = chars_of("beacon_block");
    match find_segment(&chars) {
        Some((start, end)) => {
            let same = end - start == wanted.len() && segment_starts_with(
                &chars,
                start,
                end,
                &wanted,
            );
            proof {
                let segment = chars@.subrange(start as int, end as int);
                if wanted@.is_prefix_of(segment) && segment.len() == wanted@.len() {
                    assert(segment =~= wanted@);
                }
            }
            same
        },
        None => false,
    }
}

/// Reads the subnet out of a topic name, if it is one of the 64.
pub fn extract_subnet_id_from_topic(topic: &str) -> (subnet: Option<SubnetId>)
    ensures
        subnet == topic_subnet_id(topic@),
{
    match parse_subnet_from_topic(topic) {
        Some(id) => if id <= 63 {
            Some(SubnetId(id))
        } else {
            None
        },
        None => None,
    }
}

} // verus!
