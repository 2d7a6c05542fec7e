//! Subscribers and the records that hold them in a key/value store.

use crate::encoding::{
    big_endian, lemma_digits_of_value, lemma_eight_digits, lemma_radix_power_eight, little_endian,
    little_endian_value, to_big_endian,
};
use vstd::prelude::*;

verus! {

/// A channel that receives the weekly notification, and the role to mention
/// there, if any.
#[derive(Clone, Copy, Debug, PartialEq, Eq, Structural)]
pub struct Subscriber {
    pub channel_id: u64,
    pub role_id: Option<u64>,
}

/// Why a record could not be written or read back.
#[derive(Clone, Copy, Debug, PartialEq, Eq, Structural)]
pub enum StoreError {
    /// The encoder refused the subscriber. It takes every subscriber, so no
    /// call of this library ends in this.
    EncodeFailed,
    /// The stored bytes are not a subscriber's record.
    MalformedRecord,
}

/// The key under which a channel's record is stored: the channel's
/// identifier as eight bytes, most significant first.
pub open spec fn key_of(channel_id: u64) -> Seq<u8> {
    big_endian(channel_id as nat, 8)
}

/// The value stored for a subscriber: the channel's identifier as eight
/// bytes, least significant first; then one byte, 0 where there is no role
/// and 1 where there is one; then, where there is one, the role's identifier
/// as eight bytes, least significant first.
pub open spec fn encoded(channel_id: u64, role_id: Option<u64>) -> Seq<u8> {
    little_endian(channel_id as nat, 8) + match role_id {
        None => seq![0u8],
        Some(role) => seq![1u8] + little_endian(role as nat, 8),
    }
}

/// The pair that `bytes` begin with, if they begin with one. Bytes after the
/// pair are not looked at.
pub open spec fn decoded(bytes: Seq<u8>) -> Option<(u64, Option<u64>)> {
    if bytes.len() >= 9 && bytes[8] == 0 {
        Some((little_endian_value(bytes.subrange(0, 8)) as u64, None))
    } else if bytes.len() >= 17 && bytes[8] == 1 {
        Some(
            (
                little_endian_value(bytes.subrange(0, 8)) as u64,
                Some(little_endian_value(bytes.subrange(9, 17)) as u64),
            ),
        )
    } else {
        None
    }
}

/// `bincode`'s error. It is handed on unread: nothing is known of what it
/// holds.
#[verifier::external_type_specification]
#[verifier::external_body]
pub struct ExErrorKind(bincode::ErrorKind);

/// `bincode::serialize` on a pair of a `u64` and an `Option<u64>`. With the
/// options that this function fixes (integers at their full width, least
/// significant byte first; no length limit), a `u64` is written as its eight
/// bytes, an `Option` as a byte 0, or as a byte 1 and then its value, and a
/// tuple as its fields one after the other. The call succeeds on every pair:
/// no limit is there to be passed, and all that is written goes into a `Vec`.
#[verifier::external_body]
fn serialize_pair(pair: &(u64, Option<u64>)) -> (bytes: Result<Vec<u8>, Box<bincode::ErrorKind>>)
    ensures
        bytes is Ok,
        bytes matches Ok(written) ==> written@ == encoded(pair.0, pair.1),
{
    bincode::serialize(pair)
}

/// `bincode::deserialize` to a pair of a `u64` and an `Option<u64>`. It
/// reads what `serialize_pair` writes, leaves bytes after the pair unread,
/// and fails where the input ends too early or the `Option`'s byte is
/// neither 0 nor 1.
#[verifier::external_body]
fn deserialize_pair(bytes: &[u8]) -> (pair: Result<(u64, Option<u64>), Box<bincode::ErrorKind>>)
    ensures
        match pair {
            Ok(read) => decoded(bytes@) == Some(read),
            Err(_) => decoded(bytes@) is None,
        },
{
    bincode::deserialize(bytes)
}

impl From<(u64, Option<u64>)> for Subscriber {
    fn from(tuple: (u64, Option<u64>)) -> (subscriber: Self) {
        Subscriber { channel_id: tuple.0, role_id: tuple.1 }
    }
}

impl vstd::std_specs::convert::FromSpecImpl<(u64, Option<u64>)> for Subscriber {
    open spec fn obeys_from_spec() -> bool {
        true
    }

    open spec fn from_spec(tuple: (u64, Option<u64>)) -> Subscriber {
        Subscriber::of_pair(tuple)
    }
}

impl From<Subscriber> for (u64, Option<u64>) {
    fn from(sub: Subscriber) -> (tuple: Self) {
        (sub.channel_id, sub.role_id)
    }
}

impl vstd::std_specs::convert::FromSpecImpl<Subscriber> for (u64, Option<u64>) {
    open spec fn obeys_from_spec() -> bool {
        true
    }

    open spec fn from_spec(sub: Subscriber) -> (u64, Option<u64>) {
        sub.pair()
    }
}

impl Subscriber {
    /// The subscriber as the pair that its record holds.
    pub open spec fn pair(self) -> (u64, Option<u64>) {
        (self.channel_id, self.role_id)
    }

    /// The subscriber that a record's pair stands for.
    pub open spec fn of_pair(pair: (u64, Option<u64>)) -> Subscriber {
        Subscriber { channel_id: pair.0, role_id: pair.1 }
    }

    /// The bytes of this subscriber's record.
    pub open spec fn record(self) -> Seq<u8> {
        encoded(self.channel_id, self.role_id)
    }

    /// The subscriber whose record `bytes` begin with, if there is one.
    pub open spec fn parse(bytes: Seq<u8>) -> Option<Subscriber> {
        match decoded(bytes) {
            Some(pair) => Some(Subscriber::of_pair(pair)),
            None => None,
        }
    }

    /// Writes the subscriber's record. Every subscriber has one.
    pub fn encode(&self) -> (bytes: Result<Vec<u8>, StoreError>)
        ensures
            bytes matches Ok(written) && written@ == self.record(),
    {
        let pair = <(u64, Option<u64>)>::from(*self);
        match serialize_pair(&pair) {
            Ok(written) => Ok(written),
            Err(_) => Err(StoreError::EncodeFailed),
        }
    }

    /// Reads a subscriber's record.
    pub fn decode(bytes: &[u8]) -> (subscriber: Result<Subscriber, StoreError>)
        ensures
            match subscriber {
                Ok(read) => Subscriber::parse(bytes@) == Some(read),
                Err(e) => e == StoreError::MalformedRecord && Subscriber::parse(bytes@) is None,
            },
    {
        match deserialize_pair(bytes) {
            Ok(pair) => Ok(Subscriber::from(pair)),
            Err(_) => Err(StoreError::MalformedRecord),
        }
    }
}

/// The key of a channel's record.
pub fn channel_id_to_bytes(channel_id: u64) -> (key: [u8; 8])
    ensures
        key@ == key_of(channel_id),
{
    to_big_endian(channel_id)
}

/// Reading a subscriber's record gives the subscriber back, with or without
/// a role, whatever bytes follow the record.
pub proof fn lemma_record_round_trip(subscriber: Subscriber, trailing: Seq<u8>)
    ensures
        Subscriber::parse(subscriber.record()) == Some(subscriber),
        Subscriber::parse(subscriber.record() + trailing) == Some(subscriber),
{
    let channel = little_endian(subscriber.channel_id as nat, 8);
    lemma_eight_digits(subscriber.channel_id);
    let record = subscriber.record();
    let longer = record + trailing;
    assert(record.subrange(0, 8) =~= channel);
    assert(longer.subrange(0, 8) =~= channel);
    match subscriber.role_id {
        None => {
            assert(record[8] == 0);
            assert(longer[8] == 0);
        },
        Some(role) => {
            lemma_eight_digits(role);
            assert(record[8] == 1);
            assert(longer[8] == 1);
            assert(record.subrange(9, 17) =~= little_endian(role as nat, 8));
            assert(longer.subrange(9, 17) =~= little_endian(role as nat, 8));
        },
    }
}

/// Bytes that read as a subscriber begin with that subscriber's record: no
/// two different records of one length read as the same subscriber.
pub proof fn lemma_record_is_what_was_read(bytes: Seq<u8>)
    requires
        Subscriber::parse(bytes) is Some,
    ensures
        Subscriber::parse(bytes)->0.record().len() <= bytes.len(),
        Subscriber::parse(bytes)->0.record() == bytes.subrange(
            0,
            Subscriber::parse(bytes)->0.record().len() as int,
        ),
{
    let subscriber = Subscriber::parse(bytes)->0;
    let channel = bytes.subrange(0, 8);
    lemma_radix_power_eight();
    lemma_digits_of_value(channel);
    lemma_eight_digits(subscriber.channel_id);
    match subscriber.role_id {
        None => {
            assert(subscriber.record() =~= bytes.subrange(0, 9));
        },
        Some(role) => {
            let role_bytes = bytes.subrange(9, 17);
            lemma_digits_of_value(role_bytes);
            lemma_eight_digits(role);
            assert(subscriber.record() =~= bytes.subrange(0, 17));
        },
    }
}

/// Two channels share a key only if they are the same channel.
pub proof fn lemma_key_is_injective(a: u64, b: u64)
    ensures
        key_of(a) == key_of(b) <==> a == b,
        key_of(a).len() == 8,
{
    lemma_eight_digits(a);
    lemma_eight_digits(b);
}

} // verus!
