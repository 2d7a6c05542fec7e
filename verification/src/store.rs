//! The registry of subscribers as entries of a key/value store: what to
//! write for a subscriber, what a removal or a scan of the store yields, and
//! what holds of a store that is only ever changed by these writes and
//! removals.
//!
//! The store itself is the caller's. It hands over the bytes it read and
//! takes the bytes to write.

use crate::subscriptions::{
    channel_id_to_bytes, key_of, lemma_key_is_injective, lemma_record_round_trip, StoreError,
    Subscriber,
};
use vstd::prelude::*;

verus! {

/// One entry of the store.
#[derive(Debug)]
pub struct Record {
    pub key: [u8; 8],
    pub value: Vec<u8>,
}

/// The entry that subscribes a channel. Written over whatever the store
/// holds under its key, it makes this subscriber the channel's only one.
pub fn record_of(subscriber: &Subscriber) -> (record: Result<Record, StoreError>)
    ensures
        record matches Ok(entry) && entry.key@ == key_of(subscriber.channel_id) && entry.value@
            == subscriber.record(),
{
    match subscriber.encode() {
        Ok(value) => Ok(Record { key: channel_id_to_bytes(subscriber.channel_id), value }),
        Err(e) => Err(e),
    }
}

/// What removing a channel's entry reports, given the value that the store
/// held under the channel's key.
pub open spec fn removal_report(prior: Option<Seq<u8>>) -> Result<Option<Subscriber>, StoreError> {
    match prior {
        None => Ok(None),
        Some(value) => match Subscriber::parse(value) {
            Some(subscriber) => Ok(Some(subscriber)),
            None => Err(StoreError::MalformedRecord),
        },
    }
}

/// The subscriber that a removal took out of the store, from the value that
/// the store held under the channel's key: none where it held nothing.
pub fn removed_subscriber(prior: Option<Vec<u8>>) -> (report: Result<
    Option<Subscriber>,
    StoreError,
>)
    ensures
        report == removal_report(prior.deep_view()),
{
    match prior {
        None => Ok(None),
        Some(value) => {
            assert(value.deep_view() =~= value@);
            match Subscriber::decode(value.as_slice()) {
                Ok(subscriber) => Ok(Some(subscriber)),
                Err(e) => Err(e),
            }
        },
    }
}

/// The subscribers that a pass over the store yields, in the order of the
/// pass. An item is the value of one entry, or nothing where the entry could
/// not be read. Items that could not be read, and values that are no
/// subscriber's record, are left out; the others all appear.
pub open spec fn scanned(items: Seq<Option<Seq<u8>>>) -> Seq<Subscriber>
    decreases items.len(),
{
    if items.len() == 0 {
        Seq::empty()
    } else {
        let earlier = scanned(items.drop_last());
        match items.last() {
            Some(value) => match Subscriber::parse(value) {
                Some(subscriber) => earlier.push(subscriber),
                None => earlier,
            },
            None => earlier,
        }
    }
}

/// The subscribers among the items of one pass over the store.
pub fn scan(items: &Vec<Option<Vec<u8>>>) -> (subscribers: Vec<Subscriber>)
    ensures
        subscribers@ == scanned(items.deep_view()),
{
    let mut subscribers: Vec<Subscriber> = Vec::new();
    let ghost all = items.deep_view();
    let mut i: usize = 0;
    while i < items.len()
        invariant
            i <= items.len(),
            all == items.deep_view(),
            subscribers@ == scanned(all.take(i as int)),
        decreases items.len() - i,
    {
        proof {
            assert(all.take(i + 1).drop_last() =~= all.take(i as int));
            assert(all.take(i + 1).last() == items[i as int].deep_view());
        }
        match &items[i] {
            Some(value) => {
                assert(value.deep_view() =~= value@);
                match Subscriber::decode(value.as_slice()) {
                    Ok(subscriber) => {
                        subscribers.push(subscriber);
                    },
                    Err(_) => {},
                }
            },
            None => {},
        }
        i = i + 1;
    }
    assert(all.take(items.len() as int) =~= all);
    subscribers
}

/// A pass cut in two yields what its two parts yield, one after the other.
pub proof fn lemma_scanned_in_parts(first: Seq<Option<Seq<u8>>>, second: Seq<Option<Seq<u8>>>)
    ensures
        scanned(first + second) == scanned(first) + scanned(second),
    decreases second.len(),
{
    if second.len() == 0 {
        assert(first + second =~= first);
        assert(scanned(first) + scanned(second) =~= scanned(first));
    } else {
        lemma_scanned_in_parts(first, second.drop_last());
        assert((first + second).drop_last() =~= first + second.drop_last());
        assert((first + second).last() == second.last());
        assert(scanned(first + second) =~= scanned(first) + scanned(second));
    }
}

/// An item that cannot be read, or whose value is no subscriber's record,
/// takes nothing away from a pass: the pass yields what it would yield
/// without the item.
pub proof fn lemma_scan_skips_what_it_cannot_read(
    before: Seq<Option<Seq<u8>>>,
    item: Option<Seq<u8>>,
    after: Seq<Option<Seq<u8>>>,
)
    requires
        item matches Some(value) ==> Subscriber::parse(value) is None,
    ensures
        scanned(before + seq![item] + after) == scanned(before + after),
{
    lemma_scanned_in_parts(before + seq![item], after);
    lemma_scanned_in_parts(before, after);
    assert((before + seq![item]).drop_last() =~= before);
    assert((before + seq![item]).last() == item);
}

/// Every record among the items of a pass is among the subscribers that the
/// pass yields.
pub proof fn lemma_scan_yields_every_record(items: Seq<Option<Seq<u8>>>, i: int)
    requires
        0 <= i < items.len(),
        items[i] matches Some(value) && Subscriber::parse(value) is Some,
    ensures
        scanned(items).contains(Subscriber::parse(items[i]->0)->0),
    decreases items.len(),
{
    let subscriber = Subscriber::parse(items[i]->0)->0;
    let earlier = scanned(items.drop_last());
    if i == items.len() - 1 {
        assert(scanned(items) == earlier.push(subscriber));
        assert(scanned(items)[earlier.len() as int] == subscriber);
    } else {
        lemma_scan_yields_every_record(items.drop_last(), i);
        let at = choose|at: int| 0 <= at < earlier.len() && earlier[at] == subscriber;
        assert(scanned(items)[at] == subscriber);
    }
}

/// Every subscriber that a pass yields is the record of one of its items.
pub proof fn lemma_scan_yields_only_records(items: Seq<Option<Seq<u8>>>, at: int) -> (i: int)
    requires
        0 <= at < scanned(items).len(),
    ensures
        0 <= i < items.len(),
        items[i] matches Some(value) && Subscriber::parse(value) == Some(scanned(items)[at]),
    decreases items.len(),
{
    let earlier = scanned(items.drop_last());
    if at < earlier.len() {
        lemma_scan_yields_only_records(items.drop_last(), at)
    } else {
        items.len() - 1
    }
}

/// A store, as the values it holds by key, is well keyed where every
/// subscriber's record in it sits under the key of the subscriber's own
/// channel. An empty store is, and writes of `record_of`'s entries and
/// removals by `channel_id_to_bytes`'s keys keep it so.
pub open spec fn well_keyed(held: Map<Seq<u8>, Seq<u8>>) -> bool {
    forall|key: Seq<u8>| #[trigger]
        held.contains_key(key) ==> (Subscriber::parse(held[key]) matches Some(subscriber)
            ==> key == key_of(subscriber.channel_id))
}

/// The store after the entry of `record_of` has been written to it.
pub open spec fn written(held: Map<Seq<u8>, Seq<u8>>, subscriber: Subscriber) -> Map<
    Seq<u8>,
    Seq<u8>,
> {
    held.insert(key_of(subscriber.channel_id), subscriber.record())
}

/// The store after the entry under a channel's key has been removed.
pub open spec fn cleared(held: Map<Seq<u8>, Seq<u8>>, channel_id: u64) -> Map<Seq<u8>, Seq<u8>> {
    held.remove(key_of(channel_id))
}

/// The value that the store holds under a channel's key, if it holds one.
pub open spec fn value_under(held: Map<Seq<u8>, Seq<u8>>, channel_id: u64) -> Option<Seq<u8>> {
    if held.contains_key(key_of(channel_id)) {
        Some(held[key_of(channel_id)])
    } else {
        None
    }
}

/// `items` are what one pass over the store read: item `i` is the value
/// under `keys[i]`, or nothing where that entry could not be read, and no
/// key comes twice.
pub open spec fn is_pass(
    held: Map<Seq<u8>, Seq<u8>>,
    keys: Seq<Seq<u8>>,
    items: Seq<Option<Seq<u8>>>,
) -> bool {
    &&& keys.len() == items.len()
    &&& keys.no_duplicates()
    &&& forall|i: int|
        0 <= i < keys.len() ==> held.contains_key(#[trigger] keys[i]) && (items[i] matches Some(
            value,
        ) ==> value == held[keys[i]])
}

/// Writing a subscriber's entry keeps the store well keyed, and changes
/// nothing under the keys of other channels.
pub proof fn lemma_write_keeps_well_keyed(held: Map<Seq<u8>, Seq<u8>>, subscriber: Subscriber)
    requires
        well_keyed(held),
    ensures
        well_keyed(written(held, subscriber)),
        forall|other: u64|
            other != subscriber.channel_id ==> #[trigger] value_under(
                written(held, subscriber),
                other,
            ) == value_under(held, other),
{
    lemma_record_round_trip(subscriber, Seq::empty());
    let after = written(held, subscriber);
    assert forall|key: Seq<u8>| #[trigger] after.contains_key(key) implies (Subscriber::parse(
        after[key],
    ) matches Some(found) ==> key == key_of(found.channel_id)) by {
        if key != key_of(subscriber.channel_id) {
            assert(held.contains_key(key));
        }
    }
    assert forall|other: u64| other != subscriber.channel_id implies #[trigger] value_under(
        after,
        other,
    ) == value_under(held, other) by {
        lemma_key_is_injective(other, subscriber.channel_id);
    }
}

/// Removing a channel's entry keeps the store well keyed, and changes
/// nothing under the keys of other channels.
pub proof fn lemma_removal_keeps_well_keyed(held: Map<Seq<u8>, Seq<u8>>, channel_id: u64)
    requires
        well_keyed(held),
    ensures
        well_keyed(cleared(held, channel_id)),
        forall|other: u64|
            other != channel_id ==> #[trigger] value_under(cleared(held, channel_id), other)
                == value_under(held, other),
{
    let after = cleared(held, channel_id);
    assert forall|key: Seq<u8>| #[trigger] after.contains_key(key) implies (Subscriber::parse(
        after[key],
    ) matches Some(found) ==> key == key_of(found.channel_id)) by {
        assert(held.contains_key(key));
    }
    assert forall|other: u64| other != channel_id implies #[trigger] value_under(after, other)
        == value_under(held, other) by {
        lemma_key_is_injective(other, channel_id);
    }
}

/// A subscriber that a pass over a well-keyed store yields is the one whose
/// record the store holds under the key of the subscriber's channel.
pub proof fn lemma_scan_yields_what_is_held(
    held: Map<Seq<u8>, Seq<u8>>,
    keys: Seq<Seq<u8>>,
    items: Seq<Option<Seq<u8>>>,
    at: int,
) -> (i: int)
    requires
        well_keyed(held),
        is_pass(held, keys, items),
        0 <= at < scanned(items).len(),
    ensures
        0 <= i < keys.len(),
        keys[i] == key_of(scanned(items)[at].channel_id),
        items[i] matches Some(value) && Subscriber::parse(value) == Some(scanned(items)[at]),
        removal_report(value_under(held, scanned(items)[at].channel_id)) == Ok::<
            Option<Subscriber>,
            StoreError,
        >(Some(scanned(items)[at])),
{
    let i = lemma_scan_yields_only_records(items, at);
    assert(held.contains_key(keys[i]));
    i
}

/// A pass over a well-keyed store yields no two subscribers of one channel.
pub proof fn lemma_one_subscriber_per_channel(
    held: Map<Seq<u8>, Seq<u8>>,
    keys: Seq<Seq<u8>>,
    items: Seq<Option<Seq<u8>>>,
    a: int,
    b: int,
)
    requires
        well_keyed(held),
        is_pass(held, keys, items),
        0 <= a < b < scanned(items).len(),
    ensures
        scanned(items)[a].channel_id != scanned(items)[b].channel_id,
    decreases items.len(),
{
    let earlier = scanned(items.drop_last());
    let shorter_keys = keys.drop_last();
    assert(is_pass(held, shorter_keys, items.drop_last())) by {
        assert forall|i: int| 0 <= i < shorter_keys.len() implies held.contains_key(
            #[trigger] shorter_keys[i],
        ) && (items.drop_last()[i] matches Some(value) ==> value == held[shorter_keys[i]]) by {
            assert(shorter_keys[i] == keys[i]);
        }
    }
    if b < earlier.len() {
        lemma_one_subscriber_per_channel(held, shorter_keys, items.drop_last(), a, b);
    } else {
        let i = lemma_scan_yields_what_is_held(held, shorter_keys, items.drop_last(), a);
        let last = keys.len() - 1;
        assert(held.contains_key(keys[last]));
        assert(keys[i] == shorter_keys[i]);
        assert(keys[i] != keys[last]);
    }
}

/// Subscribing a channel and then removing it reports the subscriber that
/// was written, and leaves nothing under the channel's key.
pub proof fn lemma_write_then_remove(held: Map<Seq<u8>, Seq<u8>>, subscriber: Subscriber)
    ensures
        removal_report(value_under(written(held, subscriber), subscriber.channel_id)) == Ok::<
            Option<Subscriber>,
            StoreError,
        >(Some(subscriber)),
        value_under(cleared(written(held, subscriber), subscriber.channel_id), subscriber.channel_id)
            is None,
{
    lemma_record_round_trip(subscriber, Seq::empty());
}

/// Once a channel's entry has been removed from a well-keyed store, no pass
/// over the store yields a subscriber of that channel.
pub proof fn lemma_removed_channel_is_not_scanned(
    held: Map<Seq<u8>, Seq<u8>>,
    channel_id: u64,
    keys: Seq<Seq<u8>>,
    items: Seq<Option<Seq<u8>>>,
    at: int,
)
    requires
        well_keyed(held),
        is_pass(cleared(held, channel_id), keys, items),
        0 <= at < scanned(items).len(),
    ensures
        scanned(items)[at].channel_id != channel_id,
{
    let after = cleared(held, channel_id);
    lemma_removal_keeps_well_keyed(held, channel_id);
    let i = lemma_scan_yields_what_is_held(after, keys, items, at);
    assert(after.contains_key(keys[i]));
}

/// Of two subscriptions of one channel the second stands: the store is as if
/// the first had never been written, it holds the second subscriber's record
/// under the channel's key, and a removal reports the second subscriber.
pub proof fn lemma_second_write_wins(
    held: Map<Seq<u8>, Seq<u8>>,
    first: Subscriber,
    second: Subscriber,
)
    requires
        first.channel_id == second.channel_id,
    ensures
        written(written(held, first), second) == written(held, second),
        value_under(written(written(held, first), second), second.channel_id) == Some(
            second.record(),
        ),
        removal_report(value_under(written(written(held, first), second), second.channel_id))
            == Ok::<Option<Subscriber>, StoreError>(Some(second)),
{
    lemma_record_round_trip(second, Seq::empty());
    assert(written(written(held, first), second) =~= written(held, second));
}

} // verus!
