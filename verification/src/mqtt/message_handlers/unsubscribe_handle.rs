use vstd::prelude::*;
use crate::mqtt::broker_state::{Client, ClientView, Subscription, SubscriptionView};
use crate::mqtt::message_handlers::subscribe_handler::new_subscription;
use crate::mqtt::message_handlers::PacketError;
use crate::mqtt::message_reader::{field_chars, field_end, field_fits, read_uft_8_string_with_length_bytes};
use crate::mqtt::message_handlers::publish_handler::lemma_ascii_latin1;
use crate::mqtt::message_sender::read_u16_be;
use vstd::utf8::{encode_utf8, is_ascii_chars, is_ascii_chars_encode_utf8};

verus! {

/// The topic filters of an UNSUBSCRIBE from `index` up to `end`, each a
/// length-prefixed string; none when one runs past the buffer.
pub open spec fn unsubscribe_topics(buffer: Seq<u8>, index: int, end: int) -> Option<Seq<Seq<char>>>
    decreases (if index < end { end - index } else { 0 }),
{
    if index >= end {
        Some(Seq::empty())
    } else if !field_fits(buffer, index) {
        None
    } else {
        proof {
            assert(field_end(buffer, index) > index);
        }
        match unsubscribe_topics(buffer, field_end(buffer, index), end) {
            Some(rest) => Some(seq![field_chars(buffer, index)] + rest),
            None => None,
        }
    }
}

/// An UNSUBSCRIBE read: its topic filters (up to the end its remaining
/// length announces) and the byte at index 2 it keeps as its identifier.
/// None when the header is cut short, when the remaining length (254 or
/// more) overflows as a byte with the header added, or when a topic runs
/// past the buffer.
pub open spec fn unsubscribe_packet(buffer: Seq<u8>) -> Option<(Seq<Seq<char>>, u8)> {
    if buffer.len() < 3 || buffer[1] >= 254 {
        None
    } else {
        match unsubscribe_topics(buffer, 4, buffer[1] + 2) {
            Some(topics) => Some((topics, buffer[2])),
            None => None,
        }
    }
}

/// Reads the big-endian length stored at `index`.
pub fn get_length(buffer: &[u8], index: usize) -> (res: usize)
    requires
        index + 1 < buffer@.len(),
    ensures
        res == read_u16_be(buffer@, index as int),
{
    buffer[index] as usize * 256 + buffer[index + 1] as usize
}

/// Reads an UNSUBSCRIBE: its topic filters and its identifier byte.
pub fn read_unsubscribe_buffer(buffer: &[u8]) -> (res: Option<(Vec<String>, u8)>)
    ensures
        match unsubscribe_packet(buffer@) {
            Some((topics, id)) => res matches Some((v, i)) && v@.map_values(|s: String| s@) == topics && i == id,
            None => res is None,
        },
{
    if buffer.len() < 3 {
        return None;
    }
    let mut topic_to_unsunscribe_from: Vec<String> = Vec::new();
    let mut reader_index: usize = 1;
    let remaining_length = buffer[reader_index];
    if remaining_length >= 254 {
        return None;
    }
    reader_index = reader_index + 1;
    let package_identifier = buffer[reader_index];
    reader_index = reader_index + 2;
    let end = (remaining_length + 2) as usize;
    let ghost b = buffer@;
    while reader_index < end
        invariant
            b == buffer@,
            4 <= reader_index <= buffer@.len() + 1,
            end == b[1] + 2,
            unsubscribe_topics(b, 4, end as int) == match unsubscribe_topics(b, reader_index as int, end as int) {
                Some(rest) => Some(topic_to_unsunscribe_from@.map_values(|s: String| s@) + rest),
                None => None::<Seq<Seq<char>>>,
            },
        decreases buffer@.len() + 1 - reader_index,
    {
        if reader_index + 1 >= buffer.len() {
            return None;
        }
        let current_topic_length = get_length(buffer, reader_index);
        if reader_index + 2 + current_topic_length > buffer.len() {
            return None;
        }
        let (topic, next_index) = read_uft_8_string_with_length_bytes(buffer, reader_index);
        let ghost before = topic_to_unsunscribe_from@;
        topic_to_unsunscribe_from.push(topic);
        proof {
            assert(topic_to_unsunscribe_from@.map_values(|s: String| s@) =~= before.map_values(|s: String| s@).push(
                field_chars(b, reader_index as int),
            ));
            match unsubscribe_topics(b, next_index as int, end as int) {
                Some(rest) => {
                    assert(before.map_values(|s: String| s@) + (seq![field_chars(b, reader_index as int)] + rest)
                        =~= topic_to_unsunscribe_from@.map_values(|s: String| s@) + rest);
                },
                None => {},
            }
        }
        reader_index = next_index;
    }
    assert(topic_to_unsunscribe_from@.map_values(|s: String| s@) + Seq::<Seq<char>>::empty()
        =~= topic_to_unsunscribe_from@.map_values(|s: String| s@));
    Some((topic_to_unsunscribe_from, package_identifier))
}

/// A topic filter as an UNSUBSCRIBE carries it: its big-endian byte length,
/// then its UTF-8 bytes.
pub open spec fn encode_topic(topic: Seq<char>) -> Seq<u8> {
    let bytes = encode_utf8(topic);
    seq![(bytes.len() / 256) as u8, (bytes.len() % 256) as u8] + bytes
}

/// Topic filters one after another, each as `encode_topic` writes it.
pub open spec fn encode_topics(topics: Seq<Seq<char>>) -> Seq<u8>
    decreases topics.len(),
{
    if topics.len() == 0 {
        Seq::empty()
    } else {
        encode_topic(topics[0]) + encode_topics(topics.drop_first())
    }
}

/// Reading encoded ASCII topic filters that lie between `index` and `end` gives them back.
proof fn lemma_unsubscribe_topics_roundtrip(buffer: Seq<u8>, index: int, end: int, topics: Seq<Seq<char>>)
    requires
        0 <= index <= end <= buffer.len(),
        end - index < 65536,
        forall|k: int| 0 <= k < topics.len() ==> is_ascii_chars(#[trigger] topics[k]),
        buffer.subrange(index, end) == encode_topics(topics),
    ensures
        unsubscribe_topics(buffer, index, end) == Some(topics),
    decreases topics.len(),
{
    if topics.len() == 0 {
        assert(buffer.subrange(index, end).len() == 0);
    } else {
        let t = topics[0];
        let bytes = encode_utf8(t);
        is_ascii_chars_encode_utf8(t);
        lemma_ascii_latin1(t);
        let rest = topics.drop_first();
        let n = bytes.len();
        let enc = encode_topic(t);
        assert(buffer.subrange(index, end) == enc + encode_topics(rest));
        assert(enc.len() == 2 + n);
        let whole = buffer.subrange(index, end);
        assert(whole.len() == end - index);
        assert(whole.len() == enc.len() + encode_topics(rest).len());
        assert(n < 65536);
        assert(buffer[index] == whole[0]);
        assert(whole[0] == enc[0]);
        assert(buffer[index + 1] == whole[1]);
        assert(whole[1] == enc[1]);
        assert(enc[0] == (n / 256) as u8);
        assert(enc[1] == (n % 256) as u8);
        assert(read_u16_be(buffer, index) == n);
        assert(field_fits(buffer, index));
        assert(field_end(buffer, index) == index + 2 + n);
        assert(buffer.subrange(index + 2, index + 2 + n) =~= bytes) by {
            assert forall|k: int| 0 <= k < n implies buffer.subrange(index + 2, index + 2 + n)[k] == bytes[k] by {
                assert(buffer[index + 2 + k] == whole[2 + k]);
                assert(whole[2 + k] == enc[2 + k]);
                assert(enc[2 + k] == bytes[k]);
            }
        }
        assert(field_chars(buffer, index) == t);
        assert(buffer.subrange(index + 2 + n, end) =~= encode_topics(rest)) by {
            assert forall|k: int| 0 <= k < end - (index + 2 + n) implies buffer.subrange(index + 2 + n, end)[k]
                == encode_topics(rest)[k] by {
                assert(buffer[index + 2 + n + k] == whole[2 + n + k]);
                assert(whole[2 + n + k] == encode_topics(rest)[k]);
            }
        }
        assert forall|k: int| 0 <= k < rest.len() implies is_ascii_chars(#[trigger] rest[k]) by {
            assert(rest[k] == topics[k + 1]);
        }
        lemma_unsubscribe_topics_roundtrip(buffer, index + 2 + n, end, rest);
        assert(seq![t] + rest =~= topics);
    }
}

/// An UNSUBSCRIBE whose remaining length covers ASCII topic filters, written
/// as `encode_topics` writes them, reads back as those topics and the
/// identifier byte; so writing the topics read out again gives back the
/// packet's bytes.
pub proof fn lemma_unsubscribe_roundtrip(buffer: Seq<u8>, topics: Seq<Seq<char>>)
    requires
        2 <= buffer.len(),
        2 <= buffer[1] <= 253,
        buffer[1] + 2 <= buffer.len(),
        forall|k: int| 0 <= k < topics.len() ==> is_ascii_chars(#[trigger] topics[k]),
        buffer.subrange(4, buffer[1] + 2) == encode_topics(topics),
    ensures
        unsubscribe_packet(buffer) == Some((topics, buffer[2])),
        encode_topics(topics) == buffer.subrange(4, buffer[1] + 2),
{
    lemma_unsubscribe_topics_roundtrip(buffer, 4, buffer[1] + 2, topics);
}

/// The index of the first subscription to `topic`, or the number of subscriptions.
pub open spec fn subscription_position(subs: Seq<SubscriptionView>, topic: Seq<char>) -> int
    decreases subs.len(),
{
    if subs.len() == 0 {
        0
    } else if subs[0].topic_title@ == topic {
        0
    } else {
        1 + subscription_position(subs.drop_first(), topic)
    }
}

/// `subscription_position` is the first subscription to that topic.
pub proof fn lemma_subscription_position(subs: Seq<SubscriptionView>, topic: Seq<char>)
    ensures
        0 <= subscription_position(subs, topic) <= subs.len(),
        forall|j: int| 0 <= j < subscription_position(subs, topic) ==> (#[trigger] subs[j]).topic_title@ != topic,
        subscription_position(subs, topic) < subs.len() ==> subs[subscription_position(subs, topic)].topic_title@ == topic,
    decreases subs.len(),
{
    if subs.len() > 0 && subs[0].topic_title@ != topic {
        let rest = subs.drop_first();
        lemma_subscription_position(rest, topic);
        assert forall|j: int| 0 <= j < subscription_position(subs, topic) implies (#[trigger] subs[j]).topic_title@ != topic by {
            if j > 0 {
                assert(subs[j] == rest[j - 1]);
            }
        }
        assert(subscription_position(subs, topic) < subs.len() ==> subs[subscription_position(subs, topic)]
            == rest[subscription_position(rest, topic)]);
    }
}

/// Unsubscribing from each topic in turn: the first subscription to it is
/// removed. Stops with `false` at the first topic with no subscription left.
pub open spec fn unsubscribe_spec(subs: Seq<SubscriptionView>, topics: Seq<Seq<char>>) -> (Seq<SubscriptionView>, bool)
    decreases topics.len(),
{
    if topics.len() == 0 {
        (subs, true)
    } else {
        let p = subscription_position(subs, topics[0]);
        if p < subs.len() {
            unsubscribe_spec(subs.remove(p), topics.drop_first())
        } else {
            (subs, false)
        }
    }
}

/// Subscribing to a topic the client had no subscription to, then
/// unsubscribing from that topic, gives back the subscriptions it had.
pub proof fn lemma_subscribe_unsubscribe(subs: Seq<SubscriptionView>, topic: String)
    requires
        forall|i: int| 0 <= i < subs.len() ==> (#[trigger] subs[i]).topic_title@ != topic@,
    ensures
        unsubscribe_spec(subs.push(new_subscription(topic)), seq![topic@]) == (subs, true),
{
    let after = subs.push(new_subscription(topic));
    lemma_subscription_position(after, topic@);
    let p = subscription_position(after, topic@);
    if p < subs.len() {
        assert(after[p] == subs[p]);
    }
    assert(after[subs.len() as int].topic_title@ == topic@);
    assert(p == subs.len());
    assert(after.remove(p) =~= subs);
    assert(seq![topic@].drop_first() =~= Seq::<Seq<char>>::empty());
    assert(seq![topic@][0] == topic@);
    assert(unsubscribe_spec(subs, Seq::<Seq<char>>::empty()) == (subs, true));
}

/// The index of the first subscription to `topic`, if any.
fn position_of(subs: &Vec<Subscription>, topic: &String) -> (res: Option<usize>)
    ensures
        match res {
            Some(i) => i == subscription_position(subs@.map_values(|s: Subscription| s@), topic@)
                && i < subs@.len(),
            None => subscription_position(subs@.map_values(|s: Subscription| s@), topic@) == subs@.len(),
        },
{
    let ghost v = subs@.map_values(|s: Subscription| s@);
    proof {
        lemma_subscription_position(v, topic@);
    }
    let mut i: usize = 0;
    while i < subs.len()
        invariant
            v == subs@.map_values(|s: Subscription| s@),
            0 <= i <= subs@.len(),
            i <= subscription_position(v, topic@),
            subscription_position(v, topic@) <= v.len(),
            forall|j: int| 0 <= j < subscription_position(v, topic@) ==> (#[trigger] v[j]).topic_title@ != topic@,
            subscription_position(v, topic@) < v.len() ==> v[subscription_position(v, topic@)].topic_title@ == topic@,
        decreases subs@.len() - i,
    {
        assert(v[i as int] == subs@[i as int]@);
        if subs[i].topic_title == *topic {
            return Some(i);
        }
        i = i + 1;
    }
    None
}

/// Removes, for each topic in turn, the client's first subscription to it;
/// false at the first topic it is not subscribed to (later topics untouched).
pub fn unsubscribe_from_topics(topics_to_unsunscribe_from: Vec<String>, client: &mut Client) -> (res: bool)
    ensures
        (final(client)@.subscriptions, res) == unsubscribe_spec(
            old(client)@.subscriptions,
            topics_to_unsunscribe_from@.map_values(|s: String| s@),
        ),
        final(client)@ == (ClientView { subscriptions: final(client)@.subscriptions, ..old(client)@ }),
{
    let ghost tv = topics_to_unsunscribe_from@.map_values(|s: String| s@);
    let ghost t0 = topics_to_unsunscribe_from@;
    let ghost goal = unsubscribe_spec(client@.subscriptions, tv);
    let ghost c0 = client@;
    assert(tv.skip(0) =~= tv);
    for topic in it: topics_to_unsunscribe_from.into_iter()
        invariant
            it.seq() == t0,
            tv == t0.map_values(|s: String| s@),
            c0 == old(client)@,
            goal == unsubscribe_spec(old(client)@.subscriptions, tv),
            goal == unsubscribe_spec(client@.subscriptions, tv.skip(it.index() as int)),
            client@ == (ClientView { subscriptions: client@.subscriptions, ..c0 }),
    {
        let ghost i = it.index() as int;
        assert(tv.skip(i)[0] == topic@);
        assert(tv.skip(i).drop_first() =~= tv.skip(i + 1));
        match position_of(&client.subscriptions, &topic) {
            None => {
                proof {
                    let ts = tv.skip(i);
                    assert(ts.len() > 0);
                    assert(unsubscribe_spec(client@.subscriptions, ts) == (client@.subscriptions, false));
                    assert(goal == (client@.subscriptions, false));
                }
                return false;
            },
            Some(index) => {
                let ghost before = client@.subscriptions;
                client.subscriptions.remove(index);
                assert(client@.subscriptions =~= before.remove(index as int));
            },
        }
    }
    assert(tv.skip(tv.len() as int) =~= Seq::<Seq<char>>::empty());
    true
}

/// Handles an UNSUBSCRIBE: reads its topic filters and removes the client's
/// subscriptions to them. No UNSUBACK is sent.
pub fn handle_unsubscribe(buffer: &[u8], client: &mut Client) -> (res: Result<(), PacketError>)
    ensures
        unsubscribe_packet(buffer@) is None ==> res == Err::<(), PacketError>(PacketError::Malformed)
            && *final(client) == *old(client),
        unsubscribe_packet(buffer@) matches Some((topics, _id)) ==> {
            let (subs, ok) = unsubscribe_spec(old(client)@.subscriptions, topics);
            &&& final(client)@ == (ClientView { subscriptions: subs, ..old(client)@ })
            &&& res == if ok {
                Ok::<(), PacketError>(())
            } else {
                Err(PacketError::NotSubscribed)
            }
        },
{
    match read_unsubscribe_buffer(buffer) {
        None => Err(PacketError::Malformed),
        Some((topic_to_unsunscribe_from, _package_identifier)) => {
            if unsubscribe_from_topics(topic_to_unsunscribe_from, client) {
                Ok(())
            } else {
                Err(PacketError::NotSubscribed)
            }
        },
    }
}

} // verus!
