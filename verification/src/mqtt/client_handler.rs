use vstd::prelude::*;
use crate::mqtt::broker_state::{
    expired, is_expired, Client, Subscription, with_retry, with_state, ClientView, MessageState, SubscriptionMessage,
    SubscriptionView,
};
use crate::mqtt::broker_state::{
    client_position, deliver, has_client, lemma_client_position_same_ids,
    mark_subscriptions, BrokerState,
};
use crate::mqtt::message_handlers::PacketError;
use crate::mqtt::message_handlers::ping_handler::ping_resp;
use crate::mqtt::message_handlers::publish_handler::{
    handle_publish, process_publish, publish_packet_fits, publish_payload, publish_topic,
};
use crate::mqtt::message_handlers::subscribe_handler::{
    handle_subscribe, subscribe_client, subscribe_packet_fits, suback_bytes,
};
use crate::mqtt::message_handlers::unsubscribe_handle::{
    handle_unsubscribe, unsubscribe_packet, unsubscribe_spec,
};
use crate::mqtt::message_reader::field_chars;
use crate::mqtt::message_sender::{
    get_packet_identifier_to_u16, read_u16_be, response_packet, response_packet_bytes, PublishOrder,
};
use crate::mqtt::message_type::{type_byte, type_of_byte, MessageType};

verus! {

/// How long a sent message waits for its acknowledgement before it is sent again (10 s).
pub const MESSAGE_RETRY_NANOS: i128 = 10_000_000_000i128;

/// After this many attempts an unacknowledged message is given up.
pub const MAX_RETRY_COUNT: u8 = 5u8;

/// How long a client may stay silent before its connection is dropped (90 s).
pub const KEEP_ALIVE_NANOS: i128 = 90_000_000_000i128;

/// The message was sent and its acknowledgement is awaited.
pub open spec fn awaiting_ack(s: MessageState) -> bool {
    s == MessageState::PublishSent || s == MessageState::MessageReceived
}

/// The message is due to be sent again.
pub open spec fn retry_due(m: SubscriptionMessage, now: i128) -> bool {
    awaiting_ack(m.message_state) && expired(m.last_updated, MESSAGE_RETRY_NANOS as int, now)
}

/// The message is ready to be sent to the subscriber.
pub open spec fn ready_to_send(s: MessageState) -> bool {
    s == MessageState::PublishAcknowledged || s == MessageState::PublishReleased
        || s == MessageState::Queued
}

/// The message has nothing left to do and leaves its queue.
pub open spec fn finished(s: MessageState) -> bool {
    s == MessageState::MessageCompleted || s == MessageState::MessageAcknowledged
        || s == MessageState::Queued || s == MessageState::MessageUnsuccessful
}

/// The PUBLISH owed for `m` on a subscription to `topic` at QoS `qos`; a
/// resend (`is_retry`) carries the DUP flag.
pub open spec fn order_for(m: SubscriptionMessage, topic: String, qos: u8, is_retry: bool) -> PublishOrder {
    PublishOrder {
        packet_identifier: m.packet_identifier,
        topic_name: topic,
        message: m.message,
        is_retry,
        sub_qos: qos,
    }
}

/// The identifier of a message that has finished.
pub open spec fn finished_id(m: SubscriptionMessage) -> Option<u16> {
    if finished(m.message_state) {
        Some(m.packet_identifier)
    } else {
        None
    }
}

/// The identifiers of the finished messages of a queue, in order.
pub open spec fn finished_ids(ms: Seq<SubscriptionMessage>) -> Seq<u16> {
    ms.filter_map(|m: SubscriptionMessage| finished_id(m))
}

/// The identifiers of the finished messages of all subscriptions, in order.
pub open spec fn all_finished_ids(subs: Seq<SubscriptionView>) -> Seq<u16>
    decreases subs.len(),
{
    if subs.len() == 0 {
        Seq::empty()
    } else {
        all_finished_ids(subs.drop_last()) + finished_ids(subs.last().messages)
    }
}

/// Every subscription's queue without the messages whose identifier is in `done`.
pub open spec fn drop_finished(subs: Seq<SubscriptionView>, done: Seq<u16>) -> Seq<SubscriptionView> {
    subs.map_values(
        |s: SubscriptionView|
            SubscriptionView {
                messages: s.messages.filter(|m: SubscriptionMessage| !done.contains(m.packet_identifier)),
                ..s
            },
    )
}

/// The client's own pass, first half: a message whose acknowledgement is
/// overdue is counted as retried, and given up after `MAX_RETRY_COUNT` tries.
pub open spec fn stream_retry_step(m: SubscriptionMessage, now: i128) -> SubscriptionMessage {
    if retry_due(m, now) {
        let r = with_retry(m);
        if r.retry_count >= MAX_RETRY_COUNT {
            with_state(r, MessageState::MessageUnsuccessful, now)
        } else {
            r
        }
    } else {
        m
    }
}

/// The client's own pass, second half: a message ready to go is marked sent
/// when it needs an acknowledgement (QoS above 0).
pub open spec fn stream_send_step(m: SubscriptionMessage, now: i128) -> SubscriptionMessage {
    if ready_to_send(m.message_state) && m.pub_qos > 0 {
        with_state(m, MessageState::PublishSent, now)
    } else {
        m
    }
}

/// What the client's own pass does to one message.
pub open spec fn stream_step(m: SubscriptionMessage, now: i128) -> SubscriptionMessage {
    stream_send_step(stream_retry_step(m, now), now)
}

/// The packets the client's own pass sends for one message: a resend (DUP
/// set) when the retry is due, then a send when the message is ready to go.
pub open spec fn stream_step_orders(m: SubscriptionMessage, topic: String, qos: u8, now: i128) -> Seq<PublishOrder> {
    (if retry_due(m, now) {
        seq![order_for(m, topic, qos, true)]
    } else {
        Seq::empty()
    }) + (if ready_to_send(stream_retry_step(m, now).message_state) {
        seq![order_for(m, topic, qos, false)]
    } else {
        Seq::empty()
    })
}

/// The packets the client's own pass sends for a queue, in order.
pub open spec fn stream_queue_orders(ms: Seq<SubscriptionMessage>, topic: String, qos: u8, now: i128) -> Seq<PublishOrder>
    decreases ms.len(),
{
    if ms.len() == 0 {
        Seq::empty()
    } else {
        stream_queue_orders(ms.drop_last(), topic, qos, now) + stream_step_orders(ms.last(), topic, qos, now)
    }
}

/// The packets the client's own pass sends for all subscriptions, in order.
pub open spec fn stream_orders(subs: Seq<SubscriptionView>, now: i128) -> Seq<PublishOrder>
    decreases subs.len(),
{
    if subs.len() == 0 {
        Seq::empty()
    } else {
        stream_orders(subs.drop_last(), now) + stream_queue_orders(
            subs.last().messages,
            subs.last().topic_title,
            subs.last().sub_qos,
            now,
        )
    }
}

/// A subscription after every message took its step.
pub open spec fn stream_sub_step(s: SubscriptionView, now: i128) -> SubscriptionView {
    SubscriptionView { messages: s.messages.map_values(|m: SubscriptionMessage| stream_step(m, now)), ..s }
}

/// The subscriptions after the client's own pass: every message takes its
/// step, then every message whose identifier belongs to a finished message
/// (of any subscription) leaves its queue.
pub open spec fn stream_pass_subscriptions(subs: Seq<SubscriptionView>, now: i128) -> Seq<SubscriptionView> {
    let stepped = subs.map_values(|s: SubscriptionView| stream_sub_step(s, now));
    drop_finished(stepped, all_finished_ids(stepped))
}

/// The client after its own pass: its queues stepped and cleaned, and
/// cancellation requested once it has been silent past the keep-alive limit.
pub open spec fn stream_pass_client(c: ClientView, now: i128) -> ClientView {
    ClientView {
        subscriptions: stream_pass_subscriptions(c.subscriptions, now),
        cancellation_requested: c.cancellation_requested || expired(
            c.last_connection,
            KEEP_ALIVE_NANOS as int,
            now,
        ),
        ..c
    }
}

/// What one delivery pass asks of the connection.
pub struct DeliveryPass {
    /// The PUBLISH packets to send, in order.
    pub orders: Vec<PublishOrder>,
    /// The client has been silent too long: its delivery loop ends.
    pub connection_expired: bool,
}

/// Whether `id` occurs in `ids`.
pub fn contains_id(ids: &Vec<u16>, id: u16) -> (res: bool)
    ensures
        res == ids@.contains(id),
{
    let mut i: usize = 0;
    while i < ids.len()
        invariant
            i <= ids@.len(),
            forall|j: int| 0 <= j < i ==> ids@[j] != id,
        decreases ids@.len() - i,
    {
        if ids[i] == id {
            return true;
        }
        i = i + 1;
    }
    false
}

/// The order for message `m` on a subscription to `topic` at QoS `qos`,
/// marked as a resend when `is_retry`.
pub(crate) fn make_order(m: &SubscriptionMessage, topic: &String, qos: u8, is_retry: bool) -> (res: PublishOrder)
    ensures
        res == order_for(*m, *topic, qos, is_retry),
{
    PublishOrder {
        packet_identifier: m.packet_identifier,
        topic_name: topic.clone(),
        message: m.message.clone(),
        is_retry: is_retry,
        sub_qos: qos,
    }
}

/// Decides `retry_due` without overflow.
pub(crate) fn is_retry_due(m: &SubscriptionMessage, now: i128) -> (res: bool)
    ensures
        res == retry_due(*m, now),
{
    (m.message_state == MessageState::PublishSent || m.message_state == MessageState::MessageReceived)
        && is_expired(m.last_updated, MESSAGE_RETRY_NANOS, now)
}

/// Steps every message of one queue, appending the packets owed and the
/// identifiers of the messages that finished.
fn stream_step_queue(
    queue: Vec<SubscriptionMessage>,
    topic: &String,
    qos: u8,
    now: i128,
    orders: &mut Vec<PublishOrder>,
    done: &mut Vec<u16>,
) -> (res: Vec<SubscriptionMessage>)
    ensures
        res@ == queue@.map_values(|m: SubscriptionMessage| stream_step(m, now)),
        final(orders)@ == old(orders)@ + stream_queue_orders(queue@, *topic, qos, now),
        final(done)@ == old(done)@ + finished_ids(res@),
{
    let ghost q0 = queue@;
    let ghost orders0 = orders@;
    let ghost done0 = done@;
    let mut stepped: Vec<SubscriptionMessage> = Vec::new();
    for m in it: queue.into_iter()
        invariant
            it.seq() == q0,
            stepped@ == q0.take(it.index() as int).map_values(|m: SubscriptionMessage| stream_step(m, now)),
            orders@ == orders0 + stream_queue_orders(q0.take(it.index() as int), *topic, qos, now),
            done@ == done0 + finished_ids(stepped@),
    {
        let ghost i = it.index() as int;
        let ghost m0 = m;
        let mut m = m;
        if is_retry_due(&m, now) {
            orders.push(make_order(&m, topic, qos, true));
            m.add_retry();
            if m.retry_count >= MAX_RETRY_COUNT {
                m.update_state(MessageState::MessageUnsuccessful, now);
            }
        }
        assert(m == stream_retry_step(m0, now));
        if m.message_state == MessageState::PublishAcknowledged
            || m.message_state == MessageState::PublishReleased
            || m.message_state == MessageState::Queued {
            if m.pub_qos > 0 {
                m.update_state(MessageState::PublishSent, now);
            }
            orders.push(make_order(&m, topic, qos, false));
        }
        if m.message_state == MessageState::MessageCompleted
            || m.message_state == MessageState::MessageAcknowledged
            || m.message_state == MessageState::Queued
            || m.message_state == MessageState::MessageUnsuccessful {
            done.push(m.packet_identifier);
        }
        let ghost before = stepped@;
        stepped.push(m);
        proof {
            let t = q0.take(i + 1);
            assert(t.drop_last() == q0.take(i));
            assert(t.last() == m0);
            assert(stepped@ =~= t.map_values(|m: SubscriptionMessage| stream_step(m, now)));
            assert(stepped@.drop_last() == before);
            assert(orders@ =~= orders0 + stream_queue_orders(t, *topic, qos, now));
            assert(done@ =~= done0 + finished_ids(stepped@));
        }
    }
    assert(q0.take(q0.len() as int) == q0);
    stepped
}


/// Keeps the messages of `queue` whose identifier is not in `done`.
pub(crate) fn drop_finished_queue(queue: Vec<SubscriptionMessage>, done: &Vec<u16>) -> (res: Vec<SubscriptionMessage>)
    ensures
        res@ == queue@.filter(|m: SubscriptionMessage| !done@.contains(m.packet_identifier)),
{
    let ghost q0 = queue@;
    let ghost keep = |m: SubscriptionMessage| !done@.contains(m.packet_identifier);
    let mut kept: Vec<SubscriptionMessage> = Vec::new();
    for m in it: queue.into_iter()
        invariant
            it.seq() == q0,
            keep == (|m: SubscriptionMessage| !done@.contains(m.packet_identifier)),
            kept@ == q0.take(it.index() as int).filter(keep),
    {
        let ghost i = it.index() as int;
        proof {
            assert(q0.take(i + 1).drop_last() == q0.take(i));
            assert(q0.take(i + 1).last() == m);
        }
        let ghost before = kept@;
        if !contains_id(done, m.packet_identifier) {
            kept.push(m);
        }
        proof {
            reveal_with_fuel(Seq::filter, 1);
            let t = q0.take(i + 1);
            assert(keep(m) == !done@.contains(m.packet_identifier));
            assert(t.filter(keep) == t.drop_last().filter(keep) + (if keep(t.last()) {
                seq![t.last()]
            } else {
                Seq::<SubscriptionMessage>::empty()
            })) by {
                assert(t.filter(keep) == (if keep(t.last()) {
                    t.drop_last().filter(keep).push(t.last())
                } else {
                    t.drop_last().filter(keep)
                }));
            }
            assert(kept@ =~= t.filter(keep));
        }
    }
    assert(q0.take(q0.len() as int) == q0);
    kept
}

/// Keeps, in every subscription, the messages whose identifier is not in `done`.
pub(crate) fn drop_finished_subscriptions(subs: Vec<Subscription>, done: &Vec<u16>) -> (res: Vec<Subscription>)
    ensures
        res@.map_values(|s: Subscription| s@) == drop_finished(subs@.map_values(|s: Subscription| s@), done@),
{
    let ghost views = subs@.map_values(|s: Subscription| s@);
    let ghost s0 = subs@;
    let mut cleaned: Vec<Subscription> = Vec::new();
    for s in it: subs.into_iter()
        invariant
            it.seq() == s0,
            views == s0.map_values(|s: Subscription| s@),
            cleaned@.map_values(|s: Subscription| s@) == drop_finished(views.take(it.index() as int), done@),
    {
        let ghost i = it.index() as int;
        let ghost sg = s;
        assert(sg == s0[i]);
        let Subscription { topic_title, messages, sub_qos } = s;
        let kept = drop_finished_queue(messages, done);
        let ghost before = cleaned@;
        cleaned.push(Subscription { topic_title, messages: kept, sub_qos });
        proof {
            let t = views.take(i + 1);
            assert(t.drop_last() == views.take(i));
            let cv = cleaned@.map_values(|s: Subscription| s@);
            assert(cv.drop_last() =~= before.map_values(|s: Subscription| s@));
            assert(t.last() == sg@);
            let f = |s: SubscriptionView|
                SubscriptionView {
                    messages: s.messages.filter(|m: SubscriptionMessage| !done@.contains(m.packet_identifier)),
                    ..s
                };
            assert(cv =~= before.map_values(|s: Subscription| s@).push(f(sg@)));
            assert(drop_finished(t, done@) =~= drop_finished(views.take(i), done@).push(f(sg@)));
            assert(cv =~= drop_finished(t, done@));
        }
    }
    assert(views.take(views.len() as int) == views);
    cleaned
}

/// A finished message's identifier is among the queue's finished identifiers.
proof fn lemma_finished_ids_contains(ms: Seq<SubscriptionMessage>, j: int)
    requires
        0 <= j < ms.len(),
        finished(ms[j].message_state),
    ensures
        finished_ids(ms).contains(ms[j].packet_identifier),
    decreases ms.len(),
{
    let f = |m: SubscriptionMessage| finished_id(m);
    if j == ms.len() - 1 {
        assert(finished_ids(ms) == finished_ids(ms.drop_last()) + seq![ms[j].packet_identifier]);
        assert(finished_ids(ms)[finished_ids(ms).len() - 1] == ms[j].packet_identifier);
    } else {
        lemma_finished_ids_contains(ms.drop_last(), j);
        let k = choose|k: int| 0 <= k < finished_ids(ms.drop_last()).len()
            && finished_ids(ms.drop_last())[k] == ms[j].packet_identifier;
        assert(finished_ids(ms) == finished_ids(ms.drop_last()) + (match f(ms.last()) {
            Some(x) => seq![x],
            None => Seq::<u16>::empty(),
        }));
        assert(finished_ids(ms)[k] == ms[j].packet_identifier);
    }
}

/// A finished message's identifier is among the finished identifiers of all subscriptions.
pub(crate) proof fn lemma_all_finished_ids_contains(subs: Seq<SubscriptionView>, i: int, j: int)
    requires
        0 <= i < subs.len(),
        0 <= j < subs[i].messages.len(),
        finished(subs[i].messages[j].message_state),
    ensures
        all_finished_ids(subs).contains(subs[i].messages[j].packet_identifier),
    decreases subs.len(),
{
    let id = subs[i].messages[j].packet_identifier;
    let rest = all_finished_ids(subs.drop_last());
    let last = finished_ids(subs.last().messages);
    assert(all_finished_ids(subs) == rest + last);
    if i == subs.len() - 1 {
        lemma_finished_ids_contains(subs.last().messages, j);
        let k = choose|k: int| 0 <= k < last.len() && last[k] == id;
        assert((rest + last)[rest.len() + k] == id);
    } else {
        lemma_all_finished_ids_contains(subs.drop_last(), i, j);
        let k = choose|k: int| 0 <= k < rest.len() && rest[k] == id;
        assert((rest + last)[k] == id);
    }
}

/// Cleaning a set of queues of the identifiers of their own finished
/// messages leaves no finished message in any of them.
pub(crate) proof fn lemma_drop_finished_clean(stepped: Seq<SubscriptionView>)
    ensures
        forall|i: int, j: int|
            0 <= i < drop_finished(stepped, all_finished_ids(stepped)).len()
                && 0 <= j < drop_finished(stepped, all_finished_ids(stepped))[i].messages.len()
                ==> !finished(#[trigger] drop_finished(stepped, all_finished_ids(stepped))[i].messages[j].message_state),
{
    let done = all_finished_ids(stepped);
    let after = drop_finished(stepped, done);
    assert forall|i: int, j: int| 0 <= i < after.len() && 0 <= j < after[i].messages.len()
        implies !finished(#[trigger] after[i].messages[j].message_state) by {
        let keep = |m: SubscriptionMessage| !done.contains(m.packet_identifier);
        let q = stepped[i].messages;
        assert(after[i].messages == q.filter(keep));
        let m = after[i].messages[j];
        q.lemma_filter_pred(keep, j);
        q.lemma_filter_contains_rev(keep, m);
        let k = choose|k: int| 0 <= k < q.len() && q[k] == m;
        if finished(m.message_state) {
            lemma_all_finished_ids_contains(stepped, i, k);
        }
    }
}

/// After the client's own delivery pass no queue holds a finished message:
/// every message that completed, was acknowledged, was given up, or needed no
/// acknowledgement has left its queue.
pub proof fn lemma_stream_pass_drops_finished(c: ClientView, now: i128)
    ensures
        forall|i: int, j: int|
            0 <= i < stream_pass_client(c, now).subscriptions.len()
                && 0 <= j < stream_pass_client(c, now).subscriptions[i].messages.len()
                ==> !finished(#[trigger] stream_pass_client(c, now).subscriptions[i].messages[j].message_state),
{
    lemma_drop_finished_clean(c.subscriptions.map_values(|s: SubscriptionView| stream_sub_step(s, now)));
}

/// A message keeps fewer than `MAX_RETRY_COUNT` retries through the
/// client's own pass, unless it is given up.
proof fn lemma_stream_step_retries(m: SubscriptionMessage, now: i128)
    requires
        m.retry_count < MAX_RETRY_COUNT,
    ensures
        stream_step(m, now).retry_count < MAX_RETRY_COUNT
            || stream_step(m, now).message_state == MessageState::MessageUnsuccessful,
{
}

/// When every queued message has been retried fewer than `MAX_RETRY_COUNT`
/// times, so has every message left after the client's own pass: a message
/// reaching the limit is given up and leaves its queue.
pub proof fn lemma_stream_pass_retry_bound(c: ClientView, now: i128)
    requires
        forall|i: int, j: int|
            0 <= i < c.subscriptions.len() && 0 <= j < c.subscriptions[i].messages.len()
                ==> (#[trigger] c.subscriptions[i].messages[j]).retry_count < MAX_RETRY_COUNT,
    ensures
        forall|i: int, j: int|
            0 <= i < stream_pass_client(c, now).subscriptions.len()
                && 0 <= j < stream_pass_client(c, now).subscriptions[i].messages.len()
                ==> (#[trigger] stream_pass_client(c, now).subscriptions[i].messages[j]).retry_count < MAX_RETRY_COUNT,
{
    let stepped = c.subscriptions.map_values(|s: SubscriptionView| stream_sub_step(s, now));
    let done = all_finished_ids(stepped);
    let after = stream_pass_client(c, now).subscriptions;
    lemma_drop_finished_clean(stepped);
    assert forall|i: int, j: int| 0 <= i < after.len() && 0 <= j < after[i].messages.len()
        implies (#[trigger] after[i].messages[j]).retry_count < MAX_RETRY_COUNT by {
        let keep = |m: SubscriptionMessage| !done.contains(m.packet_identifier);
        let q = stepped[i].messages;
        assert(after[i].messages == q.filter(keep));
        let m = after[i].messages[j];
        q.lemma_filter_contains_rev(keep, m);
        let k = choose|k: int| 0 <= k < q.len() && q[k] == m;
        assert(q[k] == stream_step(c.subscriptions[i].messages[k], now));
        lemma_stream_step_retries(c.subscriptions[i].messages[k], now);
        assert(!finished(after[i].messages[j].message_state));
    }
}

/// A finished identifier of a set of queues comes from a finished message in one of them.
proof fn lemma_all_finished_ids_source(subs: Seq<SubscriptionView>, id: u16)
    requires
        all_finished_ids(subs).contains(id),
    ensures
        exists|i: int, j: int|
            0 <= i < subs.len() && 0 <= j < subs[i].messages.len() && finished(
                subs[i].messages[j].message_state,
            ) && (#[trigger] subs[i].messages[j]).packet_identifier == id,
    decreases subs.len(),
{
    let rest = subs.drop_last();
    let last = subs.last().messages;
    let k = choose|k: int| 0 <= k < all_finished_ids(subs).len() && all_finished_ids(subs)[k] == id;
    if k < all_finished_ids(rest).len() {
        assert(all_finished_ids(rest)[k] == id);
        lemma_all_finished_ids_source(rest, id);
        let (i, j) = choose|i: int, j: int|
            0 <= i < rest.len() && 0 <= j < rest[i].messages.len() && finished(rest[i].messages[j].message_state)
                && (#[trigger] rest[i].messages[j]).packet_identifier == id;
        assert(subs[i] == rest[i]);
    } else {
        let f = |m: SubscriptionMessage| finished_id(m);
        assert(finished_ids(last)[k - all_finished_ids(rest).len()] == id);
        assert(last.filter_map(f).contains(id));
        last.lemma_filter_map_contains(f, id);
        let t = choose|t: SubscriptionMessage| last.contains(t) && f(t) == Some(id);
        let j = choose|j: int| 0 <= j < last.len() && last[j] == t;
        assert(subs[subs.len() - 1].messages[j] == t);
    }
}

/// A message that is not finished, and whose identifier no other message of
/// the queues carries, stays when the queues are cleaned of their finished messages.
proof fn lemma_drop_finished_keeps_unique(stepped: Seq<SubscriptionView>, i: int, j: int)
    requires
        0 <= i < stepped.len(),
        0 <= j < stepped[i].messages.len(),
        !finished(stepped[i].messages[j].message_state),
        forall|a: int, b: int|
            0 <= a < stepped.len() && 0 <= b < stepped[a].messages.len() && (a != i || b != j)
                ==> (#[trigger] stepped[a].messages[b]).packet_identifier != stepped[i].messages[j].packet_identifier,
    ensures
        drop_finished(stepped, all_finished_ids(stepped))[i].messages.contains(stepped[i].messages[j]),
{
    let done = all_finished_ids(stepped);
    let m = stepped[i].messages[j];
    if done.contains(m.packet_identifier) {
        lemma_all_finished_ids_source(stepped, m.packet_identifier);
    }
    let keep = |x: SubscriptionMessage| !done.contains(x.packet_identifier);
    stepped[i].messages.lemma_filter_contains(keep, j);
}

/// In the client's own pass a message waiting to be sent (queued,
/// acknowledged or released) with a publish QoS above 0 is marked sent at
/// `now`, nothing else about it changed.
pub proof fn lemma_stream_step_marks_sent(m: SubscriptionMessage, now: i128)
    requires
        m.message_state == MessageState::Queued || m.message_state == MessageState::PublishAcknowledged
            || m.message_state == MessageState::PublishReleased,
        m.pub_qos > 0,
    ensures
        stream_step(m, now) == (SubscriptionMessage { message_state: MessageState::PublishSent, last_updated: now, ..m }),
{
}

/// After the client's own pass, a message that was waiting to be sent with a
/// publish QoS above 0 is still queued on its subscription, marked sent at
/// `now`, so that its acknowledgement is awaited (and it is resent when none
/// comes); this holds of a message whose identifier no other message of the
/// client carries.
pub proof fn lemma_stream_pass_keeps_sent(c: ClientView, now: i128, i: int, j: int)
    requires
        0 <= i < c.subscriptions.len(),
        0 <= j < c.subscriptions[i].messages.len(),
        c.subscriptions[i].messages[j].message_state == MessageState::Queued
            || c.subscriptions[i].messages[j].message_state == MessageState::PublishAcknowledged
            || c.subscriptions[i].messages[j].message_state == MessageState::PublishReleased,
        c.subscriptions[i].messages[j].pub_qos > 0,
        forall|a: int, b: int|
            0 <= a < c.subscriptions.len() && 0 <= b < c.subscriptions[a].messages.len() && (a != i || b != j)
                ==> (#[trigger] c.subscriptions[a].messages[b]).packet_identifier
                    != c.subscriptions[i].messages[j].packet_identifier,
    ensures
        stream_pass_client(c, now).subscriptions[i].messages.contains(
            SubscriptionMessage {
                message_state: MessageState::PublishSent,
                last_updated: now,
                ..c.subscriptions[i].messages[j]
            },
        ),
{
    let m = c.subscriptions[i].messages[j];
    lemma_stream_step_marks_sent(m, now);
    let stepped = c.subscriptions.map_values(|s: SubscriptionView| stream_sub_step(s, now));
    assert(stepped[i].messages[j] == stream_step(m, now));
    assert forall|a: int, b: int|
        0 <= a < stepped.len() && 0 <= b < stepped[a].messages.len() && (a != i || b != j)
            implies (#[trigger] stepped[a].messages[b]).packet_identifier != stepped[i].messages[j].packet_identifier by {
        assert(stepped[a].messages[b] == stream_step(c.subscriptions[a].messages[b], now));
        assert(c.subscriptions[a].messages[b].packet_identifier != m.packet_identifier);
    }
    lemma_drop_finished_keeps_unique(stepped, i, j);
}

/// An acknowledgement (PUBACK, PUBREC, PUBREL or PUBCOMP) with identifier
/// `id` from the client at `pos` moves every message carrying `id`, in every
/// subscription of that client, to its state at `now`; every other message,
/// and every other client, is as it was.
pub proof fn lemma_acknowledgement_marks_all(
    t: Seq<ClientView>,
    pos: int,
    thread_id: u64,
    b: Seq<u8>,
    now: i128,
    after: Seq<ClientView>,
    res: OutcomeView,
)
    requires
        0 <= pos < t.len(),
        b.len() >= 4,
        b[0] == 0x40 || b[0] == 0x50 || b[0] == 0x60 || b[0] == 0x70,
        packet_handled(t, pos, thread_id, b, now, after, res),
    ensures
        after.len() == t.len(),
        forall|k: int| 0 <= k < t.len() && k != pos ==> #[trigger] after[k] == t[k],
        after[pos].subscriptions.len() == t[pos].subscriptions.len(),
        forall|i: int| 0 <= i < t[pos].subscriptions.len()
            ==> (#[trigger] after[pos].subscriptions[i]).messages.len() == t[pos].subscriptions[i].messages.len(),
        forall|i: int, j: int|
            0 <= i < t[pos].subscriptions.len() && 0 <= j < t[pos].subscriptions[i].messages.len()
                ==> #[trigger] after[pos].subscriptions[i].messages[j] == if t[pos].subscriptions[i].messages[j].packet_identifier
                    == b[2] * 256 + b[3] {
                    SubscriptionMessage {
                        message_state: if b[0] == 0x40 {
                            MessageState::MessageAcknowledged
                        } else if b[0] == 0x50 {
                            MessageState::MessageReceived
                        } else if b[0] == 0x60 {
                            MessageState::PublishReleased
                        } else {
                            MessageState::MessageCompleted
                        },
                        last_updated: now,
                        ..t[pos].subscriptions[i].messages[j]
                    }
                } else {
                    t[pos].subscriptions[i].messages[j]
                },
{
}

impl Client {
    /// One pass of the client's own delivery loop: resends overdue messages,
    /// sends ready ones, drops finished ones, and flags a silent client.
    pub fn stream_delivery_pass(&mut self, now: i128) -> (res: DeliveryPass)
        ensures
            final(self)@ == stream_pass_client(old(self)@, now),
            res.orders@ == stream_orders(old(self)@.subscriptions, now),
            res.connection_expired == expired(old(self)@.last_connection, KEEP_ALIVE_NANOS as int, now),
    {
        let ghost c0 = self@;
        let mut subs: Vec<Subscription> = Vec::new();
        std::mem::swap(&mut subs, &mut self.subscriptions);
        let ghost s0 = subs@;
        let ghost v0 = s0.map_values(|s: Subscription| s@);
        assert(v0 == c0.subscriptions);
        let mut orders: Vec<PublishOrder> = Vec::new();
        let mut done: Vec<u16> = Vec::new();
        let mut stepped: Vec<Subscription> = Vec::new();
        for s in it: subs.into_iter()
            invariant
                it.seq() == s0,
                v0 == s0.map_values(|s: Subscription| s@),
                stepped@.map_values(|s: Subscription| s@) == v0.take(it.index() as int).map_values(
                    |s: SubscriptionView| stream_sub_step(s, now),
                ),
                orders@ == stream_orders(v0.take(it.index() as int), now),
                done@ == all_finished_ids(stepped@.map_values(|s: Subscription| s@)),
        {
            let ghost i = it.index() as int;
            let ghost sg = s;
            assert(sg == s0[i]);
            let Subscription { topic_title, messages, sub_qos } = s;
            let new_messages = stream_step_queue(messages, &topic_title, sub_qos, now, &mut orders, &mut done);
            let ghost before = stepped@;
            stepped.push(Subscription { topic_title, messages: new_messages, sub_qos });
            proof {
                let t = v0.take(i + 1);
                assert(t.drop_last() == v0.take(i));
                assert(t.last() == s0[i]@);
                let sv = stepped@.map_values(|s: Subscription| s@);
                assert(sv.drop_last() =~= before.map_values(|s: Subscription| s@));
                assert(sv.last() == stream_sub_step(sg@, now));
                assert(sv =~= before.map_values(|s: Subscription| s@).push(stream_sub_step(sg@, now)));
                assert(t.map_values(|s: SubscriptionView| stream_sub_step(s, now)) =~= v0.take(i).map_values(
                    |s: SubscriptionView| stream_sub_step(s, now),
                ).push(stream_sub_step(sg@, now)));
                assert(sv =~= t.map_values(|s: SubscriptionView| stream_sub_step(s, now)));
            }
        }
        assert(v0.take(v0.len() as int) == v0);
        let cleaned = drop_finished_subscriptions(stepped, &done);
        self.subscriptions = cleaned;
        let connection_expired = is_expired(self.last_connection, KEEP_ALIVE_NANOS, now);
        if connection_expired {
            self.cancellation_requested = true;
        }
        assert(self@.subscriptions =~= stream_pass_subscriptions(c0.subscriptions, now));
        DeliveryPass { orders, connection_expired }
    }
}


/// The packet identifier under which a leaving client's will is published.
pub const WILL_PACKET_IDENTIFIER: u16 = 44u16;

/// What the connection does after a packet was handled.
#[derive(Debug)]
pub enum PacketOutcome {
    /// Send these bytes to the client, then keep reading.
    Reply(Vec<u8>),
    /// Keep reading.
    NoReply,
    /// Stop reading: the client disconnected or sent something unsupported.
    Close,
    /// The packet could not be handled.
    Failed(PacketError),
}

/// A packet outcome as a value.
pub enum OutcomeView {
    Reply(Seq<u8>),
    NoReply,
    Close,
    Failed(PacketError),
}

impl View for PacketOutcome {
    type V = OutcomeView;

    open spec fn view(&self) -> OutcomeView {
        match self {
            PacketOutcome::Reply(v) => OutcomeView::Reply(v@),
            PacketOutcome::NoReply => OutcomeView::NoReply,
            PacketOutcome::Close => OutcomeView::Close,
            PacketOutcome::Failed(e) => OutcomeView::Failed(*e),
        }
    }
}

/// The clients with the client at `pos` heard from at `now`.
pub open spec fn touched(cs: Seq<ClientView>, pos: int, now: i128) -> Seq<ClientView> {
    cs.update(pos, ClientView { last_connection: now, ..cs[pos] })
}

/// The clients with the messages of the client at `pos` carrying `id` moved to `s` at `now`.
pub open spec fn acknowledged(cs: Seq<ClientView>, pos: int, id: u16, s: MessageState, now: i128) -> Seq<ClientView> {
    cs.update(pos, ClientView { subscriptions: mark_subscriptions(cs[pos].subscriptions, id, s, Some(now)), ..cs[pos] })
}

/// How an acknowledgement packet (PUBACK, PUBREC, PUBREL, PUBCOMP) is answered:
/// its messages move to `s`, and the reply, if any, carries the same identifier.
pub open spec fn acknowledgement_handled(
    t: Seq<ClientView>,
    pos: int,
    b: Seq<u8>,
    now: i128,
    s: MessageState,
    reply: Option<MessageType>,
    after: Seq<ClientView>,
    res: OutcomeView,
) -> bool {
    if b.len() < 4 {
        res == OutcomeView::Failed(PacketError::Malformed) && after == t
    } else {
        &&& after == acknowledged(t, pos, read_u16_be(b, 2) as u16, s, now)
        &&& res == match reply {
            Some(r) => OutcomeView::Reply(response_packet_bytes(r, read_u16_be(b, 2) as u16)),
            None => OutcomeView::NoReply,
        }
    }
}

/// How the broker answers one packet from a connected client, given the
/// clients `t` after the client at `pos` was marked as heard from.
pub open spec fn packet_handled(
    t: Seq<ClientView>,
    pos: int,
    thread_id: u64,
    b: Seq<u8>,
    now: i128,
    after: Seq<ClientView>,
    res: OutcomeView,
) -> bool {
    match type_of_byte(b[0]) {
        Some(MessageType::Publish) => if publish_packet_fits(b) {
            &&& res == OutcomeView::NoReply
            &&& exists|m: SubscriptionMessage|
                m.message@ == publish_payload(b) && !m.message_sent && m.packet_identifier == 0
                    && m.message_state == MessageState::Queued && m.pub_qos == 0 && m.retry_count == 0
                    && m.last_updated == 0 && after == deliver(t, publish_topic(b), m)
        } else {
            res == OutcomeView::Failed(PacketError::Malformed) && after == t
        },
        Some(MessageType::Puback) => acknowledgement_handled(
            t, pos, b, now, MessageState::MessageAcknowledged, None, after, res),
        Some(MessageType::Pubrec) => acknowledgement_handled(
            t, pos, b, now, MessageState::MessageReceived, Some(MessageType::Pubrel), after, res),
        Some(MessageType::Pubrel) => acknowledgement_handled(
            t, pos, b, now, MessageState::PublishReleased, Some(MessageType::Pubcomp), after, res),
        Some(MessageType::Pubcomp) => acknowledgement_handled(
            t, pos, b, now, MessageState::MessageCompleted, None, after, res),
        Some(MessageType::Subscribe) => if subscribe_packet_fits(b) {
            &&& res == OutcomeView::Reply(suback_bytes(b))
            &&& exists|topic: String| topic@ == field_chars(b, 4) && after == subscribe_client(t, thread_id, topic)
        } else {
            res == OutcomeView::Failed(PacketError::Malformed) && after == t
        },
        Some(MessageType::Unsubscribe) => match unsubscribe_packet(b) {
            None => res == OutcomeView::Failed(PacketError::Malformed) && after == t,
            Some((topics, _id)) => {
                let (subs, ok) = unsubscribe_spec(t[pos].subscriptions, topics);
                &&& after == t.update(pos, ClientView { subscriptions: subs, ..t[pos] })
                &&& res == if ok {
                    OutcomeView::NoReply
                } else {
                    OutcomeView::Failed(PacketError::NotSubscribed)
                }
            },
        },
        Some(MessageType::Pingreq) => res == OutcomeView::Reply(seq![type_byte(MessageType::Pingresp), 0u8])
            && after == t,
        _ => res == OutcomeView::Close && after == t,
    }
}

impl BrokerState {
    /// Marks the client at `pos` as heard from at `now`.
    fn touch_client(&mut self, pos: usize, now: i128)
        requires
            pos < old(self)@.len(),
        ensures
            final(self)@ == touched(old(self)@, pos as int, now),
    {
        let mut c = self.take_client(pos);
        c.last_connection = now;
        self.put_client(pos, c);
        assert(self@ =~= touched(old(self)@, pos as int, now));
    }

    /// Moves the messages of the client at `pos` carrying `id` to `s` at `now`.
    fn acknowledge(&mut self, pos: usize, id: u16, s: MessageState, now: i128)
        requires
            pos < old(self)@.len(),
        ensures
            final(self)@ == acknowledged(old(self)@, pos as int, id, s, now),
    {
        let mut c = self.take_client(pos);
        c.update_message_state(id, s, now);
        self.put_client(pos, c);
        assert(self@ =~= acknowledged(old(self)@, pos as int, id, s, now));
    }
}

/// Handles one packet read from the connection of the client with
/// `thread_id`: `buffer` holds the packet at its start and `size` is how many
/// bytes the read returned. The client is marked as heard from, then the
/// packet is dispatched on its first byte.
pub fn handle_client_packet(
    broker_state: &mut BrokerState,
    thread_id: u64,
    buffer: &[u8],
    size: usize,
    now: i128,
) -> (res: PacketOutcome)
    requires
        size <= buffer@.len(),
    ensures
        !has_client(old(broker_state)@, thread_id) ==> res@ == OutcomeView::Failed(PacketError::UnknownClient)
            && final(broker_state)@ == old(broker_state)@,
        has_client(old(broker_state)@, thread_id) && size == 0 ==> res@ == OutcomeView::Close
            && final(broker_state)@ == old(broker_state)@,
        has_client(old(broker_state)@, thread_id) && size > 0 ==> packet_handled(
            touched(old(broker_state)@, client_position(old(broker_state)@, thread_id), now),
            client_position(old(broker_state)@, thread_id),
            thread_id,
            buffer@,
            now,
            final(broker_state)@,
            res@,
        ),
{
    let pos = match broker_state.find_client(thread_id) {
        None => {
            return PacketOutcome::Failed(PacketError::UnknownClient);
        },
        Some(p) => p,
    };
    if size == 0 {
        return PacketOutcome::Close;
    }
    let ghost cs = broker_state@;
    broker_state.touch_client(pos, now);
    let ghost t = broker_state@;
    proof {
        assert forall|i: int| 0 <= i < t.len() implies (#[trigger] t[i]).thread_id == cs[i].thread_id by {}
        lemma_client_position_same_ids(t, cs, thread_id);
    }
    let res = match MessageType::from_u8(buffer[0]) {
        Some(MessageType::Publish) => {
            match handle_publish(buffer, broker_state) {
                Ok(()) => PacketOutcome::NoReply,
                Err(e) => PacketOutcome::Failed(e),
            }
        },
        Some(MessageType::Puback) => {
            if buffer.len() < 4 {
                PacketOutcome::Failed(PacketError::Malformed)
            } else {
                let packet_identifier = get_packet_identifier_to_u16(buffer, 2);
                broker_state.acknowledge(pos, packet_identifier, MessageState::MessageAcknowledged, now);
                PacketOutcome::NoReply
            }
        },
        Some(MessageType::Pubrec) => {
            if buffer.len() < 4 {
                PacketOutcome::Failed(PacketError::Malformed)
            } else {
                let packet_identifier = get_packet_identifier_to_u16(buffer, 2);
                broker_state.acknowledge(pos, packet_identifier, MessageState::MessageReceived, now);
                PacketOutcome::Reply(response_packet(MessageType::Pubrel, packet_identifier))
            }
        },
        Some(MessageType::Pubrel) => {
            if buffer.len() < 4 {
                PacketOutcome::Failed(PacketError::Malformed)
            } else {
                let packet_identifier = get_packet_identifier_to_u16(buffer, 2);
                broker_state.acknowledge(pos, packet_identifier, MessageState::PublishReleased, now);
                PacketOutcome::Reply(response_packet(MessageType::Pubcomp, packet_identifier))
            }
        },
        Some(MessageType::Pubcomp) => {
            if buffer.len() < 4 {
                PacketOutcome::Failed(PacketError::Malformed)
            } else {
                let packet_identifier = get_packet_identifier_to_u16(buffer, 2);
                broker_state.acknowledge(pos, packet_identifier, MessageState::MessageCompleted, now);
                PacketOutcome::NoReply
            }
        },
        Some(MessageType::Subscribe) => {
            match handle_subscribe(buffer, thread_id, broker_state) {
                Ok(v) => PacketOutcome::Reply(v),
                Err(e) => PacketOutcome::Failed(e),
            }
        },
        Some(MessageType::Unsubscribe) => {
            let mut c = broker_state.take_client(pos);
            let ghost c0 = c@;
            let r = handle_unsubscribe(buffer, &mut c);
            broker_state.put_client(pos, c);
            proof {
                assert(c0 == t[pos as int]);
                match unsubscribe_packet(buffer@) {
                    None => {
                        assert(broker_state@ =~= t);
                    },
                    Some((topics, _id)) => {
                        let (subs, ok) = unsubscribe_spec(t[pos as int].subscriptions, topics);
                        assert(broker_state@ =~= t.update(pos as int, ClientView { subscriptions: subs, ..t[pos as int] }));
                    },
                }
            }
            match r {
                Ok(()) => PacketOutcome::NoReply,
                Err(e) => PacketOutcome::Failed(e),
            }
        },
        Some(MessageType::Pingreq) => PacketOutcome::Reply(ping_resp(MessageType::Pingresp)),
        _ => PacketOutcome::Close,
    };
    res
}

impl BrokerState {
    /// One pass of the delivery loop of the client with `thread_id`; none
    /// when there is no such client.
    pub fn handle_second_stream(&mut self, thread_id: u64, now: i128) -> (res: Option<DeliveryPass>)
        ensures
            !has_client(old(self)@, thread_id) ==> res is None && final(self)@ == old(self)@,
            has_client(old(self)@, thread_id) ==> {
                let pos = client_position(old(self)@, thread_id);
                &&& res matches Some(pass) && pass.orders@ == stream_orders(old(self)@[pos].subscriptions, now)
                    && pass.connection_expired == expired(old(self)@[pos].last_connection, KEEP_ALIVE_NANOS as int, now)
                &&& final(self)@ == old(self)@.update(pos, stream_pass_client(old(self)@[pos], now))
            },
    {
        match self.find_client(thread_id) {
            None => None,
            Some(pos) => {
                let mut c = self.take_client(pos);
                let pass = c.stream_delivery_pass(now);
                self.put_client(pos, c);
                assert(self@ =~= old(self)@.update(pos as int, stream_pass_client(old(self)@[pos as int], now)));
                Some(pass)
            },
        }
    }

    /// Publishes the will of the client with `thread_id` to every subscription
    /// to its will topic, as a queued message at the will's QoS under
    /// `WILL_PACKET_IDENTIFIER`; false, and nothing changed, when there is no such client.
    pub fn publish_will(&mut self, thread_id: u64, now: i128) -> (res: bool)
        ensures
            res == has_client(old(self)@, thread_id),
            !res ==> final(self)@ == old(self)@,
            res ==> {
                let c = old(self)@[client_position(old(self)@, thread_id)];
                final(self)@ == deliver(
                    old(self)@,
                    c.will_topic@,
                    SubscriptionMessage {
                        message: c.will_text,
                        message_sent: false,
                        packet_identifier: WILL_PACKET_IDENTIFIER,
                        message_state: MessageState::Queued,
                        pub_qos: c.will_qos,
                        retry_count: 0,
                        last_updated: now,
                    },
                )
            },
    {
        match self.find_client(thread_id) {
            None => false,
            Some(pos) => {
                let will_topic = self.clients[pos].will_topic.clone();
                let will_text = self.clients[pos].will_text.clone();
                let will_qos = self.clients[pos].will_qos;
                assert(self@[pos as int] == self.clients@[pos as int]@);
                process_publish(
                    self,
                    &will_topic,
                    &will_text,
                    will_qos,
                    MessageState::Queued,
                    WILL_PACKET_IDENTIFIER,
                    now,
                );
                true
            },
        }
    }
}

} // verus!
