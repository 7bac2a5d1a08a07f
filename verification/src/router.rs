//! The router: who gets a message, and what bytes each recipient is sent.
//!
//! Routing only computes. For every target it encrypts the payload under
//! that target's own session and frames the ciphertext; the caller writes
//! the frames to the transports and reports back which writes went through.
//! A recipient that cannot be served never holds up the others.

use crate::error::{CryptoError, RegistryError, RoutingError};
use crate::frame::{encode_frame, frame_of, MAX_FRAME_LEN};
use crate::registry::{
    distinct, has_identity, has_username, inserted, lemma_position_of_identity,
    lemma_position_of_username, lemma_remove_keeps_distinct, lookup, position_of_identity,
    position_of_username, removed, views, Client, ClientRegistry, ClientView,
};
use crate::session::{bytes_of, decrypted_under, encrypted_under};
use vstd::prelude::*;

verus! {

/// A message on its way through the relay.
#[derive(Debug)]
pub struct Message {
    /// The username of the client that sent it, or the operator's name.
    pub sender: String,
    /// The bytes to deliver; the relay does not look inside.
    pub payload: Vec<u8>,
}

/// A message as contracts see it.
pub struct MessageView {
    pub sender: Seq<char>,
    pub payload: Seq<u8>,
}

impl View for Message {
    type V = MessageView;

    open spec fn view(&self) -> MessageView {
        MessageView { sender: self.sender@, payload: self.payload@ }
    }
}

/// Who a message goes to.
#[derive(Debug)]
pub enum RoutingPolicy {
    /// Every client in the registry at routing time.
    Broadcast,
    /// The client with this username, if it is connected.
    Unicast(String),
}

/// What one recipient is to be sent.
#[derive(Debug)]
pub struct Delivery {
    /// The connection identity of the recipient.
    pub recipient: u64,
    /// The frame to write, or `None` where none could be made for this
    /// recipient.
    pub wire: Option<Vec<u8>>,
}

/// A delivery as contracts see it.
pub struct DeliveryView {
    pub recipient: u64,
    pub wire: Option<Seq<u8>>,
}

impl View for Delivery {
    type V = DeliveryView;

    open spec fn view(&self) -> DeliveryView {
        DeliveryView {
            recipient: self.recipient,
            wire: match self.wire {
                Some(w) => Some(w@),
                None => None,
            },
        }
    }
}

/// The name under which the operator console sends.
pub open spec fn operator_name() -> Seq<char> {
    "Server"@
}

/// The frame a ciphertext travels in, if it fits in one.
pub open spec fn framed(sealed: Result<Seq<u8>, CryptoError>) -> Option<Seq<u8>> {
    match sealed {
        Ok(ciphertext) => if ciphertext.len() <= MAX_FRAME_LEN {
            Some(frame_of(ciphertext))
        } else {
            None
        },
        Err(_) => None,
    }
}

/// The frame `c` is sent for `payload`: the ciphertext of `payload` under the
/// session of `c`, in a frame; `None` where the session returns no
/// ciphertext or the ciphertext does not fit in a frame.
pub open spec fn wire_for(c: ClientView, payload: Seq<u8>) -> Option<Seq<u8>> {
    framed(encrypted_under(c.key, c.iv, payload))
}

/// The delivery of `payload` to `c`.
pub open spec fn delivery_for(c: ClientView, payload: Seq<u8>) -> DeliveryView {
    DeliveryView { recipient: c.identity, wire: wire_for(c, payload) }
}

/// The ciphertext of `payload` under the session of `c`, where there is one,
/// decrypts back to `payload` under that session.
pub open spec fn opens_back(c: ClientView, payload: Seq<u8>) -> bool {
    encrypted_under(c.key, c.iv, payload) matches Ok(ciphertext) ==> decrypted_under(
        c.key,
        c.iv,
        ciphertext,
    ) == Ok::<Seq<u8>, CryptoError>(payload)
}

/// `d` is the delivery of `payload` to `c`, and what it carries can be read
/// by `c`.
pub open spec fn addressed(d: DeliveryView, c: ClientView, payload: Seq<u8>) -> bool {
    &&& d == delivery_for(c, payload)
    &&& opens_back(c, payload)
}

/// `ds` holds exactly one delivery of `payload` for each of `targets`, in
/// their order.
pub open spec fn one_each(ds: Seq<Delivery>, targets: Seq<ClientView>, payload: Seq<u8>) -> bool {
    &&& ds.len() == targets.len()
    &&& forall|i: int| 0 <= i < ds.len() ==> addressed((#[trigger] ds[i])@, targets[i], payload)
}

/// The clients a policy selects from a table: all of them in joining order,
/// or the one with the given username.
pub open spec fn targets_of(m: Seq<ClientView>, policy: RoutingPolicy) -> Result<
    Seq<ClientView>,
    RoutingError,
> {
    match policy {
        RoutingPolicy::Broadcast => Ok(m),
        RoutingPolicy::Unicast(name) => match lookup(m, name@) {
            Some(c) => Ok(seq![c]),
            None => Err(RoutingError::UnknownRecipient),
        },
    }
}

/// Delivery `i` reached its recipient: there was a frame to write, and the
/// write was reported as done. A missing report counts as a failed write.
pub open spec fn served(ds: Seq<Delivery>, written: Seq<bool>, i: int) -> bool {
    &&& ds[i].wire is Some
    &&& i < written.len()
    &&& written[i]
}

/// Delivery `i` was lost on the way: there was a frame to write, and the
/// write was not reported as done.
pub open spec fn write_failed(ds: Seq<Delivery>, written: Seq<bool>, i: int) -> bool {
    &&& ds[i].wire is Some
    &&& !(i < written.len() && written[i])
}

/// The recipients whose write failed, in delivery order.
pub open spec fn failed_writes(ds: Seq<Delivery>, written: Seq<bool>) -> Seq<u64>
    decreases ds.len(),
{
    if ds.len() == 0 {
        Seq::empty()
    } else {
        let before = failed_writes(ds.drop_last(), written);
        if write_failed(ds, written, ds.len() - 1) {
            before.push(ds.last().recipient)
        } else {
            before
        }
    }
}

impl Message {
    /// A message from a connected client.
    pub fn new(sender: String, payload: Vec<u8>) -> (m: Message)
        ensures
            m.sender == sender,
            m.payload == payload,
    {
        Message { sender, payload }
    }

    /// A message from the operator console. The operator is no client: it
    /// has no registry entry and no session.
    pub fn from_operator(payload: Vec<u8>) -> (m: Message)
        ensures
            m.sender@ == operator_name(),
            m.payload == payload,
    {
        Message { sender: "Server".to_owned(), payload }
    }
}

impl Delivery {
    /// Makes the delivery for `recipient` out of what its session returned
    /// for the payload: the ciphertext in a frame, or nothing where the
    /// cipher failed or the ciphertext does not fit in a frame.
    pub fn from_sealed(recipient: u64, sealed: Result<Vec<u8>, CryptoError>) -> (d: Delivery)
        ensures
            d.recipient == recipient,
            d@.wire == framed(bytes_of(sealed)),
    {
        let wire = match sealed {
            Ok(ciphertext) => match encode_frame(ciphertext.as_slice()) {
                Ok(w) => Some(w),
                Err(_) => None,
            },
            Err(_) => None,
        };
        Delivery { recipient, wire }
    }
}

/// Encrypts `payload` for one client under that client's own session.
pub fn seal_for(client: &Client, payload: &[u8]) -> (d: Delivery)
    ensures
        addressed(d@, client@, payload@),
{
    Delivery::from_sealed(client.identity, client.session.encrypt(payload))
}

/// Encrypts `payload` once per target, each under its own session.
pub fn seal_all(targets: &Vec<Client>, payload: &[u8]) -> (ds: Vec<Delivery>)
    ensures
        one_each(ds@, views(targets@), payload@),
{
    let mut ds: Vec<Delivery> = Vec::new();
    let mut i: usize = 0;
    while i < targets.len()
        invariant
            i <= targets@.len(),
            ds@.len() == i,
            forall|j: int| 0 <= j < i ==> addressed((#[trigger] ds@[j])@, targets@[j]@, payload@),
        decreases targets@.len() - i,
    {
        let d = seal_for(&targets[i], payload);
        ds.push(d);
        i += 1;
    }
    ds
}

/// Selects the targets of a policy: a snapshot of all clients, or a copy of
/// the one named. A unicast to a name that is not connected fails with
/// `UnknownRecipient`.
pub fn select_targets(registry: &ClientRegistry, policy: &RoutingPolicy) -> (r: Result<
    Vec<Client>,
    RoutingError,
>)
    ensures
        match targets_of(registry@, *policy) {
            Ok(ts) => r matches Ok(v) && views(v@) == ts,
            Err(e) => r == Err::<Vec<Client>, RoutingError>(e),
        },
{
    match policy {
        RoutingPolicy::Broadcast => Ok(registry.snapshot()),
        RoutingPolicy::Unicast(name) => match registry.find_by_username(name.as_str()) {
            Some(c) => {
                let mut v: Vec<Client> = Vec::new();
                v.push(c);
                assert(views(v@) =~= seq![c@]);
                Ok(v)
            },
            None => Err(RoutingError::UnknownRecipient),
        },
    }
}

/// Routes a message: one delivery per target, in registry order, each
/// encrypted under the target's own session. Nothing is delivered, and
/// `UnknownRecipient` returned, where a unicast names nobody connected.
pub fn route(registry: &ClientRegistry, message: &Message, policy: &RoutingPolicy) -> (r: Result<
    Vec<Delivery>,
    RoutingError,
>)
    ensures
        match targets_of(registry@, *policy) {
            Ok(ts) => r matches Ok(ds) && one_each(ds@, ts, message.payload@),
            Err(e) => r == Err::<Vec<Delivery>, RoutingError>(e),
        },
{
    match select_targets(registry, policy) {
        Ok(targets) => Ok(seal_all(&targets, message.payload.as_slice())),
        Err(e) => Err(e),
    }
}

/// The recipients whose transport failed, given which writes went through:
/// these are the clients to remove. `written[i]` tells whether the frame of
/// delivery `i` was written; a missing flag counts as a failed write.
pub fn failed_recipients(deliveries: &Vec<Delivery>, written: &Vec<bool>) -> (failed: Vec<u64>)
    ensures
        failed@ == failed_writes(deliveries@, written@),
{
    let mut failed: Vec<u64> = Vec::new();
    let mut i: usize = 0;
    while i < deliveries.len()
        invariant
            i <= deliveries@.len(),
            failed@ == failed_writes(deliveries@.take(i as int), written@),
        decreases deliveries@.len() - i,
    {
        let lost = deliveries[i].wire.is_some() && !(i < written.len() && written[i]);
        proof {
            let next = deliveries@.take(i + 1);
            assert(next.drop_last() =~= deliveries@.take(i as int));
            assert(next.last() == deliveries@[i as int]);
            assert(write_failed(next, written@, i as int) == lost);
        }
        if lost {
            failed.push(deliveries[i].recipient);
        }
        i += 1;
    }
    assert(deliveries@.take(i as int) =~= deliveries@);
    failed
}

/// The verdict on a routing request once the writes are done: `Ok` when
/// every recipient was served, `PartialDeliveryFailure` otherwise.
pub fn delivery_result(deliveries: &Vec<Delivery>, written: &Vec<bool>) -> (r: Result<
    (),
    RoutingError,
>)
    ensures
        r is Ok <==> forall|i: int| 0 <= i < deliveries@.len() ==> served(deliveries@, written@, i),
        r matches Err(e) ==> e == RoutingError::PartialDeliveryFailure,
{
    let mut i: usize = 0;
    while i < deliveries.len()
        invariant
            i <= deliveries@.len(),
            forall|j: int| 0 <= j < i ==> served(deliveries@, written@, j),
        decreases deliveries@.len() - i,
    {
        if !(deliveries[i].wire.is_some() && i < written.len() && written[i]) {
            assert(!served(deliveries@, written@, i as int));
            return Err(RoutingError::PartialDeliveryFailure);
        }
        i += 1;
    }
    Ok(())
}

/// The deliveries of a broadcast of `payload` to the table `m`.
pub open spec fn broadcast_of(m: Seq<ClientView>, payload: Seq<u8>) -> Seq<DeliveryView> {
    m.map_values(|c: ClientView| delivery_for(c, payload))
}

/// The views of a sequence of deliveries.
pub open spec fn delivery_views(ds: Seq<Delivery>) -> Seq<DeliveryView> {
    ds.map_values(|d: Delivery| d@)
}

/// A broadcast serves every registered client exactly once: its deliveries
/// are those of [`broadcast_of`], one per client in joining order and no
/// recipient twice; and every frame made holds a ciphertext that decrypts
/// back to the payload under its recipient's own session.
pub proof fn lemma_broadcast_once_each(m: Seq<ClientView>, ds: Seq<Delivery>, payload: Seq<u8>)
    requires
        distinct(m),
        one_each(ds, targets_of(m, RoutingPolicy::Broadcast)->Ok_0, payload),
    ensures
        delivery_views(ds) == broadcast_of(m, payload),
        ds.len() == m.len(),
        forall|i: int|
            0 <= i < ds.len() ==> (#[trigger] ds[i]).recipient == m[i].identity && ds[i]@.wire
                == wire_for(m[i], payload),
        forall|i: int, j: int|
            0 <= i < j < ds.len() ==> (#[trigger] ds[i]).recipient != (#[trigger] ds[j]).recipient,
        forall|i: int|
            0 <= i < ds.len() ==> ((#[trigger] ds[i])@.wire matches Some(w) ==> exists|
                ciphertext: Seq<u8>,
            |
                w == frame_of(ciphertext) && #[trigger] decrypted_under(
                    m[i].key,
                    m[i].iv,
                    ciphertext,
                ) == Ok::<Seq<u8>, CryptoError>(payload)),
{
    assert forall|i: int| 0 <= i < ds.len() implies (#[trigger] ds[i]).recipient == m[i].identity
        && ds[i]@.wire == wire_for(m[i], payload) by {
        assert(addressed(ds[i]@, m[i], payload));
    }
    assert(delivery_views(ds) =~= broadcast_of(m, payload)) by {
        assert forall|i: int| 0 <= i < ds.len() implies delivery_views(ds)[i] == broadcast_of(
            m,
            payload,
        )[i] by {
            assert(addressed(ds[i]@, m[i], payload));
        }
    }
    assert forall|i: int, j: int| 0 <= i < j < ds.len() implies (#[trigger] ds[i]).recipient != (
    #[trigger] ds[j]).recipient by {
        assert(addressed(ds[i]@, m[i], payload));
        assert(addressed(ds[j]@, m[j], payload));
        assert(m[i].identity != m[j].identity);
    }
    assert forall|i: int| 0 <= i < ds.len() implies ((#[trigger] ds[i])@.wire matches Some(w)
        ==> exists|ciphertext: Seq<u8>|
        w == frame_of(ciphertext) && #[trigger] decrypted_under(m[i].key, m[i].iv, ciphertext)
            == Ok::<Seq<u8>, CryptoError>(payload)) by {
        assert(addressed(ds[i]@, m[i], payload));
        if let Some(w) = ds[i]@.wire {
            let ciphertext = encrypted_under(m[i].key, m[i].iv, payload)->Ok_0;
            assert(w == frame_of(ciphertext) && decrypted_under(m[i].key, m[i].iv, ciphertext)
                == Ok::<Seq<u8>, CryptoError>(payload));
        }
    }
}

/// A unicast selects its target exactly when the name is connected, and
/// then nobody else; to a name that is not connected it selects nobody and
/// fails with `UnknownRecipient`.
pub proof fn lemma_unicast_target(m: Seq<ClientView>, name: String)
    requires
        distinct(m),
    ensures
        has_username(m, name@) ==> (targets_of(m, RoutingPolicy::Unicast(name)) matches Ok(ts)
            && ts.len() == 1 && ts[0].username == name@ && m.contains(ts[0])),
        !has_username(m, name@) ==> targets_of(m, RoutingPolicy::Unicast(name)) == Err::<
            Seq<ClientView>,
            RoutingError,
        >(RoutingError::UnknownRecipient),
{
    if has_username(m, name@) {
        let p = position_of_username(m, name@);
        assert(m[p].username == name@);
        assert(m.contains(m[p]));
    }
}

/// A client that joins is served from then on, and only from then on: a
/// broadcast to the table after the insert holds the deliveries of a
/// broadcast before it, unchanged and in place, and one more at the end for
/// the newcomer; a broadcast to the table as it was holds none for it.
pub proof fn lemma_broadcast_after_insert(m: Seq<ClientView>, c: ClientView, payload: Seq<u8>)
    requires
        distinct(m),
        inserted(m, c) is Ok,
    ensures
        broadcast_of(inserted(m, c)->Ok_0, payload) == broadcast_of(m, payload).push(
            delivery_for(c, payload),
        ),
        forall|i: int|
            0 <= i < m.len() ==> (#[trigger] broadcast_of(m, payload)[i]).recipient != c.identity,
{
    assert(broadcast_of(m.push(c), payload) =~= broadcast_of(m, payload).push(
        delivery_for(c, payload),
    ));
    assert forall|i: int| 0 <= i < m.len() implies (#[trigger] broadcast_of(
        m,
        payload,
    )[i]).recipient != c.identity by {
        assert(m[i].identity != c.identity);
    }
}

/// A client that left is served no more, and nobody else is touched: a
/// broadcast to the table after a removal holds the deliveries of a
/// broadcast before it but the leaver's, and none is addressed to the
/// leaver. Removing an identity that is not in the table changes nothing.
pub proof fn lemma_broadcast_after_remove(m: Seq<ClientView>, identity: u64, payload: Seq<u8>)
    requires
        distinct(m),
    ensures
        has_identity(m, identity) ==> broadcast_of(removed(m, identity), payload) == broadcast_of(
            m,
            payload,
        ).remove(position_of_identity(m, identity)),
        !has_identity(m, identity) ==> broadcast_of(removed(m, identity), payload) == broadcast_of(
            m,
            payload,
        ),
        forall|i: int|
            0 <= i < removed(m, identity).len() ==> (#[trigger] broadcast_of(
                removed(m, identity),
                payload,
            )[i]).recipient != identity,
{
    lemma_remove_keeps_distinct(m, identity);
    let after = removed(m, identity);
    if has_identity(m, identity) {
        let p = position_of_identity(m, identity);
        assert(broadcast_of(m.remove(p), payload) =~= broadcast_of(m, payload).remove(p));
    }
    assert forall|i: int| 0 <= i < after.len() implies (#[trigger] broadcast_of(
        after,
        payload,
    )[i]).recipient != identity by {
        assert(after[i].identity != identity);
    }
}

/// Two clients join an empty registry and one leaves. While both are
/// registered a broadcast holds exactly two deliveries, the first for the
/// one that joined first and the second for the other, each with the frame
/// of the payload under its own session, and what either frame carries
/// decrypts back to the payload under that session. After the first has
/// left, a broadcast holds exactly one delivery, for the other.
pub proof fn lemma_exchange(
    a: ClientView,
    b: ClientView,
    payload: Seq<u8>,
    both: Seq<Delivery>,
    after: Seq<Delivery>,
)
    requires
        a.username != b.username,
        a.identity != b.identity,
        one_each(
            both,
            targets_of(
                inserted(inserted(Seq::empty(), a)->Ok_0, b)->Ok_0,
                RoutingPolicy::Broadcast,
            )->Ok_0,
            payload,
        ),
        one_each(
            after,
            targets_of(
                removed(inserted(inserted(Seq::empty(), a)->Ok_0, b)->Ok_0, a.identity),
                RoutingPolicy::Broadcast,
            )->Ok_0,
            payload,
        ),
    ensures
        inserted(inserted(Seq::empty(), a)->Ok_0, b) == Ok::<Seq<ClientView>, RegistryError>(
            seq![a, b],
        ),
        removed(seq![a, b], a.identity) == seq![b],
        delivery_views(both) == seq![delivery_for(a, payload), delivery_for(b, payload)],
        delivery_views(after) == seq![delivery_for(b, payload)],
        opens_back(a, payload),
        opens_back(b, payload),
{
    let none = Seq::<ClientView>::empty();
    let one = none.push(a);
    assert(one =~= seq![a]);
    assert(inserted(none, a) == Ok::<Seq<ClientView>, RegistryError>(one));
    assert(!has_username(one, b.username) && !has_identity(one, b.identity));
    let two = one.push(b);
    assert(two =~= seq![a, b]);
    assert(distinct(two));
    assert(two[0] == a && two[1] == b);
    lemma_position_of_identity(two, 0);
    assert(has_identity(two, a.identity));
    assert(two.remove(0) =~= seq![b]);
    assert(addressed(both[0]@, two[0], payload));
    assert(addressed(both[1]@, two[1], payload));
    assert(delivery_views(both) =~= seq![delivery_for(a, payload), delivery_for(b, payload)]);
    assert(seq![b][0] == b);
    assert(addressed(after[0]@, seq![b][0], payload));
    assert(delivery_views(after) =~= seq![delivery_for(b, payload)]);
}

/// A second client with the name of the first is refused, and the first
/// stays the only recipient: it is still found under its name, with its own
/// key material, and a broadcast holds exactly one delivery, for it.
pub proof fn lemma_refused_insert_then_broadcast(
    first: ClientView,
    second: ClientView,
    payload: Seq<u8>,
    ds: Seq<Delivery>,
)
    requires
        second.username == first.username,
        one_each(
            ds,
            targets_of(inserted(Seq::empty(), first)->Ok_0, RoutingPolicy::Broadcast)->Ok_0,
            payload,
        ),
    ensures
        inserted(Seq::empty(), first) == Ok::<Seq<ClientView>, RegistryError>(seq![first]),
        inserted(seq![first], second) == Err::<Seq<ClientView>, RegistryError>(
            RegistryError::UsernameTaken,
        ),
        lookup(seq![first], first.username) == Some(first),
        delivery_views(ds) == seq![delivery_for(first, payload)],
        opens_back(first, payload),
{
    let none = Seq::<ClientView>::empty();
    let one = none.push(first);
    assert(one =~= seq![first]);
    assert(one[0] == first);
    assert(distinct(one));
    assert(has_username(one, second.username));
    lemma_position_of_username(one, 0);
    assert(addressed(ds[0]@, one[0], payload));
    assert(delivery_views(ds) =~= seq![delivery_for(first, payload)]);
}

/// Some delivery to `recipient` had its write fail.
pub open spec fn lost(ds: Seq<Delivery>, written: Seq<bool>, recipient: u64) -> bool {
    exists|i: int|
        0 <= i < ds.len() && write_failed(ds, written, i) && (#[trigger] ds[i]).recipient
            == recipient
}

/// The list of failed writes names exactly the recipients whose write
/// failed, no more and no fewer.
pub proof fn lemma_failed_writes(ds: Seq<Delivery>, written: Seq<bool>)
    ensures
        forall|recipient: u64|
            failed_writes(ds, written).contains(recipient) <==> #[trigger] lost(
                ds,
                written,
                recipient,
            ),
    decreases ds.len(),
{
    let all = failed_writes(ds, written);
    if ds.len() > 0 {
        let init = ds.drop_last();
        let last = ds.len() - 1;
        let before = failed_writes(init, written);
        lemma_failed_writes(init, written);
        assert forall|i: int| 0 <= i < init.len() implies write_failed(init, written, i)
            == write_failed(ds, written, i) && init[i] == ds[i] by {}
        assert forall|recipient: u64| all.contains(recipient) implies #[trigger] lost(
            ds,
            written,
            recipient,
        ) by {
            let k = choose|k: int| 0 <= k < all.len() && all[k] == recipient;
            if k < before.len() {
                assert(before[k] == recipient);
                assert(before.contains(recipient));
                assert(lost(init, written, recipient));
                let i = choose|i: int|
                    0 <= i < init.len() && write_failed(init, written, i) && (
                    #[trigger] init[i]).recipient == recipient;
                assert(write_failed(ds, written, i) && ds[i].recipient == recipient);
            } else {
                assert(write_failed(ds, written, last) && ds[last].recipient == recipient);
            }
        }
        assert forall|recipient: u64| #[trigger] lost(ds, written, recipient) implies all.contains(
            recipient,
        ) by {
            let i = choose|i: int|
                0 <= i < ds.len() && write_failed(ds, written, i) && (#[trigger] ds[i]).recipient
                    == recipient;
            if i < last {
                assert(write_failed(init, written, i) && init[i].recipient == recipient);
                assert(lost(init, written, recipient));
                assert(before.contains(recipient));
                let k = choose|k: int| 0 <= k < before.len() && before[k] == recipient;
                assert(all[k] == recipient);
            } else {
                assert(all[all.len() - 1] == recipient);
            }
        }
    } else {
        assert forall|recipient: u64| !all.contains(recipient) && !lost(
            ds,
            written,
            recipient,
        ) by {}
    }
}

/// Which deliveries are served depends on each write alone: changing the
/// report of one write changes nothing for any other recipient.
pub proof fn lemma_failure_is_local(ds: Seq<Delivery>, written: Seq<bool>, c: int, i: int)
    requires
        0 <= c < written.len(),
        0 <= i < ds.len(),
        i != c,
    ensures
        served(ds, written.update(c, false), i) == served(ds, written, i),
{
}

} // verus!
