//! The registry of live connections: a map from a connection's identifier to
//! the handle on which text for that connection is queued.
//!
//! The registry decides who receives what. Queueing a text on a handle is
//! the caller's part: the registry hands out deliveries, each naming one
//! registered connection and the text for it, and the handle to perform it
//! with.

use std::collections::HashMap;
use vstd::prelude::*;
use vstd::std_specs::iter::IteratorSpec;

verus! {

broadcast use vstd::std_specs::hash::group_hash_axioms;

/// A text to queue on the outbound handle of one connection.
#[derive(Debug, PartialEq, Eq)]
pub struct Delivery {
    pub target: u128,
    pub text: String,
}

/// The deliveries carry `text` to each connection of `ids` exactly once, and
/// to nobody else.
pub open spec fn reaches_each(list: Seq<Delivery>, ids: Set<u128>, text: Seq<char>) -> bool {
    &&& list.len() == ids.len()
    &&& forall|i: int| 0 <= i < list.len() ==> ids.contains(#[trigger] list[i].target)
    &&& forall|i: int| 0 <= i < list.len() ==> (#[trigger] list[i]).text@ == text
    &&& forall|i: int, j: int|
        0 <= i < j < list.len() ==> (#[trigger] list[i]).target != (#[trigger] list[j]).target
    &&& forall|id: u128|
        ids.contains(id) ==> exists|i: int| 0 <= i < list.len() && #[trigger] list[i].target == id
}

/// Identifier `id` is the target of exactly one of the deliveries.
pub open spec fn reached_once(list: Seq<Delivery>, id: u128) -> bool {
    exists|i: int|
        0 <= i < list.len() && (#[trigger] list[i]).target == id && forall|j: int|
            0 <= j < list.len() && (#[trigger] list[j]).target == id ==> j == i
}

/// One delivery of `message` for each identifier of `ids`, in their order.
pub fn fan_out(ids: &Vec<u128>, message: &str) -> (list: Vec<Delivery>)
    ensures
        list@.len() == ids@.len(),
        forall|j: int|
            0 <= j < ids@.len() ==> (#[trigger] list@[j]).target == ids@[j] && list@[j].text@
                == message@,
{
    let mut list: Vec<Delivery> = Vec::new();
    let mut i: usize = 0;
    while i < ids.len()
        invariant
            i <= ids.len(),
            list@.len() == i,
            forall|j: int|
                0 <= j < i ==> (#[trigger] list@[j]).target == ids@[j] && list@[j].text@
                    == message@,
        decreases ids.len() - i,
    {
        list.push(Delivery { target: ids[i], text: message.to_string() });
        i += 1;
    }
    list
}

/// Deliveries that follow a list of identifiers, which names each
/// connection of a set once, reach each connection of the set.
pub proof fn lemma_fan_out_reaches_each(
    ids: Seq<u128>,
    all: Set<u128>,
    list: Seq<Delivery>,
    text: Seq<char>,
)
    requires
        ids.no_duplicates(),
        ids.to_set() == all,
        ids.len() == all.len(),
        list.len() == ids.len(),
        forall|j: int|
            0 <= j < ids.len() ==> (#[trigger] list[j]).target == ids[j] && list[j].text@ == text,
    ensures
        reaches_each(list, all, text),
{
    assert forall|id: u128| all.contains(id) implies exists|k: int|
        0 <= k < list.len() && #[trigger] list[k].target == id by {
        assert(ids.to_set().contains(id));
        let k = choose|k: int| 0 <= k < ids.len() && ids[k] == id;
        assert(list[k].target == id);
    }
    assert forall|k: int| 0 <= k < list.len() implies all.contains(#[trigger] list[k].target) by {
        assert(ids.to_set().contains(ids[k]));
    }
}

/// Whether an identifier has the marks of a random one: the version
/// digit is 4, and the two variant bits are 1 and 0.
pub open spec fn is_random_identifier(id: u128) -> bool {
    id & 0x0000_0000_0000_f000_c000_0000_0000_0000 == 0x0000_0000_0000_4000_8000_0000_0000_0000
}

/// `Uuid::new_v4` of the uuid crate, read as the 128-bit number that
/// `Uuid::as_u128` gives. The identifier is random, so nothing is claimed
/// of it but the version and variant marks that every outcome carries.
#[verifier::external_body]
fn fresh_identifier() -> (id: u128)
    ensures
        is_random_identifier(id),
{
    uuid::Uuid::new_v4().as_u128()
}

/// The registry of live connections.
pub struct SocketManager<H> {
    sockets: HashMap<u128, H>,
}

impl<H> SocketManager<H> {
    /// The handle of each registered connection, by identifier.
    pub closed spec fn view(&self) -> Map<u128, H> {
        self.sockets@
    }

    /// A registry without connections.
    pub fn new() -> (manager: Self)
        ensures
            manager@ == Map::<u128, H>::empty(),
    {
        SocketManager { sockets: HashMap::new() }
    }

    /// The number of registered connections.
    pub fn len(&self) -> (count: usize)
        ensures
            count == self@.dom().len(),
            self@.dom().finite(),
    {
        self.sockets.len()
    }

    /// Whether a connection is registered.
    pub fn contains(&self, id: u128) -> (known: bool)
        ensures
            known == self@.contains_key(id),
    {
        self.sockets.contains_key(&id)
    }

    /// The outbound handle of a connection, if it is registered.
    pub fn handle(&self, id: u128) -> (handle: Option<&H>)
        ensures
            handle is Some <==> self@.contains_key(id),
            handle matches Some(h) ==> *h == self@[id],
    {
        self.sockets.get(&id)
    }

    /// Files a connection under a given identifier. A connection that was
    /// filed under it before is replaced.
    pub fn register(&mut self, id: u128, socket: H)
        ensures
            final(self)@ == old(self)@.insert(id, socket),
    {
        let _ = self.sockets.insert(id, socket);
    }

    /// Deletes a connection. Deleting one that is not registered changes
    /// nothing.
    pub fn remove(&mut self, id: u128) -> (removed: bool)
        ensures
            final(self)@ == old(self)@.remove(id),
            removed == old(self)@.contains_key(id),
    {
        self.sockets.remove(&id).is_some()
    }

    /// The identifiers of all registered connections, each once, in no
    /// particular order.
    pub fn enumerate(&self) -> (ids: Vec<u128>)
        ensures
            ids@.no_duplicates(),
            ids@.to_set() == self@.dom(),
            ids@.len() == self@.dom().len(),
            self@.dom().finite(),
    {
        let mut ids: Vec<u128> = Vec::new();
        let ghost keys = self.sockets.keys().remaining();
        for id in it: self.sockets.keys()
            invariant
                it.seq() == keys,
                ids@.len() == it.index(),
                forall|j: int| 0 <= j < ids@.len() ==> ids@[j] == *keys[j],
        {
            ids.push(*id);
        }
        proof {
            assert(ids@ =~= keys.unref());
        }
        ids
    }

    /// Registers a connection under a fresh random identifier and returns
    /// the identifier. Should the identifier be in use, the connection takes
    /// the place of the one that had it.
    pub fn add(&mut self, socket: H) -> (id: u128)
        ensures
            final(self)@ == old(self)@.insert(id, socket),
            is_random_identifier(id),
    {
        let id = fresh_identifier();
        self.register(id, socket);
        id
    }

    /// One delivery of `message` for every registered connection: as many
    /// deliveries as there are connections, each connection the target of
    /// exactly one, and nobody else of any. The registry stays as it is.
    pub fn broadcast(&self, message: &str) -> (list: Vec<Delivery>)
        ensures
            reaches_each(list@, self@.dom(), message@),
            list@.len() == self@.dom().len(),
            forall|id: u128| self@.contains_key(id) ==> reached_once(list@, id),
            self@.dom().finite(),
    {
        let ids = self.enumerate();
        let list = fan_out(&ids, message);
        proof {
            lemma_fan_out_reaches_each(ids@, self@.dom(), list@, message@);
            lemma_each_is_reached_once(list@, self@.dom(), message@);
        }
        list
    }

    /// The delivery of `message` to one connection, or nothing if the
    /// connection is not registered.
    pub fn direct_message(&self, id: u128, message: String) -> (delivery: Option<Delivery>)
        ensures
            delivery is Some <==> self@.contains_key(id),
            delivery matches Some(d) ==> d.target == id && d.text@ == message@,
    {
        if self.contains(id) {
            Some(Delivery { target: id, text: message })
        } else {
            None
        }
    }
}

/// Deliveries that reach each of N connections are N deliveries, and each
/// connection is the target of exactly one of them.
pub proof fn lemma_each_is_reached_once(list: Seq<Delivery>, all: Set<u128>, text: Seq<char>)
    requires
        reaches_each(list, all, text),
    ensures
        list.len() == all.len(),
        forall|id: u128| all.contains(id) ==> reached_once(list, id),
        forall|id: u128| !all.contains(id) ==> forall|i: int|
            0 <= i < list.len() ==> (#[trigger] list[i]).target != id,
{
    assert forall|id: u128| all.contains(id) implies reached_once(list, id) by {
        let i = choose|i: int| 0 <= i < list.len() && #[trigger] list[i].target == id;
        assert forall|j: int| 0 <= j < list.len() && (#[trigger] list[j]).target == id implies j
            == i by {
            if j < i {
                assert(list[j].target != list[i].target);
            } else if i < j {
                assert(list[i].target != list[j].target);
            }
        }
    }
}

/// What reaches each connection of a registry after a removal does not
/// reach the removed connection, reaches every other registered connection
/// exactly once, and is one delivery for each connection that is left.
pub proof fn lemma_removed_is_not_reached<H>(
    before: Map<u128, H>,
    id: u128,
    list: Seq<Delivery>,
    text: Seq<char>,
)
    requires
        before.dom().finite(),
        reaches_each(list, before.remove(id).dom(), text),
    ensures
        forall|i: int| 0 <= i < list.len() ==> (#[trigger] list[i]).target != id,
        forall|other: u128|
            before.contains_key(other) && other != id ==> reached_once(list, other),
        before.contains_key(id) ==> list.len() == before.dom().len() - 1,
        !before.contains_key(id) ==> list.len() == before.dom().len(),
{
    assert(before.remove(id).dom() =~= before.dom().remove(id));
    lemma_each_is_reached_once(list, before.remove(id).dom(), text);
}

/// Removing a connection a second time changes nothing: neither the
/// registered connections nor their number.
pub proof fn lemma_remove_is_idempotent<H>(before: Map<u128, H>, id: u128)
    ensures
        before.remove(id).remove(id) == before.remove(id),
        !before.remove(id).contains_key(id),
        before.remove(id).remove(id).dom().len() == before.remove(id).dom().len(),
{
    assert(before.remove(id).remove(id) =~= before.remove(id));
}

} // verus!
