//! Item identifiers: a Lamport clock and the client that wrote the item.

use crate::crdt::decimal::{decimal, digits};
use vstd::prelude::*;
use vstd::string::StringExecFns;

verus! {

/// Identifier of an item. Identifiers are ordered by clock, then client;
/// the fields are declared in that order so the derived comparisons agree
/// with [`item_id_lt`].
#[derive(Debug, Clone, Copy, PartialEq, Eq, PartialOrd, Ord, Hash, Structural)]
pub struct ItemId {
    /// Lamport clock at creation.
    pub clock: u64,
    /// Client that created the item.
    pub client: u64,
}

/// The strict total order on item identifiers: clock first, then client.
pub open spec fn item_id_lt(a: ItemId, b: ItemId) -> bool {
    a.clock < b.clock || (a.clock == b.clock && a.client < b.client)
}

impl ItemId {
    /// An identifier for `client` at `clock`.
    pub fn new(client: u64, clock: u64) -> (id: Self)
        ensures
            id.client == client,
            id.clock == clock,
    {
        ItemId { clock, client }
    }

    /// Whether this is a root item: one written at clock zero.
    pub fn is_root(&self) -> (root: bool)
        ensures
            root == (self.clock == 0),
    {
        self.clock == 0
    }

    /// The identifier written out: client, `:`, clock.
    pub fn to_string(&self) -> (text: String)
        ensures
            text@ == digits(self.client as nat) + ":"@ + digits(self.clock as nat),
    {
        let mut text = decimal(self.client);
        text.append(":");
        text.append(decimal(self.clock).as_str());
        text
    }

    /// Whether `self` comes strictly before `other`.
    pub fn precedes(&self, other: &ItemId) -> (r: bool)
        ensures
            r == item_id_lt(*self, *other),
    {
        self.clock < other.clock || (self.clock == other.clock && self.client < other.client)
    }
}

/// The order on item identifiers is a strict total order.
pub proof fn lemma_item_id_order(a: ItemId, b: ItemId, c: ItemId)
    ensures
        !item_id_lt(a, a),
        item_id_lt(a, b) && item_id_lt(b, c) ==> item_id_lt(a, c),
        item_id_lt(a, b) || item_id_lt(b, a) || a == b,
{
}

} // verus!
