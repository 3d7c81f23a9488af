//! Block identifiers and their total order.
//!
//! An identifier names the last character of a block: the replica that
//! wrote it, that character's Lamport clock, and an offset that stays zero.
//! Identifiers are ordered by clock, then by replica name (byte by byte in
//! UTF-8), then by offset.

use crate::crdt::decimal::{decimal, digits};
use vstd::prelude::*;
use vstd::string::StringExecFns;
use vstd::utf8::*;

verus! {

/// What an identifier is: replica name, clock and offset as plain values.
pub struct IdView {
    pub client: Seq<char>,
    pub clock: u64,
    pub offset: usize,
}

/// Identifier of a block, or of one character inside a block.
///
/// The fields are declared in the order in which identifiers compare, so
/// the derived comparisons agree with [`id_lt`].
#[derive(Debug, PartialEq, Eq, PartialOrd, Ord, Hash)]
pub struct NodeId {
    /// Lamport clock of the character named.
    pub clock: u64,
    /// Replica that wrote it.
    pub client_id: String,
    /// Reserved sub-address; zero in every identifier the engine makes.
    pub offset: usize,
}

impl View for NodeId {
    type V = IdView;

    open spec fn view(&self) -> IdView {
        IdView { client: self.client_id@, clock: self.clock, offset: self.offset }
    }
}

/// The view of an optional identifier.
pub open spec fn opt_id_view(o: Option<NodeId>) -> Option<IdView> {
    match o {
        Some(id) => Some(id@),
        None => None,
    }
}

/// How an identifier is written: replica, `@`, clock, `:`, offset.
pub open spec fn id_text(id: IdView) -> Seq<char> {
    id.client + "@"@ + digits(id.clock as nat) + ":"@ + digits(id.offset as nat)
}

/// Lexicographic order on byte strings, decided from index `i` on.
pub open spec fn bytes_lt_from(a: Seq<u8>, b: Seq<u8>, i: int) -> bool
    decreases a.len() - i,
{
    if i < 0 || i >= b.len() {
        false
    } else if i >= a.len() {
        true
    } else if a[i] != b[i] {
        a[i] < b[i]
    } else {
        bytes_lt_from(a, b, i + 1)
    }
}

/// Strict lexicographic order on byte strings.
pub open spec fn bytes_lt(a: Seq<u8>, b: Seq<u8>) -> bool {
    bytes_lt_from(a, b, 0)
}

/// Strict order on replica names: their UTF-8 encodings, byte by byte.
pub open spec fn client_lt(a: Seq<char>, b: Seq<char>) -> bool {
    bytes_lt(encode_utf8(a), encode_utf8(b))
}

/// The strict total order on identifiers: clock, then replica, then offset.
pub open spec fn id_lt(a: IdView, b: IdView) -> bool {
    a.clock < b.clock || (a.clock == b.clock && (client_lt(a.client, b.client) || (a.client
        == b.client && a.offset < b.offset)))
}

proof fn lemma_bytes_lt_from_irreflexive(a: Seq<u8>, i: int)
    requires
        0 <= i,
    ensures
        !bytes_lt_from(a, a, i),
    decreases a.len() - i,
{
    if i < a.len() {
        lemma_bytes_lt_from_irreflexive(a, i + 1);
    }
}

proof fn lemma_bytes_lt_from_transitive(a: Seq<u8>, b: Seq<u8>, c: Seq<u8>, i: int)
    requires
        0 <= i,
        bytes_lt_from(a, b, i),
        bytes_lt_from(b, c, i),
    ensures
        bytes_lt_from(a, c, i),
    decreases a.len() - i,
{
    if i < a.len() && a[i] == b[i] && b[i] == c[i] {
        lemma_bytes_lt_from_transitive(a, b, c, i + 1);
    }
}

proof fn lemma_bytes_lt_from_total(a: Seq<u8>, b: Seq<u8>, i: int)
    requires
        0 <= i <= a.len(),
        i <= b.len(),
        a.subrange(0, i) == b.subrange(0, i),
        !bytes_lt_from(a, b, i),
        !bytes_lt_from(b, a, i),
    ensures
        a == b,
    decreases a.len() - i,
{
    if i < a.len() && i < b.len() {
        assert(a.subrange(0, i + 1) =~= a.subrange(0, i).push(a[i]));
        assert(b.subrange(0, i + 1) =~= b.subrange(0, i).push(b[i]));
        lemma_bytes_lt_from_total(a, b, i + 1);
    } else {
        assert(a =~= a.subrange(0, i));
        assert(b =~= b.subrange(0, i));
    }
}

/// No replica name precedes itself.
pub proof fn lemma_client_lt_irreflexive(a: Seq<char>)
    ensures
        !client_lt(a, a),
{
    lemma_bytes_lt_from_irreflexive(encode_utf8(a), 0);
}

/// The order on replica names is transitive.
pub proof fn lemma_client_lt_transitive(a: Seq<char>, b: Seq<char>, c: Seq<char>)
    requires
        client_lt(a, b),
        client_lt(b, c),
    ensures
        client_lt(a, c),
{
    lemma_bytes_lt_from_transitive(encode_utf8(a), encode_utf8(b), encode_utf8(c), 0);
}

/// Two replica names of which neither precedes the other are the same name.
pub proof fn lemma_client_lt_total(a: Seq<char>, b: Seq<char>)
    requires
        !client_lt(a, b),
        !client_lt(b, a),
    ensures
        a == b,
{
    let x = encode_utf8(a);
    let y = encode_utf8(b);
    assert(x.subrange(0, 0) =~= y.subrange(0, 0));
    lemma_bytes_lt_from_total(x, y, 0);
    encode_utf8_decode_utf8(a);
    encode_utf8_decode_utf8(b);
}

/// No identifier precedes itself.
pub proof fn lemma_id_lt_irreflexive(a: IdView)
    ensures
        !id_lt(a, a),
{
    lemma_client_lt_irreflexive(a.client);
}

/// Of two identifiers at most one precedes the other.
pub proof fn lemma_id_lt_asymmetric(a: IdView, b: IdView)
    requires
        id_lt(a, b),
    ensures
        !id_lt(b, a),
{
    if id_lt(b, a) {
        if client_lt(a.client, b.client) && client_lt(b.client, a.client) {
            lemma_client_lt_transitive(a.client, b.client, a.client);
        }
        lemma_client_lt_irreflexive(a.client);
    }
}

/// The order on identifiers is transitive.
pub proof fn lemma_id_lt_transitive(a: IdView, b: IdView, c: IdView)
    requires
        id_lt(a, b),
        id_lt(b, c),
    ensures
        id_lt(a, c),
{
    if a.clock == b.clock && b.clock == c.clock {
        if client_lt(a.client, b.client) && client_lt(b.client, c.client) {
            lemma_client_lt_transitive(a.client, b.client, c.client);
        }
    }
}

/// Two identifiers of which neither precedes the other are equal.
pub proof fn lemma_id_lt_total(a: IdView, b: IdView)
    requires
        !id_lt(a, b),
        !id_lt(b, a),
    ensures
        a == b,
{
    lemma_client_lt_total(a.client, b.client);
}

/// Whether replica name `a` comes strictly before `b`.
pub fn client_precedes(a: &str, b: &str) -> (r: bool)
    ensures
        r == client_lt(a@, b@),
{
    let x = a.as_bytes();
    let y = b.as_bytes();
    let mut i: usize = 0;
    while i < x.len() && i < y.len()
        invariant
            i <= x@.len(),
            i <= y@.len(),
            x@ == encode_utf8(a@),
            y@ == encode_utf8(b@),
            bytes_lt(x@, y@) == bytes_lt_from(x@, y@, i as int),
        decreases x@.len() - i,
    {
        if x[i] != y[i] {
            return x[i] < y[i];
        }
        i = i + 1;
    }
    i < y.len()
}

impl NodeId {
    /// An identifier from its three parts.
    pub fn new(client_id: String, clock: u64, offset: usize) -> (id: Self)
        ensures
            id.client_id == client_id,
            id.clock == clock,
            id.offset == offset,
    {
        NodeId { clock, client_id, offset }
    }

    /// Whether `self` comes strictly before `other` in the identifier order.
    pub fn precedes(&self, other: &NodeId) -> (r: bool)
        ensures
            r == id_lt(self@, other@),
    {
        if self.clock != other.clock {
            self.clock < other.clock
        } else if client_precedes(self.client_id.as_str(), other.client_id.as_str()) {
            true
        } else if self.client_id == other.client_id {
            self.offset < other.offset
        } else {
            false
        }
    }

    /// The identifier written out, as in `client1@42:0`.
    pub fn to_string(&self) -> (text: String)
        ensures
            text@ == id_text(self@),
    {
        let mut text = self.client_id.clone();
        text.append("@");
        text.append(decimal(self.clock).as_str());
        text.append(":");
        text.append(decimal(self.offset as u64).as_str());
        text
    }

    /// Whether the two identifiers are the same.
    pub fn same(&self, other: &NodeId) -> (r: bool)
        ensures
            r == (self@ == other@),
    {
        self.clock == other.clock && self.offset == other.offset && self.client_id
            == other.client_id
    }
}

impl Clone for NodeId {
    fn clone(&self) -> (id: Self)
        ensures
            id == *self,
    {
        NodeId { clock: self.clock, client_id: self.client_id.clone(), offset: self.offset }
    }
}

} // verus!
