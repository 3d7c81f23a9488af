//! Items of the simple text list: content with origins and a tombstone.

use super::id::ItemId;
use vstd::prelude::*;
use vstd::string::StringExecFns;
use vstd::utf8::*;

verus! {

/// One item of the text list: a character or a run merged from
/// consecutive characters of one client.
#[derive(Debug)]
pub struct Item {
    /// Identifier of the item.
    pub id: ItemId,
    /// The characters of the item.
    pub content: String,
    /// The item this one was inserted after.
    pub left: Option<ItemId>,
    /// The item this one was inserted before.
    pub right: Option<ItemId>,
    /// Tombstone flag.
    pub deleted: bool,
    /// The client that wrote the item: always `id.client`.
    pub client: u64,
}

/// A string of one character. Calls `char::to_string`; trusted: the string
/// holds that character and nothing else.
#[verifier::external_body]
fn char_string(ch: char) -> (s: String)
    ensures
        s@ == seq![ch],
{
    ch.to_string()
}

impl Item {
    /// A live item.
    pub fn new(id: ItemId, content: String, left: Option<ItemId>, right: Option<ItemId>) -> (item: Self)
        ensures
            item.id == id,
            item.content == content,
            item.left == left,
            item.right == right,
            !item.deleted,
            item.client == id.client,
    {
        Item { client: id.client, id, content, left, right, deleted: false }
    }

    /// A live item of one character.
    pub fn new_char(id: ItemId, ch: char, left: Option<ItemId>, right: Option<ItemId>) -> (item: Self)
        ensures
            item.id == id,
            item.content@ == seq![ch],
            item.left == left,
            item.right == right,
            !item.deleted,
            item.client == id.client,
    {
        Item::new(id, char_string(ch), left, right)
    }

    /// The length of the content in bytes of UTF-8.
    pub fn len(&self) -> (n: usize)
        ensures
            n == encode_utf8(self.content@).len(),
    {
        self.content.as_str().as_bytes().len()
    }

    /// Whether the item holds no content.
    pub fn is_empty(&self) -> (empty: bool)
        ensures
            empty == (self.content@.len() == 0),
    {
        self.content.as_str().is_empty()
    }

    /// Turns the item into a tombstone; nothing else changes.
    pub fn delete(&mut self)
        ensures
            final(self).deleted,
            final(self).id == old(self).id,
            final(self).content == old(self).content,
            final(self).left == old(self).left,
            final(self).right == old(self).right,
            final(self).client == old(self).client,
    {
        self.deleted = true;
    }

    /// Whether `other` can be merged into this item: same client, same
    /// tombstone flag, the next clock, and this item's right neighbour.
    pub fn can_merge_with(&self, other: &Item) -> (r: bool)
        ensures
            r == (self.client == other.client && self.deleted == other.deleted && self.id.clock + 1
                == other.id.clock && self.right == Some(other.id)),
    {
        let adjacent = match self.right {
            Some(next) => next.clock == other.id.clock && next.client == other.id.client,
            None => false,
        };
        self.client == other.client && self.deleted == other.deleted && other.id.clock > 0
            && self.id.clock == other.id.clock - 1 && adjacent
    }

    /// Appends `other`'s content and takes over its right neighbour.
    pub fn merge(&mut self, other: &Item)
        ensures
            final(self).content@ == old(self).content@ + other.content@,
            final(self).right == other.right,
            final(self).id == old(self).id,
            final(self).left == old(self).left,
            final(self).deleted == old(self).deleted,
            final(self).client == old(self).client,
    {
        self.content.append(other.content.as_str());
        self.right = other.right;
    }
}

impl Clone for Item {
    fn clone(&self) -> (item: Self)
        ensures
            item == *self,
    {
        Item {
            id: self.id,
            content: self.content.clone(),
            left: self.left,
            right: self.right,
            deleted: self.deleted,
            client: self.client,
        }
    }
}

} // verus!
