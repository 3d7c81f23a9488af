//! The text mirror: a rope that shadows the visible text.
//!
//! The rope is kept behind a handful of calls; what it holds is known to
//! the verifier only as [`rope_text`].

use ropey::Rope;
use vstd::prelude::*;
use vstd::utf8::*;

verus! {

#[verifier::external_type_specification]
#[verifier::external_body]
pub struct ExRope(ropey::Rope);

/// The characters that a rope holds, in order.
pub uninterp spec fn rope_text(rope: Rope) -> Seq<char>;

/// `text` with `inserted` put in before character `at`.
pub open spec fn spliced(text: Seq<char>, at: int, inserted: Seq<char>) -> Seq<char> {
    text.take(at) + inserted + text.skip(at)
}

/// `text` without its characters `start..end`.
pub open spec fn cut(text: Seq<char>, start: int, end: int) -> Seq<char> {
    text.take(start) + text.skip(end)
}

/// An empty rope. Calls `Rope::new`; trusted: it holds no text.
#[verifier::external_body]
pub(crate) fn rope_new() -> (rope: Rope)
    ensures
        rope_text(rope) == Seq::<char>::empty(),
{
    Rope::new()
}

/// A rope built from a string. Calls `Rope::from_str`; trusted: it holds
/// exactly the string's characters.
#[verifier::external_body]
pub(crate) fn rope_from_str(text: &str) -> (rope: Rope)
    ensures
        rope_text(rope) == text@,
{
    Rope::from_str(text)
}

/// A second handle on the same text. Calls `Rope::clone`; trusted: the
/// copy holds the same characters.
#[verifier::external_body]
pub(crate) fn rope_clone(rope: &Rope) -> (copy: Rope)
    ensures
        rope_text(copy) == rope_text(*rope),
{
    rope.clone()
}

/// The number of characters. Calls `Rope::len_chars`; trusted: it is the
/// length of the rope's text.
#[verifier::external_body]
pub(crate) fn rope_len_chars(rope: &Rope) -> (n: usize)
    ensures
        n == rope_text(*rope).len(),
{
    rope.len_chars()
}

/// The rope's text as a string. Calls `Rope`'s `Display` through
/// `to_string`; trusted: the string holds the rope's characters.
#[verifier::external_body]
pub(crate) fn rope_to_string(rope: &Rope) -> (text: String)
    ensures
        text@ == rope_text(*rope),
{
    rope.to_string()
}

/// The byte index at which character `char_idx` starts. Calls
/// `Rope::char_to_byte`, which panics past the end; trusted: the result is
/// the UTF-8 length of the characters before `char_idx`.
#[verifier::external_body]
pub(crate) fn rope_char_to_byte(rope: &Rope, char_idx: usize) -> (byte_idx: usize)
    requires
        char_idx <= rope_text(*rope).len(),
    ensures
        byte_idx == encode_utf8(rope_text(*rope).take(char_idx as int)).len(),
{
    rope.char_to_byte(char_idx)
}

/// Inserts `text` before character `char_idx`. Calls `Rope::insert`, which
/// panics past the end; trusted: the text is spliced in at that index.
#[verifier::external_body]
pub(crate) fn rope_insert(rope: &mut Rope, char_idx: usize, text: &str)
    requires
        char_idx <= rope_text(*old(rope)).len(),
    ensures
        rope_text(*final(rope)) == spliced(rope_text(*old(rope)), char_idx as int, text@),
{
    rope.insert(char_idx, text)
}

/// Removes the characters `start..end`. Calls `Rope::remove`, which panics
/// on a reversed range or past the end; trusted: exactly that range goes.
#[verifier::external_body]
pub(crate) fn rope_remove(rope: &mut Rope, start: usize, end: usize)
    requires
        start <= end <= rope_text(*old(rope)).len(),
    ensures
        rope_text(*final(rope)) == cut(rope_text(*old(rope)), start as int, end as int),
{
    rope.remove(start..end)
}

} // verus!
