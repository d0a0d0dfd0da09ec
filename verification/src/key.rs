//! What a type must provide to serve as a key of the table.

use std::collections::hash_map::DefaultHasher;
use std::hash::Hasher;
use vstd::prelude::*;
use vstd::std_specs::hash::DefaultHasherAdditionalSpecFns;

verus! {

/// A key of the table.
///
/// Two keys are the same key exactly when their views are equal, and the
/// bytes that a key feeds to a hasher are a function of its view alone. This
/// is what makes a key land on the same probe path every time it is hashed.
pub trait TableKey: View + Sized {
    /// The byte strings that a key with view `v` writes to a hasher, in order.
    spec fn writes(v: Self::V) -> Seq<Seq<u8>>;

    /// Feeds the key to `state`.
    fn feed(&self, state: &mut DefaultHasher)
        ensures
            final(state)@ == old(state)@ + Self::writes(self@),
    ;

    /// Whether `self` and `other` are the same key.
    fn same(&self, other: &Self) -> (b: bool)
        ensures
            b <==> self@ == other@,
    ;
}

/// The hash of the key with view `v`: what a fresh `DefaultHasher` yields
/// after the key was fed to it.
pub open spec fn spec_hash<Key: TableKey>(v: Key::V) -> u64 {
    DefaultHasher::spec_finish(Key::writes(v))
}

/// Hashes `key` with a fresh `DefaultHasher`.
pub fn hash_key<Key: TableKey>(key: &Key) -> (h: u64)
    ensures
        h == spec_hash::<Key>(key@),
{
    let mut hasher = DefaultHasher::new();
    key.feed(&mut hasher);
    assert(hasher@ =~= Key::writes(key@));
    hasher.finish()
}

impl TableKey for u32 {
    open spec fn writes(v: u32) -> Seq<Seq<u8>> {
        seq![vstd::bytes::spec_u32_to_le_bytes(v)]
    }

    fn feed(&self, state: &mut DefaultHasher) {
        let bytes = vstd::bytes::u32_to_le_bytes(*self);
        state.write(bytes.as_slice());
        assert(state@ =~= old(state)@ + Self::writes(self@));
    }

    fn same(&self, other: &Self) -> (b: bool) {
        *self == *other
    }
}

impl TableKey for u64 {
    open spec fn writes(v: u64) -> Seq<Seq<u8>> {
        seq![vstd::bytes::spec_u64_to_le_bytes(v)]
    }

    fn feed(&self, state: &mut DefaultHasher) {
        let bytes = vstd::bytes::u64_to_le_bytes(*self);
        state.write(bytes.as_slice());
        assert(state@ =~= old(state)@ + Self::writes(self@));
    }

    fn same(&self, other: &Self) -> (b: bool) {
        *self == *other
    }
}

impl TableKey for usize {
    open spec fn writes(v: usize) -> Seq<Seq<u8>> {
        seq![vstd::bytes::spec_u64_to_le_bytes(v as u64)]
    }

    fn feed(&self, state: &mut DefaultHasher) {
        let bytes = vstd::bytes::u64_to_le_bytes(*self as u64);
        state.write(bytes.as_slice());
        assert(state@ =~= old(state)@ + Self::writes(self@));
    }

    fn same(&self, other: &Self) -> (b: bool) {
        *self == *other
    }
}

/// The byte strings that a text writes to a hasher: its UTF-8 encoding and
/// a terminator. The byte `0xff` occurs in no encoding, so two texts in a
/// row never write what two other texts write.
pub open spec fn text_writes(v: Seq<char>) -> Seq<Seq<u8>> {
    seq![vstd::utf8::encode_utf8(v), seq![0xffu8]]
}

/// Feeds the text `s` to `state`.
fn feed_text(s: &str, state: &mut DefaultHasher)
    ensures
        final(state)@ == old(state)@ + text_writes(s@),
{
    let terminator: [u8; 1] = [0xff];
    state.write(s.as_bytes());
    state.write(terminator.as_slice());
    assert(terminator@ =~= seq![0xffu8]);
    assert(state@ =~= old(state)@ + text_writes(s@));
}

impl TableKey for String {
    open spec fn writes(v: Seq<char>) -> Seq<Seq<u8>> {
        text_writes(v)
    }

    fn feed(&self, state: &mut DefaultHasher) {
        feed_text(self.as_str(), state);
    }

    fn same(&self, other: &Self) -> (b: bool) {
        *self == *other
    }
}

impl<'a> TableKey for &'a str {
    open spec fn writes(v: Seq<char>) -> Seq<Seq<u8>> {
        text_writes(v)
    }

    fn feed(&self, state: &mut DefaultHasher) {
        feed_text(self, state);
    }

    fn same(&self, other: &Self) -> (b: bool) {
        let a = self.as_bytes();
        let b = other.as_bytes();
        proof {
            // Equal encodings decode to equal texts.
            vstd::utf8::encode_utf8_decode_utf8(self@);
            vstd::utf8::encode_utf8_decode_utf8(other@);
        }
        if a.len() != b.len() {
            return false;
        }
        let mut i: usize = 0;
        while i < a.len()
            invariant
                i <= a.len(),
                a.len() == b.len(),
                a@ == vstd::utf8::encode_utf8(self@),
                b@ == vstd::utf8::encode_utf8(other@),
                forall|j: int| 0 <= j < i ==> a@[j] == b@[j],
            decreases a.len() - i,
        {
            if a[i] != b[i] {
                return false;
            }
            i += 1;
        }
        assert(a@ =~= b@);
        true
    }
}

/// A pair of keys is a key: it feeds its first part and then its second,
/// and two pairs are the same key when both parts are.
impl<A: TableKey, B: TableKey> TableKey for (A, B) {
    open spec fn writes(v: (A::V, B::V)) -> Seq<Seq<u8>> {
        A::writes(v.0) + B::writes(v.1)
    }

    fn feed(&self, state: &mut DefaultHasher) {
        self.0.feed(state);
        self.1.feed(state);
        assert(state@ =~= old(state)@ + Self::writes(self@));
    }

    fn same(&self, other: &Self) -> (b: bool) {
        self.0.same(&other.0) && self.1.same(&other.1)
    }
}

} // verus!
