//! The key type: an immutable string key over a shared byte buffer.

use vstd::prelude::*;
use vstd::slice::slice_to_vec;
use vstd::string::StrSliceExecFns;
use vstd::string::StringExecFns;
use vstd::utf8::decode_utf8;
use vstd::utf8::decode_utf8_encode_utf8;
use vstd::utf8::encode_utf8;
use vstd::utf8::encode_utf8_decode_utf8;
use vstd::utf8::encode_utf8_valid_utf8;
use vstd::utf8::valid_utf8;
use std::borrow::Cow;
use bytes::Bytes;

use crate::buffer::bytes_as_slice;
use crate::buffer::bytes_clone;
use crate::buffer::bytes_from_vec;
use crate::buffer::contents;
use crate::buffer::str_from_utf8;
use crate::buffer::vec_into_boxed_slice;
use crate::order::byte_lex_lt;
use crate::order::char_lex_lt;
use crate::order::lemma_lex_skip;
use crate::order::lemma_utf8_order;

verus! {

/// An immutable string key backed by a shared, reference-counted byte buffer.
///
/// The buffer always holds valid UTF-8: every constructor starts from text,
/// and no operation ever mutates the bytes. Reads therefore reinterpret the
/// bytes as text without re-validating them. Cloning shares the buffer
/// instead of copying it.
#[derive(Debug, Eq, Ord)]
pub struct KeyString {
    data: Bytes,
}

impl View for KeyString {
    type V = Seq<u8>;

    /// A key is modelled by the byte sequence its buffer holds.
    closed spec fn view(&self) -> Seq<u8> {
        contents(self.data)
    }
}

impl KeyString {
    /// The invariant every reachable key satisfies: its bytes are the UTF-8
    /// encoding of some character sequence.
    #[verifier::type_invariant]
    pub open spec fn wf(self) -> bool {
        valid_utf8(self@)
    }

    /// The text the key stands for.
    pub open spec fn text(&self) -> Seq<char> {
        decode_utf8(self@)
    }

    /// Builds a key from a borrowed text slice, copying it into a fresh
    /// shared buffer.
    pub fn new(s: &str) -> (k: KeyString)
        ensures
            k@ == encode_utf8(s@),
            k.text() == s@,
    {
        let v = s.as_bytes_vec();
        let data = bytes_from_vec(v);
        proof {
            encode_utf8_valid_utf8(s@);
            encode_utf8_decode_utf8(s@);
        }
        KeyString { data }
    }

    /// Builds a key from an owned text value.
    pub fn from_string(s: String) -> (k: KeyString)
        ensures
            k@ == encode_utf8(s@),
            k.text() == s@,
    {
        KeyString::new(s.as_str())
    }

    /// Builds a key from a copy-on-write text value, borrowed or owned.
    pub fn from_cow(s: Cow<'_, str>) -> (k: KeyString)
        ensures
            k@ == encode_utf8(s@),
            k.text() == s@,
    {
        match s {
            Cow::Borrowed(b) => KeyString::new(b),
            Cow::Owned(o) => KeyString::from_string(o),
        }
    }

    /// The byte length of the key (not the character count).
    pub fn len(&self) -> (n: usize)
        ensures
            n == self@.len(),
    {
        bytes_as_slice(&self.data).len()
    }

    /// True when the key holds no bytes, hence no text.
    pub fn is_empty(&self) -> (e: bool)
        ensures
            e == (self@.len() == 0),
    {
        self.len() == 0
    }

    /// Borrows the contents as a text slice. No validation happens here: the
    /// type invariant guarantees the bytes are valid UTF-8.
    pub fn as_str(&self) -> (s: &str)
        ensures
            s@ == self.text(),
            encode_utf8(s@) == self@,
    {
        proof {
            use_type_invariant(&*self);
        }
        let s = str_from_utf8(bytes_as_slice(&self.data));
        proof {
            encode_utf8_decode_utf8(s@);
        }
        s
    }

    /// A cheap shared-reference clone of the backing buffer; no bytes are
    /// copied.
    pub fn to_bytes(&self) -> (b: Bytes)
        ensures
            contents(b) == self@,
    {
        bytes_clone(&self.data)
    }

    /// Copies the contents out as an owned boxed byte slice.
    pub fn into_bytes(self) -> (b: Box<[u8]>)
        ensures
            b@ == self@,
    {
        let v = slice_to_vec(bytes_as_slice(&self.data));
        vec_into_boxed_slice(v)
    }

    /// Copies the contents out as an owned text value.
    pub fn into_string(self) -> (s: String)
        ensures
            s@ == self.text(),
    {
        String::from_str(self.as_str())
    }

    /// Compares the key against a plain text value, as container lookups
    /// keyed by borrowed text do.
    pub fn eq_str(&self, other: &str) -> (r: bool)
        ensures
            r == (self.text() == other@),
            r == (self@ == encode_utf8(other@)),
    {
        proof {
            use_type_invariant(&*self);
        }
        let r = slice_eq_bytes(bytes_as_slice(&self.data), other.as_bytes());
        proof {
            if self@ == encode_utf8(other@) {
                encode_utf8_decode_utf8(other@);
            }
            if self.text() == other@ {
                decode_utf8_encode_utf8(self@);
            }
        }
        r
    }
}

impl Clone for KeyString {
    /// Cloning shares the backing buffer and keeps the contents.
    fn clone(&self) -> (r: Self)
        ensures
            r@ == self@,
    {
        proof {
            use_type_invariant(&*self);
        }
        KeyString { data: bytes_clone(&self.data) }
    }
}

impl PartialEq for KeyString {
    fn eq(&self, other: &Self) -> (r: bool) {
        slice_eq_bytes(bytes_as_slice(&self.data), bytes_as_slice(&other.data))
    }
}

impl vstd::std_specs::cmp::PartialEqSpecImpl for KeyString {
    open spec fn obeys_eq_spec() -> bool {
        true
    }

    /// Keys are equal exactly when their byte contents are.
    open spec fn eq_spec(&self, other: &KeyString) -> bool {
        self@ == other@
    }
}

impl PartialOrd for KeyString {
    fn partial_cmp(&self, other: &Self) -> (r: Option<core::cmp::Ordering>) {
        Some(slice_cmp_bytes(bytes_as_slice(&self.data), bytes_as_slice(&other.data)))
    }
}

impl vstd::std_specs::cmp::PartialOrdSpecImpl for KeyString {
    open spec fn obeys_partial_cmp_spec() -> bool {
        true
    }

    /// Keys order lexicographically by their byte contents, which for valid
    /// UTF-8 is the standard text ordering (see
    /// [`lemma_order_text_consistency`]).
    open spec fn partial_cmp_spec(&self, other: &KeyString) -> Option<core::cmp::Ordering> {
        Some(
            if self@ == other@ {
                core::cmp::Ordering::Equal
            } else if byte_lex_lt(self@, other@) {
                core::cmp::Ordering::Less
            } else {
                core::cmp::Ordering::Greater
            },
        )
    }
}

/// Byte-wise equality of two slices.
fn slice_eq_bytes(a: &[u8], b: &[u8]) -> (r: bool)
    ensures
        r == (a@ == b@),
{
    if a.len() != b.len() {
        return false;
    }
    let n = a.len();
    let mut i: usize = 0;
    while i < n
        invariant
            0 <= i <= n,
            n == a@.len(),
            n == b@.len(),
            forall|j: int| 0 <= j < i ==> a@[j] == b@[j],
        decreases n - i,
    {
        if a[i] != b[i] {
            return false;
        }
        i = i + 1;
    }
    proof {
        assert(a@ =~= b@);
    }
    true
}

/// Lexicographic comparison of two slices, byte by byte.
fn slice_cmp_bytes(a: &[u8], b: &[u8]) -> (r: core::cmp::Ordering)
    ensures
        r == (if a@ == b@ {
            core::cmp::Ordering::Equal
        } else if byte_lex_lt(a@, b@) {
            core::cmp::Ordering::Less
        } else {
            core::cmp::Ordering::Greater
        }),
{
    let alen = a.len();
    let blen = b.len();
    let n = if alen < blen {
        alen
    } else {
        blen
    };
    let mut i: usize = 0;
    while i < n
        invariant
            0 <= i <= n,
            n <= a@.len(),
            n <= b@.len(),
            alen == a@.len(),
            blen == b@.len(),
            n == (if alen < blen {
                alen
            } else {
                blen
            }),
            forall|j: int| 0 <= j < i ==> a@[j] == b@[j],
        decreases n - i,
    {
        let x = a[i];
        let y = b[i];
        if x < y {
            proof {
                lemma_lex_skip(a@, b@, i as int);
            }
            return core::cmp::Ordering::Less;
        }
        if y < x {
            proof {
                lemma_lex_skip(a@, b@, i as int);
            }
            return core::cmp::Ordering::Greater;
        }
        i = i + 1;
    }
    proof {
        lemma_lex_skip(a@, b@, n as int);
    }
    if alen < blen {
        core::cmp::Ordering::Less
    } else if blen < alen {
        core::cmp::Ordering::Greater
    } else {
        proof {
            assert(a@ =~= b@);
        }
        core::cmp::Ordering::Equal
    }
}

/// Equality consistency: a key's bytes equal the encoding of a text exactly
/// when the key's text equals it. Comparing a key with text therefore gives
/// the same answer whether one looks at bytes or at characters.
pub proof fn lemma_eq_text_consistency(k: KeyString, s: Seq<char>)
    requires
        k.wf(),
    ensures
        (k@ == encode_utf8(s)) == (k.text() == s),
{
    if k@ == encode_utf8(s) {
        encode_utf8_decode_utf8(s);
    }
    if k.text() == s {
        decode_utf8_encode_utf8(k@);
    }
}

/// Conversion identity: encoding a key's text reproduces the key's bytes, so
/// building a key from the text of a key yields an equal key.
pub proof fn lemma_text_round_trip(k: KeyString)
    requires
        k.wf(),
    ensures
        encode_utf8(k.text()) == k@,
{
    decode_utf8_encode_utf8(k@);
}

/// Equality consistency between two keys: their bytes are equal exactly when
/// their texts are.
pub proof fn lemma_key_eq_text(a: KeyString, b: KeyString)
    requires
        a.wf(),
        b.wf(),
    ensures
        (a@ == b@) == (a.text() == b.text()),
{
    if a.text() == b.text() {
        lemma_text_round_trip(a);
        lemma_text_round_trip(b);
    }
}

/// Ordering consistency: two keys order by their bytes exactly as their
/// texts order under the standard text ordering.
pub proof fn lemma_order_text_consistency(a: KeyString, b: KeyString)
    requires
        a.wf(),
        b.wf(),
    ensures
        byte_lex_lt(a@, b@) == char_lex_lt(a.text(), b.text()),
{
    lemma_text_round_trip(a);
    lemma_text_round_trip(b);
    lemma_utf8_order(a.text(), b.text());
}

} // verus!
