//! Byte strings: the `Bytes` that keys and values are held in, their order, and the conversions
//! that callers use to hand them in.

use bytes::Bytes;
use vstd::prelude::*;

verus! {

/// `bytes::Bytes`: a cheaply cloned, immutable run of bytes. Opaque here; what it holds is
/// `bytes_view`.
#[verifier::external_type_specification]
#[verifier::external_body]
pub struct ExBytes(Bytes);

/// The bytes that a `Bytes` holds, in order.
pub uninterp spec fn bytes_view(b: Bytes) -> Seq<u8>;

/// What an optional value holds; `None` is a deletion mark.
pub open spec fn value_view(v: Option<Bytes>) -> Option<Seq<u8>> {
    match v {
        Some(b) => Some(bytes_view(b)),
        None => None,
    }
}

/// Calls `Bytes::copy_from_slice`, which copies the slice into a new `Bytes`.
#[verifier::external_body]
pub(crate) fn bytes_from_slice(s: &[u8]) -> (r: Bytes)
    ensures
        bytes_view(r) == s@,
{
    Bytes::copy_from_slice(s)
}

/// Calls `Bytes::from` on a vector, which takes the vector's bytes over.
#[verifier::external_body]
pub(crate) fn bytes_from_vec(v: Vec<u8>) -> (r: Bytes)
    ensures
        bytes_view(r) == v@,
{
    Bytes::from(v)
}

/// Calls `Bytes::as_ref`, which gives the held bytes as a slice.
#[verifier::external_body]
pub(crate) fn bytes_as_slice(b: &Bytes) -> (r: &[u8])
    ensures
        r@ == bytes_view(*b),
{
    b.as_ref()
}

/// Calls `Bytes::clone`, which hands out a second handle on the same bytes.
#[verifier::external_body]
pub(crate) fn bytes_clone(b: &Bytes) -> (r: Bytes)
    ensures
        bytes_view(r) == bytes_view(*b),
{
    b.clone()
}

/// Calls `String::into_bytes` of std, which gives the string's UTF-8 encoding.
#[verifier::external_body]
fn string_into_vec(s: String) -> (r: Vec<u8>)
    ensures
        r@ == vstd::utf8::encode_utf8(s@),
{
    s.into_bytes()
}

/// A second handle on an optional value.
pub(crate) fn value_clone(v: &Option<Bytes>) -> (r: Option<Bytes>)
    ensures
        value_view(r) == value_view(*v),
{
    match v {
        Some(b) => Some(bytes_clone(b)),
        None => None,
    }
}

/// What can be handed in as a key or a value.
pub trait IntoBytes: Sized {
    /// The bytes that this value stands for.
    spec fn content(&self) -> Seq<u8>;

    /// The value's bytes, borrowed.
    fn as_slice(&self) -> (r: &[u8])
        ensures
            r@ == self.content(),
    ;

    /// The value's bytes, owned.
    fn into_bytes(self) -> (r: Bytes)
        ensures
            bytes_view(r) == self.content(),
    ;
}

impl IntoBytes for &[u8] {
    open spec fn content(&self) -> Seq<u8> {
        self@
    }

    fn as_slice(&self) -> (r: &[u8]) {
        *self
    }

    fn into_bytes(self) -> (r: Bytes) {
        bytes_from_slice(self)
    }
}

impl IntoBytes for &str {
    open spec fn content(&self) -> Seq<u8> {
        vstd::utf8::encode_utf8(self@)
    }

    fn as_slice(&self) -> (r: &[u8]) {
        (*self).as_bytes()
    }

    fn into_bytes(self) -> (r: Bytes) {
        bytes_from_slice(self.as_bytes())
    }
}

impl IntoBytes for String {
    open spec fn content(&self) -> Seq<u8> {
        vstd::utf8::encode_utf8(self@)
    }

    fn as_slice(&self) -> (r: &[u8]) {
        self.as_str().as_bytes()
    }

    fn into_bytes(self) -> (r: Bytes) {
        bytes_from_vec(string_into_vec(self))
    }
}

impl IntoBytes for &String {
    open spec fn content(&self) -> Seq<u8> {
        vstd::utf8::encode_utf8(self@)
    }

    fn as_slice(&self) -> (r: &[u8]) {
        (*self).as_str().as_bytes()
    }

    fn into_bytes(self) -> (r: Bytes) {
        bytes_from_slice(self.as_str().as_bytes())
    }
}

impl IntoBytes for Vec<u8> {
    open spec fn content(&self) -> Seq<u8> {
        self@
    }

    fn as_slice(&self) -> (r: &[u8]) {
        self.as_slice()
    }

    fn into_bytes(self) -> (r: Bytes) {
        bytes_from_vec(self)
    }
}

/// How two byte strings stand to each other.
#[derive(Clone, Copy, PartialEq, Eq, Structural, Debug)]
pub enum Order {
    /// The first comes before the second.
    Less,
    /// They are equal.
    Equal,
    /// The first comes after the second.
    Greater,
}

/// `a` comes before `b` in dictionary order.
pub open spec fn lex_lt(a: Seq<u8>, b: Seq<u8>) -> bool
    decreases a.len(),
{
    if b.len() == 0 {
        false
    } else if a.len() == 0 {
        true
    } else if a[0] != b[0] {
        a[0] < b[0]
    } else {
        lex_lt(a.skip(1), b.skip(1))
    }
}

/// No byte string comes before itself.
pub proof fn lemma_lex_irreflexive(a: Seq<u8>)
    ensures
        !lex_lt(a, a),
    decreases a.len(),
{
    if a.len() > 0 {
        lemma_lex_irreflexive(a.skip(1));
    }
}

/// Dictionary order is transitive.
pub proof fn lemma_lex_transitive(a: Seq<u8>, b: Seq<u8>, c: Seq<u8>)
    requires
        lex_lt(a, b),
        lex_lt(b, c),
    ensures
        lex_lt(a, c),
    decreases a.len(),
{
    if a.len() > 0 && b.len() > 0 && c.len() > 0 && a[0] == b[0] && b[0] == c[0] {
        lemma_lex_transitive(a.skip(1), b.skip(1), c.skip(1));
    }
}

/// Two different byte strings are ordered one way or the other.
pub proof fn lemma_lex_total(a: Seq<u8>, b: Seq<u8>)
    ensures
        lex_lt(a, b) || a == b || lex_lt(b, a),
    decreases a.len(),
{
    if a.len() == 0 || b.len() == 0 {
        if a.len() == b.len() {
            assert(a =~= b);
        }
    } else if a[0] == b[0] {
        lemma_lex_total(a.skip(1), b.skip(1));
        if a.skip(1) == b.skip(1) {
            assert(a =~= seq![a[0]] + a.skip(1));
            assert(b =~= seq![b[0]] + b.skip(1));
        }
    }
}

/// An equal start does not bear on the order.
proof fn lemma_lex_common_start(a: Seq<u8>, b: Seq<u8>, n: int)
    requires
        0 <= n <= a.len(),
        n <= b.len(),
        forall|i: int| 0 <= i < n ==> a[i] == b[i],
    ensures
        lex_lt(a, b) == lex_lt(a.skip(n), b.skip(n)),
    decreases n,
{
    if n > 0 {
        lemma_lex_common_start(a.skip(1), b.skip(1), n - 1);
        assert(a.skip(1).skip(n - 1) =~= a.skip(n));
        assert(b.skip(1).skip(n - 1) =~= b.skip(n));
    } else {
        assert(a.skip(0) =~= a);
        assert(b.skip(0) =~= b);
    }
}

/// Compares two byte strings in dictionary order.
pub fn compare(a: &[u8], b: &[u8]) -> (r: Order)
    ensures
        r == Order::Less <==> lex_lt(a@, b@),
        r == Order::Equal <==> a@ == b@,
        r == Order::Greater <==> lex_lt(b@, a@),
{
    let mut i: usize = 0;
    while i < a.len() && i < b.len() && a[i] == b[i]
        invariant
            i <= a@.len(),
            i <= b@.len(),
            forall|j: int| 0 <= j < i ==> a@[j] == b@[j],
        decreases a@.len() - i,
    {
        i += 1;
    }
    proof {
        lemma_lex_common_start(a@, b@, i as int);
        lemma_lex_common_start(b@, a@, i as int);
        lemma_lex_irreflexive(a@);
        lemma_lex_total(a@, b@);
    }
    if i < b.len() {
        if i < a.len() {
            if a[i] < b[i] {
                Order::Less
            } else {
                Order::Greater
            }
        } else {
            Order::Less
        }
    } else if i < a.len() {
        Order::Greater
    } else {
        assert(a@ =~= b@);
        Order::Equal
    }
}

/// Whether two byte strings hold the same bytes.
pub(crate) fn same_bytes(a: &[u8], b: &[u8]) -> (r: bool)
    ensures
        r == (a@ == b@),
{
    match compare(a, b) {
        Order::Equal => true,
        _ => false,
    }
}

/// Whether two optional values hold the same bytes, or are both deletion marks.
pub(crate) fn same_value(a: &Option<Bytes>, b: &Option<Bytes>) -> (r: bool)
    ensures
        r == (value_view(*a) == value_view(*b)),
{
    match (a, b) {
        (Some(x), Some(y)) => same_bytes(bytes_as_slice(x), bytes_as_slice(y)),
        (None, None) => true,
        _ => false,
    }
}

/// A value is its bytes, and a deletion is none: an empty value is no deletion.
pub proof fn law_value_is_its_bytes(b: Bytes)
    ensures
        value_view(Some(b)) == Some(bytes_view(b)),
        value_view(None) is None,
{
}

/// Bytes stand for themselves, and text for its UTF-8 encoding.
pub proof fn law_text_is_its_encoding(a: &[u8], v: Vec<u8>, s: &str, t: String, u: &String)
    ensures
        a.content() == a@,
        v.content() == v@,
        s.content() == vstd::utf8::encode_utf8(s@),
        t.content() == vstd::utf8::encode_utf8(t@),
        u.content() == vstd::utf8::encode_utf8(u@),
{
}

/// In dictionary order the first byte in which two byte strings differ decides, and a byte string
/// comes before every longer one that begins with it.
pub proof fn law_first_difference_decides(a: Seq<u8>, b: Seq<u8>, n: int)
    requires
        0 <= n <= a.len(),
        n <= b.len(),
        forall|i: int| 0 <= i < n ==> a[i] == b[i],
    ensures
        n < a.len() && n < b.len() && a[n] < b[n] ==> lex_lt(a, b) && !lex_lt(b, a),
        n == a.len() && n < b.len() ==> lex_lt(a, b) && !lex_lt(b, a),
        n == a.len() && n == b.len() ==> !lex_lt(a, b) && !lex_lt(b, a),
{
    lemma_lex_common_start(a, b, n);
    lemma_lex_common_start(b, a, n);
}

} // verus!
