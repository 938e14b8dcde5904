//! The key value type, its conversion rules, and its composition
//! (join / build) operations.

use vstd::prelude::*;
use vstd::slice::slice_to_vec;
use vstd::utf8::encode_utf8;

verus! {

/// An owned, ordered byte sequence used as a storage key.
///
/// Two keys are equal exactly when their byte sequences are identical in
/// length and content. Joining keys concatenates their bytes in order, with
/// no separators, padding, or length prefixes.
#[derive(Debug, Clone)]
pub struct Key(pub Vec<u8>);

impl View for Key {
    type V = Seq<u8>;

    open spec fn view(&self) -> Seq<u8> {
        self.0@
    }
}

impl PartialEq for Key {
    fn eq(&self, other: &Key) -> (r: bool) {
        let a: &Vec<u8> = &self.0;
        let b: &Vec<u8> = &other.0;
        if a.len() != b.len() {
            return false;
        }
        let mut i: usize = 0;
        while i < a.len()
            invariant
                a@ == self@,
                b@ == other@,
                a@.len() == b@.len(),
                i <= a@.len(),
                forall|j: int| 0 <= j < i ==> a@[j] == b@[j],
            decreases a@.len() - i,
        {
            if a[i] != b[i] {
                return false;
            }
            i += 1;
        }
        proof {
            assert(a@ =~= b@);
        }
        true
    }
}

impl vstd::std_specs::cmp::PartialEqSpecImpl for Key {
    open spec fn obeys_eq_spec() -> bool {
        true
    }

    open spec fn eq_spec(&self, other: &Key) -> bool {
        self@ == other@
    }
}

/// The bytes of `parts`, concatenated in order with nothing in between.
pub open spec fn concat_bytes(parts: Seq<Seq<u8>>) -> Seq<u8>
    decreases parts.len(),
{
    if parts.len() == 0 {
        Seq::empty()
    } else {
        parts.first() + concat_bytes(parts.drop_first())
    }
}

proof fn lemma_concat_bytes_snoc(parts: Seq<Seq<u8>>, last: Seq<u8>)
    ensures
        concat_bytes(parts.push(last)) == concat_bytes(parts) + last,
    decreases parts.len(),
{
    if parts.len() == 0 {
        assert(parts.push(last).drop_first() =~= Seq::<Seq<u8>>::empty());
        assert(parts.push(last).first() == last);
        assert(concat_bytes(Seq::<Seq<u8>>::empty()) == Seq::<u8>::empty());
        assert(concat_bytes(parts.push(last)) == last + Seq::<u8>::empty());
        assert(last + Seq::<u8>::empty() =~= concat_bytes(parts) + last);
    } else {
        assert(parts.push(last).drop_first() =~= parts.drop_first().push(last));
        lemma_concat_bytes_snoc(parts.drop_first(), last);
        assert(parts.first() + (concat_bytes(parts.drop_first()) + last) =~= (parts.first()
            + concat_bytes(parts.drop_first())) + last);
    }
}

/// A source type with a registered conversion rule into a canonical byte
/// encoding.
///
/// The conversion registry is extensible: supporting a new source type means
/// implementing this trait for it, with no change to [`Key`] or to the
/// composition mechanism.
pub trait ToKey {
    /// The canonical byte encoding of this value.
    spec fn key_bytes(&self) -> Seq<u8>;

    /// Converts this value into a key holding exactly its canonical byte
    /// encoding. Total: no input of an implementing type is rejected.
    fn to_key(&self) -> (k: Key)
        ensures
            k@ == self.key_bytes(),
    ;
}

/// UTF-8 text encodes as its raw UTF-8 bytes, unmodified: no length prefix,
/// no terminator.
impl ToKey for str {
    open spec fn key_bytes(&self) -> Seq<u8> {
        encode_utf8(self@)
    }

    fn to_key(&self) -> (k: Key) {
        Key(slice_to_vec(self.as_bytes()))
    }
}

/// Owned text encodes exactly as the borrowed text it holds.
impl ToKey for String {
    open spec fn key_bytes(&self) -> Seq<u8> {
        encode_utf8(self@)
    }

    fn to_key(&self) -> (k: Key) {
        Key(slice_to_vec(self.as_str().as_bytes()))
    }
}

/// A raw byte slice passes through verbatim; a boxed or borrowed buffer
/// converts through it.
impl ToKey for [u8] {
    open spec fn key_bytes(&self) -> Seq<u8> {
        self@
    }

    fn to_key(&self) -> (k: Key) {
        Key(slice_to_vec(self))
    }
}

/// An owned raw byte buffer passes through verbatim.
impl ToKey for Vec<u8> {
    open spec fn key_bytes(&self) -> Seq<u8> {
        self@
    }

    fn to_key(&self) -> (k: Key) {
        Key(slice_to_vec(self.as_slice()))
    }
}

/// A key converts to itself: re-wrapping extracted bytes is the identity.
impl ToKey for Key {
    open spec fn key_bytes(&self) -> Seq<u8> {
        self@
    }

    fn to_key(&self) -> (k: Key) {
        Key(slice_to_vec(self.0.as_slice()))
    }
}

impl Key {
    /// The key holding zero bytes.
    pub fn empty() -> (k: Key)
        ensures
            k@ == Seq::<u8>::empty(),
    {
        let v: Vec<u8> = Vec::new();
        Key(v)
    }

    /// Returns a new key whose bytes are `self`'s bytes followed by `k`'s
    /// bytes, in that order. Neither operand's observable value changes.
    pub fn join(&self, k: Key) -> (r: Key)
        ensures
            r@ == self@ + k@,
    {
        let mut left: Vec<u8> = slice_to_vec(self.0.as_slice());
        let mut right: Vec<u8> = k.0;
        left.append(&mut right);
        Key(left)
    }

    /// Builds one key from an ordered list of already-converted parts: the
    /// result is the concatenation of the parts' bytes, strictly left to
    /// right. Zero parts give the empty key; one part gives exactly that
    /// part's bytes.
    pub fn build(parts: Vec<Key>) -> (k: Key)
        ensures
            k@ == concat_bytes(parts@.map_values(|p: Key| p@)),
    {
        let ghost views: Seq<Seq<u8>> = parts@.map_values(|p: Key| p@);
        let mut acc: Key = Key::empty();
        let mut i: usize = 0;
        while i < parts.len()
            invariant
                i <= parts@.len(),
                views == parts@.map_values(|p: Key| p@),
                acc@ == concat_bytes(views.take(i as int)),
            decreases parts@.len() - i,
        {
            let part: Key = parts[i].to_key();
            acc = acc.join(part);
            proof {
                assert(views.take(i as int + 1) =~= views.take(i as int).push(views[i as int]));
                lemma_concat_bytes_snoc(views.take(i as int), views[i as int]);
            }
            i += 1;
        }
        proof {
            assert(views.take(parts@.len() as int) =~= views);
        }
        acc
    }

    /// Extracts the underlying byte sequence, consuming the key.
    pub fn into_bytes(self) -> (bytes: Vec<u8>)
        ensures
            bytes@ == self@,
    {
        self.0
    }
}

/// Law: joining with the empty key on either side leaves any key's bytes
/// unchanged. `e` is what [`Key::empty`] returns; `left` and `right` are what
/// [`Key::join`] returns for `e.join(x)` and `x.join(e)`.
pub proof fn lemma_join_identity(x: Key, e: Key, left: Key, right: Key)
    requires
        e@ == Seq::<u8>::empty(),
        left@ == e@ + x@,
        right@ == x@ + e@,
    ensures
        left@ == x@,
        right@ == x@,
{
    assert(e@ + x@ =~= x@);
    assert(x@ + e@ =~= x@);
}

/// Law: join is associative: joining `a`, `b`, `c` in order yields the same
/// bytes whether the left or the right pair is joined first.
pub proof fn lemma_join_associative(a: Key, b: Key, c: Key)
    ensures
        (a@ + b@) + c@ == a@ + (b@ + c@),
{
    assert((a@ + b@) + c@ =~= a@ + (b@ + c@));
}

/// Law: building from two parts is order-sensitive. When the two encodings
/// have equal length and differ, swapping the parts changes the key's bytes.
/// The equal-length premise cannot be dropped: the distinct encodings `[120]`
/// ("x") and `[120, 120]` ("xx") concatenate to the same bytes either way
/// around.
pub proof fn lemma_build_order_sensitive(a: Seq<u8>, b: Seq<u8>)
    requires
        a.len() == b.len(),
        a != b,
    ensures
        a + b != b + a,
{
    if a + b == b + a {
        assert forall|i: int| 0 <= i < a.len() implies a[i] == b[i] by {
            assert((a + b)[i] == a[i]);
            assert((b + a)[i] == b[i]);
        }
        assert(a =~= b);
    }
}

/// Law: the build of zero parts holds zero bytes.
pub proof fn lemma_build_empty()
    ensures
        concat_bytes(Seq::<Seq<u8>>::empty()) == Seq::<u8>::empty(),
{
}

/// Law: the build of one part is exactly that part's conversion, with no
/// added bytes.
pub proof fn lemma_build_single(x: Seq<u8>)
    ensures
        concat_bytes(seq![x]) == x,
{
    reveal_with_fuel(concat_bytes, 2);
    assert(seq![x].drop_first() =~= Seq::<Seq<u8>>::empty());
    assert(concat_bytes(seq![x]) == x + Seq::<u8>::empty());
    assert(x + Seq::<u8>::empty() =~= x);
}

/// Law: extracting a key's bytes and wrapping them again through the
/// raw-bytes conversion yields a key equal to the original. `extracted` is
/// what [`Key::into_bytes`] returns; `rewrapped` is what the raw-bytes
/// conversion rule produces from it.
pub proof fn lemma_extract_rewrap(k: Key, extracted: Vec<u8>, rewrapped: Key)
    requires
        extracted@ == k@,
        rewrapped@ == extracted@,
    ensures
        rewrapped@ == k@,
{
}

} // verus!
