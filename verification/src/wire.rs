//! A byte encoding of the data model, and its inverse.
//!
//! Integers are little endian, a `usize` takes eight bytes, a sequence is its
//! length and then its items, and a struct is its fields in the order of their
//! declaration. No two values share an encoding, and no encoding begins
//! another one, so that decoding gives back exactly what was encoded.

use vstd::bytes::*;
use vstd::prelude::*;
use vstd::slice::slice_subrange;

verus! {

/// A type whose values have a byte encoding.
pub trait Wire: Sized {
    /// What a value of the type stands for.
    type Model;

    /// What this value stands for.
    spec fn model(&self) -> Self::Model;

    /// The models that a value of the type can stand for, and so the models
    /// that have an encoding.
    spec fn encodable(m: Self::Model) -> bool;

    /// The bytes that stand for `m`.
    spec fn encoding(m: Self::Model) -> Seq<u8>;

    /// What a value stands for has an encoding.
    proof fn lemma_encodable(&self)
        ensures
            Self::encodable(self.model()),
    ;

    /// An encoding cannot be read in two ways: whatever follows them, the
    /// encodings of two different models never give the same bytes.
    proof fn lemma_unique(a: Self::Model, b: Self::Model, rest_a: Seq<u8>, rest_b: Seq<u8>)
        requires
            Self::encodable(a),
            Self::encodable(b),
            Self::encoding(a) + rest_a == Self::encoding(b) + rest_b,
        ensures
            a == b,
    ;

    /// Appends the encoding of the value to `out`.
    fn encode_into(&self, out: &mut Vec<u8>)
        ensures
            final(out)@ == old(out)@ + Self::encoding(self.model()),
    ;

    /// Reads one value from `bytes`, beginning at `start`. It yields the value
    /// and the place behind its encoding; or nothing, where `start` lies
    /// behind the end or the bytes from `start` on begin with no encoding at
    /// all.
    fn decode_from(bytes: &[u8], start: usize) -> (r: Option<(Self, usize)>)
        ensures
            match r {
                Some((value, end)) => {
                    &&& start <= end <= bytes@.len()
                    &&& bytes@.subrange(start as int, end as int) == Self::encoding(value.model())
                },
                None => start <= bytes@.len() ==> forall|m: Self::Model|
                    Self::encodable(m) ==> !(#[trigger] Self::encoding(m)).is_prefix_of(
                        bytes@.skip(start as int),
                    ),
            },
    ;
}

/// The model that `bytes` is the encoding of, if it is the encoding of one.
pub open spec fn decoding<T: Wire>(bytes: Seq<u8>) -> Option<T::Model> {
    if exists|m: T::Model| T::encodable(m) && #[trigger] T::encoding(m) == bytes {
        Some(choose|m: T::Model| T::encodable(m) && #[trigger] T::encoding(m) == bytes)
    } else {
        None
    }
}

/// Decoding the encoding of a value gives what the value stands for.
pub proof fn lemma_value_round_trip<T: Wire>(value: T)
    ensures
        decoding::<T>(T::encoding(value.model())) == Some(value.model()),
{
    value.lemma_encodable();
    lemma_round_trip::<T>(value.model());
}

/// Decoding the encoding of a model gives that model.
pub proof fn lemma_round_trip<T: Wire>(m: T::Model)
    requires
        T::encodable(m),
    ensures
        decoding::<T>(T::encoding(m)) == Some(m),
{
    let bytes = T::encoding(m);
    assert(T::encodable(m) && T::encoding(m) == bytes);
    let found = decoding::<T>(bytes).unwrap();
    assert(T::encodable(found) && T::encoding(found) == bytes);
    lemma_encoding_injective::<T>(found, m);
}

/// Two models with the same encoding are the same model.
pub proof fn lemma_encoding_injective<T: Wire>(a: T::Model, b: T::Model)
    requires
        T::encodable(a),
        T::encodable(b),
        T::encoding(a) == T::encoding(b),
    ensures
        a == b,
{
    assert(T::encoding(a) + Seq::<u8>::empty() =~= T::encoding(b) + Seq::<u8>::empty());
    T::lemma_unique(a, b, Seq::empty(), Seq::empty());
}

/// The encoding of `value`.
pub fn encode<T: Wire>(value: &T) -> (r: Vec<u8>)
    ensures
        r@ == T::encoding(value.model()),
{
    let mut out: Vec<u8> = Vec::new();
    value.encode_into(&mut out);
    assert(Seq::<u8>::empty() + T::encoding(value.model()) =~= T::encoding(value.model()));
    out
}

/// The value that `bytes` is the encoding of; nothing, where `bytes` is not
/// the encoding of any value, be it cut short, malformed, or followed by
/// more bytes.
pub fn decode<T: Wire>(bytes: &[u8]) -> (r: Option<T>)
    ensures
        match r {
            Some(value) => decoding::<T>(bytes@) == Some(value.model()),
            None => decoding::<T>(bytes@) is None,
        },
{
    match T::decode_from(bytes, 0) {
        Some((value, end)) => {
            proof {
                value.lemma_encodable();
                let head = T::encoding(value.model());
                assert(bytes@ =~= head + bytes@.skip(end as int));
                assert forall|m: T::Model|
                    T::encodable(m) && #[trigger] T::encoding(m) == bytes@ implies m
                    == value.model() && end == bytes@.len() by {
                    assert(T::encoding(m) + Seq::<u8>::empty() =~= bytes@);
                    T::lemma_unique(m, value.model(), Seq::empty(), bytes@.skip(end as int));
                }
            }
            if end == bytes.len() {
                assert(bytes@ =~= T::encoding(value.model()));
                Some(value)
            } else {
                None
            }
        },
        None => {
            proof {
                assert(bytes@.skip(0) =~= bytes@);
                assert forall|m: T::Model| T::encodable(m) implies #[trigger] T::encoding(m)
                    != bytes@ by {
                    if T::encoding(m) == bytes@ {
                        assert(T::encoding(m).is_prefix_of(bytes@.skip(0)));
                    }
                }
            }
            None
        },
    }
}

/// If the bytes from `start` to `end` are the encoding of `x`, then whatever
/// encoding the bytes from `start` on begin with is that of `x`, and what
/// follows it begins at `end`.
pub proof fn lemma_decoded_is_head<T: Wire>(
    bytes: Seq<u8>,
    start: int,
    end: int,
    x: T::Model,
    m: T::Model,
    tail: Seq<u8>,
)
    requires
        0 <= start <= end <= bytes.len(),
        bytes.subrange(start, end) == T::encoding(x),
        T::encodable(x),
        T::encodable(m),
        (T::encoding(m) + tail).is_prefix_of(bytes.skip(start)),
    ensures
        m == x,
        tail.is_prefix_of(bytes.skip(end)),
{
    let whole = bytes.skip(start);
    let taken = T::encoding(m) + tail;
    assert(whole =~= T::encoding(x) + bytes.skip(end));
    assert(whole =~= taken + whole.skip(taken.len() as int));
    assert(taken + whole.skip(taken.len() as int) =~= T::encoding(m) + (tail + whole.skip(
        taken.len() as int,
    )));
    T::lemma_unique(m, x, tail + whole.skip(taken.len() as int), bytes.skip(end));
    assert(tail =~= bytes.skip(end).subrange(0, tail.len() as int)) by {
        assert forall|i: int| 0 <= i < tail.len() implies tail[i] == bytes.skip(end)[i] by {
            assert(taken[T::encoding(m).len() + i] == whole[T::encoding(m).len() + i]);
        }
    }
}

impl Wire for u8 {
    type Model = u8;

    open spec fn model(&self) -> u8 {
        *self
    }

    open spec fn encodable(m: u8) -> bool {
        true
    }

    open spec fn encoding(m: u8) -> Seq<u8> {
        seq![m]
    }

    proof fn lemma_encodable(&self) {
    }

    proof fn lemma_unique(a: u8, b: u8, rest_a: Seq<u8>, rest_b: Seq<u8>) {
        assert((seq![a] + rest_a)[0] == a);
        assert((seq![b] + rest_b)[0] == b);
    }

    fn encode_into(&self, out: &mut Vec<u8>) {
        out.push(*self);
        assert(out@ =~= old(out)@ + seq![*self]);
    }

    fn decode_from(bytes: &[u8], start: usize) -> (r: Option<(Self, usize)>) {
        if start < bytes.len() {
            let value = bytes[start];
            assert(bytes@.subrange(start as int, start + 1) =~= seq![value]);
            Some((value, start + 1))
        } else {
            None
        }
    }
}

/// What is left of two equal byte strings behind the same beginning is equal.
pub proof fn lemma_same_head(head: Seq<u8>, rest_a: Seq<u8>, rest_b: Seq<u8>)
    requires
        head + rest_a == head + rest_b,
    ensures
        rest_a == rest_b,
{
    assert(rest_a.len() == (head + rest_a).len() - head.len());
    assert(rest_b.len() == (head + rest_b).len() - head.len());
    assert forall|i: int| 0 <= i < rest_a.len() implies rest_a[i] == rest_b[i] by {
        assert((head + rest_a)[head.len() + i] == rest_a[i]);
        assert((head + rest_b)[head.len() + i] == rest_b[i]);
    }
    assert(rest_a =~= rest_b);
}

/// Two byte strings of one length that begin equal byte strings are equal.
pub proof fn lemma_same_length_heads(a: Seq<u8>, b: Seq<u8>, rest_a: Seq<u8>, rest_b: Seq<u8>)
    requires
        a.len() == b.len(),
        a + rest_a == b + rest_b,
    ensures
        a == b,
{
    assert forall|i: int| 0 <= i < a.len() implies a[i] == b[i] by {
        assert((a + rest_a)[i] == a[i]);
        assert((b + rest_b)[i] == b[i]);
    }
    assert(a =~= b);
}

impl Wire for u16 {
    type Model = u16;

    open spec fn model(&self) -> u16 {
        *self
    }

    open spec fn encodable(m: u16) -> bool {
        true
    }

    open spec fn encoding(m: u16) -> Seq<u8> {
        spec_u16_to_le_bytes(m)
    }

    proof fn lemma_encodable(&self) {
    }

    proof fn lemma_unique(a: u16, b: u16, rest_a: Seq<u8>, rest_b: Seq<u8>) {
        lemma_auto_spec_u16_to_from_le_bytes();
        lemma_same_length_heads(Self::encoding(a), Self::encoding(b), rest_a, rest_b);
    }

    fn encode_into(&self, out: &mut Vec<u8>) {
        let mut piece = u16_to_le_bytes(*self);
        out.append(&mut piece);
    }

    fn decode_from(bytes: &[u8], start: usize) -> (r: Option<(Self, usize)>) {
        proof {
            lemma_auto_spec_u16_to_from_le_bytes();
        }
        if start > bytes.len() || bytes.len() - start < 2 {
            None
        } else {
            let value = u16_from_le_bytes(slice_subrange(bytes, start, start + 2));
            Some((value, start + 2))
        }
    }
}

impl Wire for u32 {
    type Model = u32;

    open spec fn model(&self) -> u32 {
        *self
    }

    open spec fn encodable(m: u32) -> bool {
        true
    }

    open spec fn encoding(m: u32) -> Seq<u8> {
        spec_u32_to_le_bytes(m)
    }

    proof fn lemma_encodable(&self) {
    }

    proof fn lemma_unique(a: u32, b: u32, rest_a: Seq<u8>, rest_b: Seq<u8>) {
        lemma_auto_spec_u32_to_from_le_bytes();
        lemma_same_length_heads(Self::encoding(a), Self::encoding(b), rest_a, rest_b);
    }

    fn encode_into(&self, out: &mut Vec<u8>) {
        let mut piece = u32_to_le_bytes(*self);
        out.append(&mut piece);
    }

    fn decode_from(bytes: &[u8], start: usize) -> (r: Option<(Self, usize)>) {
        proof {
            lemma_auto_spec_u32_to_from_le_bytes();
        }
        if start > bytes.len() || bytes.len() - start < 4 {
            None
        } else {
            let value = u32_from_le_bytes(slice_subrange(bytes, start, start + 4));
            Some((value, start + 4))
        }
    }
}

/// A signed number and the unsigned number of the same bits stand for each
/// other.
pub proof fn lemma_same_bits(signed: i32, unsigned: u32)
    ensures
        (signed as u32) as i32 == signed,
        (unsigned as i32) as u32 == unsigned,
{
    assert((signed as u32) as i32 == signed) by (bit_vector);
    assert((unsigned as i32) as u32 == unsigned) by (bit_vector);
}

impl Wire for i32 {
    type Model = i32;

    open spec fn model(&self) -> i32 {
        *self
    }

    open spec fn encodable(m: i32) -> bool {
        true
    }

    /// The four bytes of the number in two's complement.
    open spec fn encoding(m: i32) -> Seq<u8> {
        spec_u32_to_le_bytes(m as u32)
    }

    proof fn lemma_encodable(&self) {
    }

    proof fn lemma_unique(a: i32, b: i32, rest_a: Seq<u8>, rest_b: Seq<u8>) {
        lemma_auto_spec_u32_to_from_le_bytes();
        lemma_same_length_heads(Self::encoding(a), Self::encoding(b), rest_a, rest_b);
        lemma_same_bits(a, 0);
        lemma_same_bits(b, 0);
    }

    fn encode_into(&self, out: &mut Vec<u8>) {
        let mut piece = u32_to_le_bytes(*self as u32);
        out.append(&mut piece);
    }

    fn decode_from(bytes: &[u8], start: usize) -> (r: Option<(Self, usize)>) {
        proof {
            lemma_auto_spec_u32_to_from_le_bytes();
        }
        if start > bytes.len() || bytes.len() - start < 4 {
            None
        } else {
            let bits = u32_from_le_bytes(slice_subrange(bytes, start, start + 4));
            proof {
                lemma_same_bits(0, bits);
            }
            Some((bits as i32, start + 4))
        }
    }
}

impl Wire for usize {
    type Model = usize;

    open spec fn model(&self) -> usize {
        *self
    }

    open spec fn encodable(m: usize) -> bool {
        true
    }

    /// Eight bytes, whatever the width of `usize` on the machine.
    open spec fn encoding(m: usize) -> Seq<u8> {
        spec_u64_to_le_bytes(m as u64)
    }

    proof fn lemma_encodable(&self) {
    }

    proof fn lemma_unique(a: usize, b: usize, rest_a: Seq<u8>, rest_b: Seq<u8>) {
        lemma_auto_spec_u64_to_from_le_bytes();
        lemma_same_length_heads(Self::encoding(a), Self::encoding(b), rest_a, rest_b);
    }

    fn encode_into(&self, out: &mut Vec<u8>) {
        let mut piece = u64_to_le_bytes(*self as u64);
        out.append(&mut piece);
    }

    fn decode_from(bytes: &[u8], start: usize) -> (r: Option<(Self, usize)>) {
        proof {
            lemma_auto_spec_u64_to_from_le_bytes();
        }
        if start > bytes.len() || bytes.len() - start < 8 {
            return None;
        }
        let wide = u64_from_le_bytes(slice_subrange(bytes, start, start + 8));
        if wide > usize::MAX as u64 {
            assert forall|m: usize| !(#[trigger] Self::encoding(m)).is_prefix_of(
                bytes@.skip(start as int),
            ) by {
                if Self::encoding(m).is_prefix_of(bytes@.skip(start as int)) {
                    assert(Self::encoding(m) =~= bytes@.subrange(start as int, start + 8));
                }
            }
            return None;
        }
        Some((wide as usize, start + 8))
    }
}

impl<A: Wire, B: Wire> Wire for (A, B) {
    type Model = (A::Model, B::Model);

    open spec fn model(&self) -> (A::Model, B::Model) {
        (self.0.model(), self.1.model())
    }

    open spec fn encodable(m: (A::Model, B::Model)) -> bool {
        A::encodable(m.0) && B::encodable(m.1)
    }

    /// The first, then the second.
    open spec fn encoding(m: (A::Model, B::Model)) -> Seq<u8> {
        A::encoding(m.0) + B::encoding(m.1)
    }

    proof fn lemma_encodable(&self) {
        self.0.lemma_encodable();
        self.1.lemma_encodable();
    }

    proof fn lemma_unique(
        a: (A::Model, B::Model),
        b: (A::Model, B::Model),
        rest_a: Seq<u8>,
        rest_b: Seq<u8>,
    ) {
        let tail_a = B::encoding(a.1) + rest_a;
        let tail_b = B::encoding(b.1) + rest_b;
        assert(Self::encoding(a) + rest_a =~= A::encoding(a.0) + tail_a);
        assert(Self::encoding(b) + rest_b =~= A::encoding(b.0) + tail_b);
        A::lemma_unique(a.0, b.0, tail_a, tail_b);
        lemma_same_head(A::encoding(a.0), tail_a, tail_b);
        B::lemma_unique(a.1, b.1, rest_a, rest_b);
    }

    fn encode_into(&self, out: &mut Vec<u8>) {
        self.0.encode_into(out);
        self.1.encode_into(out);
        assert(out@ =~= old(out)@ + Self::encoding(self.model()));
    }

    fn decode_from(bytes: &[u8], start: usize) -> (r: Option<(Self, usize)>) {
        let (first, mid) = match A::decode_from(bytes, start) {
            Some(found) => found,
            None => {
                assert forall|m: Self::Model| start <= bytes@.len() && Self::encodable(m) implies !(
                #[trigger] Self::encoding(m)).is_prefix_of(bytes@.skip(start as int)) by {
                    if Self::encoding(m).is_prefix_of(bytes@.skip(start as int)) {
                        assert(A::encoding(m.0).is_prefix_of(bytes@.skip(start as int)));
                    }
                }
                return None;
            },
        };
        let (second, end) = match B::decode_from(bytes, mid) {
            Some(found) => found,
            None => {
                assert forall|m: Self::Model| start <= bytes@.len() && Self::encodable(m) implies !(
                #[trigger] Self::encoding(m)).is_prefix_of(bytes@.skip(start as int)) by {
                    if Self::encoding(m).is_prefix_of(bytes@.skip(start as int)) {
                        first.lemma_encodable();
                        lemma_decoded_is_head::<A>(
                            bytes@,
                            start as int,
                            mid as int,
                            first.model(),
                            m.0,
                            B::encoding(m.1),
                        );
                    }
                }
                return None;
            },
        };
        assert(bytes@.subrange(start as int, end as int) =~= bytes@.subrange(
            start as int,
            mid as int,
        ) + bytes@.subrange(mid as int, end as int));
        Some(((first, second), end))
    }
}

/// The encodings of the items of `items`, one after the other.
pub open spec fn items_encoding<T: Wire>(items: Seq<T::Model>) -> Seq<u8>
    decreases items.len(),
{
    if items.len() == 0 {
        Seq::empty()
    } else {
        T::encoding(items.first()) + items_encoding::<T>(items.drop_first())
    }
}

/// The encoding of a sequence of items is that of its first `n` items and
/// then that of the others.
pub proof fn lemma_items_encoding_split<T: Wire>(items: Seq<T::Model>, n: int)
    requires
        0 <= n <= items.len(),
    ensures
        items_encoding::<T>(items) == items_encoding::<T>(items.take(n)) + items_encoding::<T>(
            items.skip(n),
        ),
    decreases n,
{
    if n == 0 {
        assert(items.skip(0) =~= items);
        assert(items_encoding::<T>(items.take(0)) =~= Seq::<u8>::empty());
        assert(Seq::<u8>::empty() + items_encoding::<T>(items) =~= items_encoding::<T>(items));
    } else {
        let others = items.drop_first();
        lemma_items_encoding_split::<T>(others, n - 1);
        assert(others.take(n - 1) =~= items.take(n).drop_first());
        assert(others.skip(n - 1) =~= items.skip(n));
        assert(items.take(n).first() == items.first());
        assert(T::encoding(items.first()) + (items_encoding::<T>(others.take(n - 1))
            + items_encoding::<T>(others.skip(n - 1))) =~= (T::encoding(items.first())
            + items_encoding::<T>(others.take(n - 1))) + items_encoding::<T>(others.skip(n - 1)));
    }
}

/// The encoding of the first `n + 1` items is that of the first `n` and then
/// that of the item at `n`.
pub proof fn lemma_items_encoding_next<T: Wire>(items: Seq<T::Model>, n: int)
    requires
        0 <= n < items.len(),
    ensures
        items_encoding::<T>(items.take(n + 1)) == items_encoding::<T>(items.take(n)) + T::encoding(
            items[n],
        ),
        items_encoding::<T>(items.skip(n)) == T::encoding(items[n]) + items_encoding::<T>(
            items.skip(n + 1),
        ),
{
    let upto = items.take(n + 1);
    lemma_items_encoding_split::<T>(upto, n);
    assert(upto.take(n) =~= items.take(n));
    assert(upto.skip(n) =~= seq![items[n]]);
    let one = seq![items[n]];
    assert(one.drop_first() =~= Seq::<T::Model>::empty());
    assert(items_encoding::<T>(one.drop_first()) =~= Seq::<u8>::empty());
    assert(items_encoding::<T>(one) == T::encoding(one.first()) + items_encoding::<T>(
        one.drop_first(),
    ));
    assert(items_encoding::<T>(one) =~= T::encoding(items[n]));
    assert(items.skip(n).drop_first() =~= items.skip(n + 1));
}

/// Item encodings cannot be read in two ways either: two sequences of one
/// length whose items' encodings give the same bytes, whatever follows, are
/// the same sequence.
pub proof fn lemma_items_unique<T: Wire>(
    a: Seq<T::Model>,
    b: Seq<T::Model>,
    rest_a: Seq<u8>,
    rest_b: Seq<u8>,
)
    requires
        a.len() == b.len(),
        forall|i: int| 0 <= i < a.len() ==> T::encodable(#[trigger] a[i]),
        forall|i: int| 0 <= i < b.len() ==> T::encodable(#[trigger] b[i]),
        items_encoding::<T>(a) + rest_a == items_encoding::<T>(b) + rest_b,
    ensures
        a == b,
    decreases a.len(),
{
    if a.len() == 0 {
        assert(a =~= b);
    } else {
        let tail_a = items_encoding::<T>(a.drop_first()) + rest_a;
        let tail_b = items_encoding::<T>(b.drop_first()) + rest_b;
        assert(items_encoding::<T>(a) + rest_a =~= T::encoding(a.first()) + tail_a);
        assert(items_encoding::<T>(b) + rest_b =~= T::encoding(b.first()) + tail_b);
        assert(T::encodable(a[0]) && T::encodable(b[0]));
        T::lemma_unique(a.first(), b.first(), tail_a, tail_b);
        lemma_same_head(T::encoding(a.first()), tail_a, tail_b);
        assert forall|i: int| 0 <= i < a.drop_first().len() implies T::encodable(
            #[trigger] a.drop_first()[i],
        ) by {
            assert(T::encodable(a[i + 1]));
        }
        assert forall|i: int| 0 <= i < b.drop_first().len() implies T::encodable(
            #[trigger] b.drop_first()[i],
        ) by {
            assert(T::encodable(b[i + 1]));
        }
        lemma_items_unique::<T>(a.drop_first(), b.drop_first(), rest_a, rest_b);
        assert(a =~= seq![a.first()] + a.drop_first());
        assert(b =~= seq![b.first()] + b.drop_first());
    }
}

/// What the values of `values` stand for, in the same order.
pub open spec fn models<T: Wire>(values: Seq<T>) -> Seq<T::Model> {
    values.map_values(|value: T| value.model())
}

impl<T: Wire> Wire for Vec<T> {
    type Model = Seq<T::Model>;

    open spec fn model(&self) -> Seq<T::Model> {
        models::<T>(self@)
    }

    open spec fn encodable(m: Seq<T::Model>) -> bool {
        &&& m.len() <= usize::MAX
        &&& forall|i: int| 0 <= i < m.len() ==> T::encodable(#[trigger] m[i])
    }

    /// The number of items, then the items.
    open spec fn encoding(m: Seq<T::Model>) -> Seq<u8> {
        usize::encoding(m.len() as usize) + items_encoding::<T>(m)
    }

    proof fn lemma_encodable(&self) {
        vstd::std_specs::vec::axiom_spec_len(self);
        assert(self.model().len() == self.len());
        assert forall|i: int| 0 <= i < self.model().len() implies T::encodable(
            #[trigger] self.model()[i],
        ) by {
            self@[i].lemma_encodable();
        }
    }

    proof fn lemma_unique(
        a: Seq<T::Model>,
        b: Seq<T::Model>,
        rest_a: Seq<u8>,
        rest_b: Seq<u8>,
    ) {
        let tail_a = items_encoding::<T>(a) + rest_a;
        let tail_b = items_encoding::<T>(b) + rest_b;
        assert(Self::encoding(a) + rest_a =~= usize::encoding(a.len() as usize) + tail_a);
        assert(Self::encoding(b) + rest_b =~= usize::encoding(b.len() as usize) + tail_b);
        usize::lemma_unique(a.len() as usize, b.len() as usize, tail_a, tail_b);
        lemma_same_head(usize::encoding(a.len() as usize), tail_a, tail_b);
        lemma_items_unique::<T>(a, b, rest_a, rest_b);
    }

    fn encode_into(&self, out: &mut Vec<u8>) {
        let n = self.len();
        n.encode_into(out);
        let ghost given = self.model();
        let ghost before = old(out)@ + usize::encoding(n);
        let mut i: usize = 0;
        while i < n
            invariant
                n == self@.len(),
                given == self.model(),
                i <= n,
                out@ == before + items_encoding::<T>(given.take(i as int)),
            decreases n - i,
        {
            self[i].encode_into(out);
            proof {
                lemma_items_encoding_next::<T>(given, i as int);
                assert(out@ =~= before + items_encoding::<T>(given.take(i + 1)));
            }
            i += 1;
        }
        proof {
            assert(given.take(n as int) =~= given);
            assert(out@ =~= old(out)@ + Self::encoding(given));
        }
    }

    fn decode_from(bytes: &[u8], start: usize) -> (r: Option<(Self, usize)>) {
        let (n, first) = match usize::decode_from(bytes, start) {
            Some(found) => found,
            None => {
                assert forall|m: Self::Model| start <= bytes@.len() && Self::encodable(m) implies !(
                #[trigger] Self::encoding(m)).is_prefix_of(bytes@.skip(start as int)) by {
                    if Self::encoding(m).is_prefix_of(bytes@.skip(start as int)) {
                        assert(usize::encoding(m.len() as usize).is_prefix_of(
                            bytes@.skip(start as int),
                        ));
                    }
                }
                return None;
            },
        };
        let mut values: Vec<T> = Vec::new();
        let mut at: usize = first;
        let mut i: usize = 0;
        while i < n
            invariant
                start <= first <= at <= bytes@.len(),
                bytes@.subrange(start as int, first as int) == usize::encoding(n),
                i <= n,
                values@.len() == i,
                bytes@.subrange(first as int, at as int) == items_encoding::<T>(
                    models::<T>(values@),
                ),
            decreases n - i,
        {
            let ghost read = models::<T>(values@);
            match T::decode_from(bytes, at) {
                Some((value, next)) => {
                    values.push(value);
                    proof {
                        let now = models::<T>(values@);
                        assert(now.take(i as int) =~= read);
                        assert(now[i as int] == value.model());
                        lemma_items_encoding_next::<T>(now, i as int);
                        assert(now.take(i + 1) =~= now);
                        assert(bytes@.subrange(first as int, next as int) =~= bytes@.subrange(
                            first as int,
                            at as int,
                        ) + bytes@.subrange(at as int, next as int));
                    }
                    at = next;
                },
                None => {
                    assert forall|m: Self::Model| start <= bytes@.len() && Self::encodable(m) implies !(
                    #[trigger] Self::encoding(m)).is_prefix_of(bytes@.skip(start as int)) by {
                        if Self::encoding(m).is_prefix_of(bytes@.skip(start as int)) {
                            values.lemma_encodable();
                            lemma_decoded_is_head::<usize>(
                                bytes@,
                                start as int,
                                first as int,
                                n,
                                m.len() as usize,
                                items_encoding::<T>(m),
                            );
                            lemma_items_encoding_split::<T>(m, i as int);
                            lemma_items_encoding_next::<T>(m, i as int);
                            let head = items_encoding::<T>(m.take(i as int));
                            let tail = T::encoding(m[i as int]) + items_encoding::<T>(
                                m.skip(i + 1),
                            );
                            let rest = bytes@.skip(first as int);
                            assert(rest =~= items_encoding::<T>(read) + bytes@.skip(at as int));
                            assert(rest =~= items_encoding::<T>(m) + rest.skip(
                                items_encoding::<T>(m).len() as int,
                            ));
                            let after = rest.skip(items_encoding::<T>(m).len() as int);
                            assert(items_encoding::<T>(m) + after =~= head + (tail + after));
                            assert forall|k: int| 0 <= k < i implies T::encodable(
                                #[trigger] m.take(i as int)[k],
                            ) by {
                                assert(T::encodable(m[k]));
                            }
                            lemma_items_unique::<T>(
                                m.take(i as int),
                                read,
                                tail + after,
                                bytes@.skip(at as int),
                            );
                            lemma_same_head(head, tail + after, bytes@.skip(at as int));
                            assert(T::encoding(m[i as int]).is_prefix_of(bytes@.skip(at as int)));
                            assert(T::encodable(m[i as int]));
                        }
                    }
                    return None;
                },
            }
            i += 1;
        }
        proof {
            assert(bytes@.subrange(start as int, at as int) =~= bytes@.subrange(
                start as int,
                first as int,
            ) + bytes@.subrange(first as int, at as int));
        }
        Some((values, at))
    }
}

} // verus!
