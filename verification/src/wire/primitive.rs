//! Numbers, text, byte strings, and what is put together from them.
use vstd::prelude::*;
use vstd::slice::*;
use vstd::string::*;
use vstd::utf8::{decode_utf8, encode_utf8, valid_utf8};

verus! {

/// A number as bytes: seven bits in each, lowest first, and the eighth bit says
/// that more follow.
pub open spec fn varint(n: nat) -> Seq<u8>
    decreases n,
{
    if n < 128 {
        seq![n as u8]
    } else {
        seq![(n % 128 + 128) as u8] + varint(n / 128)
    }
}

/// A number read from the front of bytes: at most `room` of them, the last
/// possible one at most `last`.
pub open spec fn take_varint(b: Seq<u8>, room: nat, last: u8) -> Option<(nat, Seq<u8>)>
    decreases room,
{
    if room == 0 || b.len() == 0 {
        None
    } else if b[0] < 128 {
        if room == 1 && b[0] > last {
            None
        } else {
            Some((b[0] as nat, b.drop_first()))
        }
    } else {
        match take_varint(b.drop_first(), (room - 1) as nat, last) {
            Some((n, rest)) => Some(((b[0] - 128 + 128 * n) as nat, rest)),
            None => None,
        }
    }
}

/// A 16-bit number read from the front of bytes.
pub open spec fn take_u16_from(b: Seq<u8>) -> Option<(nat, Seq<u8>)> {
    take_varint(b, 3, 3)
}

/// A 32-bit number read from the front of bytes.
pub open spec fn take_u32_from(b: Seq<u8>) -> Option<(nat, Seq<u8>)> {
    take_varint(b, 5, 15)
}

/// A 64-bit number read from the front of bytes.
pub open spec fn take_u64_from(b: Seq<u8>) -> Option<(nat, Seq<u8>)> {
    take_varint(b, 10, 1)
}

/// A length read from the front of bytes. It is as wide as a machine word.
pub open spec fn take_length_from(b: Seq<u8>) -> Option<(nat, Seq<u8>)> {
    if usize::MAX == u64::MAX {
        take_u64_from(b)
    } else {
        take_u32_from(b)
    }
}

/// A byte string read from the front of bytes: its length, then the bytes.
pub open spec fn take_bytes_from(b: Seq<u8>) -> Option<(Seq<u8>, Seq<u8>)> {
    match take_length_from(b) {
        Some((n, rest)) => if n <= rest.len() {
            Some((rest.take(n as int), rest.skip(n as int)))
        } else {
            None
        },
        None => None,
    }
}

/// Text read from the front of bytes: a byte string that is valid text.
pub open spec fn take_text_from(b: Seq<u8>) -> Option<(Seq<char>, Seq<u8>)> {
    match take_bytes_from(b) {
        Some((bytes, rest)) => if valid_utf8(bytes) {
            Some((decode_utf8(bytes), rest))
        } else {
            None
        },
        None => None,
    }
}

/// `postcard::to_allocvec` of a `u32`, which cannot fail since the buffer grows:
/// the number as bytes.
#[verifier::external_body]
fn put_u32(n: u32) -> (r: Vec<u8>)
    ensures
        r@ == varint(n as nat),
{
    postcard::to_allocvec(&n).unwrap_or_default()
}

/// `postcard::to_allocvec` of a `u64`, which cannot fail since the buffer grows:
/// the number as bytes.
#[verifier::external_body]
fn put_u64(n: u64) -> (r: Vec<u8>)
    ensures
        r@ == varint(n as nat),
{
    postcard::to_allocvec(&n).unwrap_or_default()
}

/// `postcard::to_allocvec` of a `str`, which cannot fail since the buffer grows:
/// the length in bytes, then the bytes of the text.
#[verifier::external_body]
fn put_text(s: &str) -> (r: Vec<u8>)
    ensures
        r@ == varint(encode_utf8(s@).len()) + encode_utf8(s@),
{
    postcard::to_allocvec(s).unwrap_or_default()
}

/// `postcard::to_allocvec` of a slice of bytes, which cannot fail since the
/// buffer grows: the length, then the bytes.
#[verifier::external_body]
fn put_bytes(b: &[u8]) -> (r: Vec<u8>)
    ensures
        r@ == varint(b@.len()) + b@,
{
    postcard::to_allocvec(b).unwrap_or_default()
}

/// `postcard::take_from_bytes` of a `u16`: the number at the front and the bytes
/// behind it, or nothing where there is no such number.
#[verifier::external_body]
fn take_u16<'a>(b: &'a [u8]) -> (r: Option<(u16, &'a [u8])>)
    ensures
        match take_u16_from(b@) {
            Some((n, rest)) => r matches Some((v, s)) && v == n && s@ == rest,
            None => r is None,
        },
{
    postcard::take_from_bytes(b).ok()
}

/// `postcard::take_from_bytes` of a `u32`: the number at the front and the bytes
/// behind it, or nothing where there is no such number.
#[verifier::external_body]
fn take_u32<'a>(b: &'a [u8]) -> (r: Option<(u32, &'a [u8])>)
    ensures
        match take_u32_from(b@) {
            Some((n, rest)) => r matches Some((v, s)) && v == n && s@ == rest,
            None => r is None,
        },
{
    postcard::take_from_bytes(b).ok()
}

/// `postcard::take_from_bytes` of a `u64`: the number at the front and the bytes
/// behind it, or nothing where there is no such number.
#[verifier::external_body]
fn take_u64<'a>(b: &'a [u8]) -> (r: Option<(u64, &'a [u8])>)
    ensures
        match take_u64_from(b@) {
            Some((n, rest)) => r matches Some((v, s)) && v == n && s@ == rest,
            None => r is None,
        },
{
    postcard::take_from_bytes(b).ok()
}

/// `postcard::take_from_bytes` of a `String`: the text at the front and the bytes
/// behind it, or nothing where there is no such text.
#[verifier::external_body]
fn take_text<'a>(b: &'a [u8]) -> (r: Option<(String, &'a [u8])>)
    ensures
        match take_text_from(b@) {
            Some((t, rest)) => r matches Some((v, s)) && v@ == t && s@ == rest,
            None => r is None,
        },
{
    postcard::take_from_bytes(b).ok()
}

/// `postcard::take_from_bytes` of a `Vec<u8>`: the byte string at the front and
/// the bytes behind it, or nothing where there is no such byte string.
#[verifier::external_body]
fn take_bytes<'a>(b: &'a [u8]) -> (r: Option<(Vec<u8>, &'a [u8])>)
    ensures
        match take_bytes_from(b@) {
            Some((t, rest)) => r matches Some((v, s)) && v@ == t && s@ == rest,
            None => r is None,
        },
{
    postcard::take_from_bytes(b).ok()
}

/// The greatest number that `room` bytes can hold, and one.
pub open spec fn varint_bound(room: nat, last: u8) -> nat
    decreases room,
{
    if room <= 1 {
        (last + 1) as nat
    } else {
        128 * varint_bound((room - 1) as nat, last)
    }
}

/// A number that was written is read back.
pub proof fn lemma_varint_round_trip(n: nat, room: nat, last: u8, rest: Seq<u8>)
    requires
        room > 0,
        last < 128,
        n < varint_bound(room, last),
    ensures
        take_varint(varint(n) + rest, room, last) == Some((n, rest)),
    decreases room,
{
    let b = varint(n) + rest;
    if n < 128 {
        assert(b[0] == n as u8);
        assert(b.drop_first() =~= rest);
    } else {
        assert(room > 1);
        let head = (n % 128 + 128) as u8;
        assert(b[0] == head);
        assert(b.drop_first() =~= varint(n / 128) + rest);
        lemma_varint_round_trip(n / 128, (room - 1) as nat, last, rest);
        assert(head - 128 + 128 * (n / 128) == n);
    }
}

proof fn lemma_bounds()
    ensures
        varint_bound(3, 3) == 0x1_0000,
        varint_bound(5, 15) == 0x1_0000_0000,
        varint_bound(10, 1) == 0x1_0000_0000_0000_0000,
{
    reveal_with_fuel(varint_bound, 11);
}

/// A value that can be written as bytes and read back.
pub trait Wire: DeepView + Sized {
    /// The bytes that a value is written as.
    spec fn bytes_of(model: Self::V) -> Seq<u8>;

    /// The value at the front of bytes, if there is one, and the bytes behind it.
    spec fn read(b: Seq<u8>) -> Option<(Self::V, Seq<u8>)>;

    /// Whether every length in the value is one that a machine word can hold.
    spec fn fits(model: Self::V) -> bool;

    /// What was written is read back.
    proof fn round_trip(model: Self::V, rest: Seq<u8>)
        requires
            Self::fits(model),
        ensures
            Self::read(Self::bytes_of(model) + rest) == Some((model, rest)),
    ;

    /// Writes the value behind other bytes.
    fn put(&self, out: &mut Vec<u8>)
        ensures
            final(out)@ == old(out)@ + Self::bytes_of(self.deep_view()),
    ;

    /// Reads a value from the front of bytes.
    fn take<'a>(b: &'a [u8]) -> (r: Option<(Self, &'a [u8])>)
        ensures
            match Self::read(b@) {
                Some((model, rest)) => r matches Some((v, s)) && v.deep_view() == model && s@
                    == rest,
                None => r is None,
            },
    ;
}

/// A length that was written is read back.
pub proof fn lemma_length_round_trip(n: nat, rest: Seq<u8>)
    requires
        n <= usize::MAX,
    ensures
        take_length_from(varint(n) + rest) == Some((n, rest)),
{
    lemma_bounds();
    if usize::MAX == u64::MAX {
        lemma_varint_round_trip(n, 10, 1, rest);
    } else {
        lemma_varint_round_trip(n, 5, 15, rest);
    }
}

/// A 64-bit number from the front of bytes, where machine words have 64 bits.
pub(crate) fn take_word<'a>(b: &'a [u8]) -> (r: Option<(usize, &'a [u8])>)
    requires
        usize::MAX == u64::MAX,
    ensures
        match take_u64_from(b@) {
            Some((n, rest)) => r matches Some((v, s)) && v == n && s@ == rest,
            None => r is None,
        },
{
    match take_u64(b) {
        Some((n, rest)) => Some((n as usize, rest)),
        None => None,
    }
}

/// A 32-bit number from the front of bytes.
pub(crate) fn take_half_word<'a>(b: &'a [u8]) -> (r: Option<(usize, &'a [u8])>)
    ensures
        match take_u32_from(b@) {
            Some((n, rest)) => r matches Some((v, s)) && v == n && s@ == rest,
            None => r is None,
        },
{
    match take_u32(b) {
        Some((n, rest)) => Some((n as usize, rest)),
        None => None,
    }
}

fn append(out: &mut Vec<u8>, more: Vec<u8>)
    ensures
        final(out)@ == old(out)@ + more@,
{
    let mut more = more;
    out.append(&mut more);
}

impl Wire for u16 {
    open spec fn bytes_of(model: u16) -> Seq<u8> {
        varint(model as nat)
    }

    open spec fn read(b: Seq<u8>) -> Option<(u16, Seq<u8>)> {
        match take_u16_from(b) {
            Some((n, rest)) => Some((n as u16, rest)),
            None => None,
        }
    }

    open spec fn fits(model: u16) -> bool {
        true
    }

    proof fn round_trip(model: u16, rest: Seq<u8>) {
        lemma_bounds();
        lemma_varint_round_trip(model as nat, 3, 3, rest);
    }

    fn put(&self, out: &mut Vec<u8>) {
        append(out, put_u32(*self as u32));
    }

    fn take<'a>(b: &'a [u8]) -> (r: Option<(Self, &'a [u8])>) {
        take_u16(b)
    }
}

impl Wire for u32 {
    open spec fn bytes_of(model: u32) -> Seq<u8> {
        varint(model as nat)
    }

    open spec fn read(b: Seq<u8>) -> Option<(u32, Seq<u8>)> {
        match take_u32_from(b) {
            Some((n, rest)) => Some((n as u32, rest)),
            None => None,
        }
    }

    open spec fn fits(model: u32) -> bool {
        true
    }

    proof fn round_trip(model: u32, rest: Seq<u8>) {
        lemma_bounds();
        lemma_varint_round_trip(model as nat, 5, 15, rest);
    }

    fn put(&self, out: &mut Vec<u8>) {
        append(out, put_u32(*self));
    }

    fn take<'a>(b: &'a [u8]) -> (r: Option<(Self, &'a [u8])>) {
        take_u32(b)
    }
}

impl Wire for u64 {
    open spec fn bytes_of(model: u64) -> Seq<u8> {
        varint(model as nat)
    }

    open spec fn read(b: Seq<u8>) -> Option<(u64, Seq<u8>)> {
        match take_u64_from(b) {
            Some((n, rest)) => Some((n as u64, rest)),
            None => None,
        }
    }

    open spec fn fits(model: u64) -> bool {
        true
    }

    proof fn round_trip(model: u64, rest: Seq<u8>) {
        lemma_bounds();
        lemma_varint_round_trip(model as nat, 10, 1, rest);
    }

    fn put(&self, out: &mut Vec<u8>) {
        append(out, put_u64(*self));
    }

    fn take<'a>(b: &'a [u8]) -> (r: Option<(Self, &'a [u8])>) {
        take_u64(b)
    }
}

proof fn lemma_bytes_round_trip(bytes: Seq<u8>, rest: Seq<u8>)
    requires
        bytes.len() <= usize::MAX,
    ensures
        take_bytes_from(varint(bytes.len()) + bytes + rest) == Some((bytes, rest)),
{
    let b = varint(bytes.len()) + bytes + rest;
    assert(b =~= varint(bytes.len()) + (bytes + rest));
    lemma_length_round_trip(bytes.len(), bytes + rest);
    assert((bytes + rest).take(bytes.len() as int) =~= bytes);
    assert((bytes + rest).skip(bytes.len() as int) =~= rest);
}

impl Wire for Vec<u8> {
    open spec fn bytes_of(model: Seq<u8>) -> Seq<u8> {
        varint(model.len()) + model
    }

    open spec fn read(b: Seq<u8>) -> Option<(Seq<u8>, Seq<u8>)> {
        take_bytes_from(b)
    }

    open spec fn fits(model: Seq<u8>) -> bool {
        model.len() <= usize::MAX
    }

    proof fn round_trip(model: Seq<u8>, rest: Seq<u8>) {
        lemma_bytes_round_trip(model, rest);
    }

    fn put(&self, out: &mut Vec<u8>) {
        append(out, put_bytes(self.as_slice()));
        assert(self.deep_view() =~= self@);
    }

    fn take<'a>(b: &'a [u8]) -> (r: Option<(Self, &'a [u8])>) {
        match take_bytes(b) {
            Some((v, s)) => {
                assert(v.deep_view() =~= v@);
                Some((v, s))
            },
            None => None,
        }
    }
}

impl Wire for String {
    open spec fn bytes_of(model: Seq<char>) -> Seq<u8> {
        varint(encode_utf8(model).len()) + encode_utf8(model)
    }

    open spec fn read(b: Seq<u8>) -> Option<(Seq<char>, Seq<u8>)> {
        take_text_from(b)
    }

    open spec fn fits(model: Seq<char>) -> bool {
        encode_utf8(model).len() <= usize::MAX
    }

    proof fn round_trip(model: Seq<char>, rest: Seq<u8>) {
        lemma_bytes_round_trip(encode_utf8(model), rest);
        vstd::utf8::encode_utf8_valid_utf8(model);
        vstd::utf8::encode_utf8_decode_utf8(model);
    }

    fn put(&self, out: &mut Vec<u8>) {
        append(out, put_text(self.as_str()));
    }

    fn take<'a>(b: &'a [u8]) -> (r: Option<(Self, &'a [u8])>) {
        take_text(b)
    }
}

impl<A: Wire, B: Wire> Wire for (A, B) {
    open spec fn bytes_of(model: (A::V, B::V)) -> Seq<u8> {
        A::bytes_of(model.0) + B::bytes_of(model.1)
    }

    open spec fn read(b: Seq<u8>) -> Option<((A::V, B::V), Seq<u8>)> {
        match A::read(b) {
            Some((x, rest)) => match B::read(rest) {
                Some((y, rest)) => Some(((x, y), rest)),
                None => None,
            },
            None => None,
        }
    }

    open spec fn fits(model: (A::V, B::V)) -> bool {
        A::fits(model.0) && B::fits(model.1)
    }

    proof fn round_trip(model: (A::V, B::V), rest: Seq<u8>) {
        let x = A::bytes_of(model.0);
        let y = B::bytes_of(model.1);
        assert(x + y + rest =~= x + (y + rest));
        A::round_trip(model.0, y + rest);
        B::round_trip(model.1, rest);
    }

    fn put(&self, out: &mut Vec<u8>) {
        let ghost before = out@;
        self.0.put(out);
        self.1.put(out);
        assert(out@ =~= before + Self::bytes_of(self.deep_view()));
    }

    fn take<'a>(b: &'a [u8]) -> (r: Option<(Self, &'a [u8])>) {
        match A::take(b) {
            Some((x, rest)) => match B::take(rest) {
                Some((y, rest)) => Some(((x, y), rest)),
                None => None,
            },
            None => None,
        }
    }
}

impl<T: Wire> Wire for Option<T> {
    open spec fn bytes_of(model: Option<T::V>) -> Seq<u8> {
        match model {
            Some(x) => seq![1u8] + T::bytes_of(x),
            None => seq![0u8],
        }
    }

    open spec fn read(b: Seq<u8>) -> Option<(Option<T::V>, Seq<u8>)> {
        if b.len() == 0 {
            None
        } else if b[0] == 0 {
            Some((None, b.drop_first()))
        } else if b[0] == 1 {
            match T::read(b.drop_first()) {
                Some((x, rest)) => Some((Some(x), rest)),
                None => None,
            }
        } else {
            None
        }
    }

    open spec fn fits(model: Option<T::V>) -> bool {
        match model {
            Some(x) => T::fits(x),
            None => true,
        }
    }

    proof fn round_trip(model: Option<T::V>, rest: Seq<u8>) {
        let b = Self::bytes_of(model) + rest;
        match model {
            Some(x) => {
                assert(b.drop_first() =~= T::bytes_of(x) + rest);
                T::round_trip(x, rest);
            },
            None => {
                assert(b.drop_first() =~= rest);
            },
        }
    }

    fn put(&self, out: &mut Vec<u8>) {
        let ghost before = out@;
        match self {
            Some(x) => {
                out.push(1u8);
                x.put(out);
            },
            None => {
                out.push(0u8);
            },
        }
        assert(out@ =~= before + Self::bytes_of(self.deep_view()));
    }

    fn take<'a>(b: &'a [u8]) -> (r: Option<(Self, &'a [u8])>) {
        if b.len() == 0 {
            return None;
        }
        let tag: u8 = b[0];
        let rest = slice_subrange(b, 1, b.len());
        assert(rest@ =~= b@.drop_first());
        if tag == 0 {
            Some((None, rest))
        } else if tag == 1 {
            match T::take(rest) {
                Some((x, rest)) => Some((Some(x), rest)),
                None => None,
            }
        } else {
            None
        }
    }
}

/// A value behind its tag is read back.
pub proof fn lemma_tagged<T: Wire>(tag: u32, model: T::V, rest: Seq<u8>)
    requires
        T::fits(model),
    ensures
        u32::read(u32::bytes_of(tag) + T::bytes_of(model) + rest) == Some(
            (tag, T::bytes_of(model) + rest),
        ),
        T::read(T::bytes_of(model) + rest) == Some((model, rest)),
{
    let tail = T::bytes_of(model) + rest;
    u32::round_trip(tag, tail);
    T::round_trip(model, rest);
    assert(u32::bytes_of(tag) + T::bytes_of(model) + rest =~= u32::bytes_of(tag) + tail);
}

/// Writes a value by itself.
pub fn encode<T: Wire>(x: &T) -> (r: Vec<u8>)
    ensures
        r@ == T::bytes_of(x.deep_view()),
{
    let mut r: Vec<u8> = Vec::new();
    x.put(&mut r);
    assert(r@ =~= T::bytes_of(x.deep_view()));
    r
}

/// Reads a value from the front of bytes. What stands behind it is passed over.
pub fn decode<T: Wire>(b: &[u8]) -> (r: Option<T>)
    ensures
        match T::read(b@) {
            Some((model, rest)) => r matches Some(v) && v.deep_view() == model,
            None => r is None,
        },
{
    match T::take(b) {
        Some((x, _)) => Some(x),
        None => None,
    }
}

/// What was written is read back, whatever stands behind it.
pub proof fn decode_undoes_encode<T: Wire>(model: T::V, rest: Seq<u8>)
    requires
        T::fits(model),
    ensures
        T::read(T::bytes_of(model) + rest) == Some((model, rest)),
        T::read(T::bytes_of(model)) == Some((model, Seq::<u8>::empty())),
{
    T::round_trip(model, rest);
    T::round_trip(model, Seq::empty());
    assert(T::bytes_of(model) + Seq::<u8>::empty() =~= T::bytes_of(model));
}

} // verus!
