//! Canonical binary encoding: integers little-endian, fixed-size byte arrays
//! as they stand, sequences prefixed by their length as a 64-bit integer,
//! and compound values as the encodings of their parts in order.

use vstd::prelude::*;

verus! {

/// A type with a canonical encoding and its exact decoding inverse,
/// stated over the deep view of its values.
pub trait Codec: Sized + DeepView {
    /// The bytes that encode a value whose deep view is `v`.
    spec fn spec_encode(v: Self::V) -> Seq<u8>;

    /// Reads one value from the front of `b`: its deep view and the number of
    /// bytes it takes, or `None` when `b` does not start with an encoding.
    spec fn spec_decode(b: Seq<u8>) -> Option<(Self::V, nat)>;

    /// Whether every sequence inside the value has a length that its 64-bit
    /// prefix can hold (true of every value held in memory).
    spec fn encodable(&self) -> bool;

    /// Decoding the encoding of `x`, whatever follows it, gives back `x` and
    /// takes exactly the encoding's bytes.
    proof fn lemma_round_trip(x: &Self, rest: Seq<u8>)
        requires
            x.encodable(),
        ensures
            Self::spec_decode(Self::spec_encode(x.deep_view()) + rest) == Some(
                (x.deep_view(), Self::spec_encode(x.deep_view()).len()),
            ),
    ;

    /// Appends the encoding of `self` to `out`.
    fn encode_to(&self, out: &mut Vec<u8>)
        ensures
            final(out)@ == old(out)@ + Self::spec_encode(self.deep_view()),
    ;

    /// Reads one value at `pos` of `data`, with the position just past it.
    fn decode_from(data: &[u8], pos: usize) -> (r: Option<(Self, usize)>)
        requires
            pos <= data@.len(),
        ensures
            match Self::spec_decode(data@.skip(pos as int)) {
                Some((v, k)) => r matches Some((x, end)) && x.deep_view() == v && end == pos + k
                    && end <= data@.len(),
                None => r is None,
            },
    ;
}

/// The encoding of `x`.
pub fn encode<T: Codec>(x: &T) -> (r: Vec<u8>)
    ensures
        r@ == T::spec_encode(x.deep_view()),
{
    let mut out: Vec<u8> = Vec::new();
    x.encode_to(&mut out);
    assert(out@ =~= T::spec_encode(x.deep_view()));
    out
}

/// Decodes a value from the front of `data`; bytes after it are left unread.
pub fn decode<T: Codec>(data: &[u8]) -> (r: Option<T>)
    ensures
        match T::spec_decode(data@) {
            Some((v, _)) => r matches Some(x) && x.deep_view() == v,
            None => r is None,
        },
{
    assert(data@.skip(0) =~= data@);
    match T::decode_from(data, 0) {
        Some((x, _)) => Some(x),
        None => None,
    }
}

/// Decoding an encoding gives back the value encoded, for every type with a
/// canonical encoding.
pub proof fn lemma_decode_encode<T: Codec>(x: &T)
    requires
        x.encodable(),
    ensures
        T::spec_decode(T::spec_encode(x.deep_view())) == Some(
            (x.deep_view(), T::spec_encode(x.deep_view()).len()),
        ),
{
    T::lemma_round_trip(x, Seq::empty());
    assert(T::spec_encode(x.deep_view()) + Seq::<u8>::empty() =~= T::spec_encode(x.deep_view()));
}

proof fn lemma_skip_skip(b: Seq<u8>, i: int, j: int)
    requires
        0 <= i,
        0 <= j,
        i + j <= b.len(),
    ensures
        b.skip(i).skip(j) == b.skip(i + j),
{
    assert(b.skip(i).skip(j) =~= b.skip(i + j));
}

impl Codec for u8 {
    open spec fn encodable(&self) -> bool {
        true
    }

    open spec fn spec_encode(v: u8) -> Seq<u8> {
        seq![v]
    }

    open spec fn spec_decode(b: Seq<u8>) -> Option<(u8, nat)> {
        if b.len() >= 1 {
            Some((b[0], 1))
        } else {
            None
        }
    }

    proof fn lemma_round_trip(x: &u8, rest: Seq<u8>) {
    }

    fn encode_to(&self, out: &mut Vec<u8>) {
        out.push(*self);
    }

    fn decode_from(data: &[u8], pos: usize) -> (r: Option<(u8, usize)>) {
        if pos < data.len() {
            Some((data[pos], pos + 1))
        } else {
            None
        }
    }
}

/// The four little-endian bytes of `v`.
pub open spec fn u32_bytes(v: u32) -> Seq<u8> {
    seq![(v & 0xff) as u8, ((v >> 8u32) & 0xff) as u8, ((v >> 16u32) & 0xff) as u8, ((v >> 24u32) & 0xff) as u8]
}

/// The integer whose little-endian bytes are `b0`, `b1`, `b2`, `b3`.
pub open spec fn u32_from_bytes(b0: u8, b1: u8, b2: u8, b3: u8) -> u32 {
    (b0 as u32) | ((b1 as u32) << 8u32) | ((b2 as u32) << 16u32) | ((b3 as u32) << 24u32)
}

proof fn lemma_u32_bytes(v: u32)
    ensures
        u32_from_bytes(
            (v & 0xff) as u8,
            ((v >> 8u32) & 0xff) as u8,
            ((v >> 16u32) & 0xff) as u8,
            ((v >> 24u32) & 0xff) as u8,
        ) == v,
{
    assert(((v & 0xff) as u8 as u32) | ((((v >> 8u32) & 0xff) as u8 as u32) << 8u32) | ((((v
        >> 16u32) & 0xff) as u8 as u32) << 16u32) | ((((v >> 24u32) & 0xff) as u8 as u32)
        << 24u32) == v) by (bit_vector);
}

impl Codec for u32 {
    open spec fn encodable(&self) -> bool {
        true
    }

    open spec fn spec_encode(v: u32) -> Seq<u8> {
        u32_bytes(v)
    }

    open spec fn spec_decode(b: Seq<u8>) -> Option<(u32, nat)> {
        if b.len() >= 4 {
            Some((u32_from_bytes(b[0], b[1], b[2], b[3]), 4))
        } else {
            None
        }
    }

    proof fn lemma_round_trip(x: &u32, rest: Seq<u8>) {
        lemma_u32_bytes(*x);
    }

    fn encode_to(&self, out: &mut Vec<u8>) {
        let v = *self;
        out.push((v & 0xff) as u8);
        out.push(((v >> 8u32) & 0xff) as u8);
        out.push(((v >> 16u32) & 0xff) as u8);
        out.push(((v >> 24u32) & 0xff) as u8);
        assert(final(out)@ =~= old(out)@ + u32_bytes(v));
    }

    fn decode_from(data: &[u8], pos: usize) -> (r: Option<(u32, usize)>) {
        if data.len() - pos >= 4 {
            let v = (data[pos] as u32) | ((data[pos + 1] as u32) << 8u32) | ((data[pos + 2] as u32)
                << 16u32) | ((data[pos + 3] as u32) << 24u32);
            Some((v, pos + 4))
        } else {
            None
        }
    }
}

/// The eight little-endian bytes of `v`.
pub open spec fn u64_bytes(v: u64) -> Seq<u8> {
    seq![
        (v & 0xff) as u8,
        ((v >> 8u64) & 0xff) as u8,
        ((v >> 16u64) & 0xff) as u8,
        ((v >> 24u64) & 0xff) as u8,
        ((v >> 32u64) & 0xff) as u8,
        ((v >> 40u64) & 0xff) as u8,
        ((v >> 48u64) & 0xff) as u8,
        ((v >> 56u64) & 0xff) as u8,
    ]
}

/// The integer whose little-endian bytes are the first eight of `b`.
pub open spec fn u64_from_bytes(b: Seq<u8>) -> u64 {
    (b[0] as u64) | ((b[1] as u64) << 8u64) | ((b[2] as u64) << 16u64) | ((b[3] as u64) << 24u64)
        | ((b[4] as u64) << 32u64) | ((b[5] as u64) << 40u64) | ((b[6] as u64) << 48u64) | ((
    b[7] as u64) << 56u64)
}

proof fn lemma_u64_bytes(v: u64)
    ensures
        u64_from_bytes(u64_bytes(v)) == v,
{
    let b = u64_bytes(v);
    assert(((v & 0xff) as u8 as u64) | ((((v >> 8u64) & 0xff) as u8 as u64) << 8u64) | ((((v
        >> 16u64) & 0xff) as u8 as u64) << 16u64) | ((((v >> 24u64) & 0xff) as u8 as u64)
        << 24u64) | ((((v >> 32u64) & 0xff) as u8 as u64) << 32u64) | ((((v >> 40u64) & 0xff)
        as u8 as u64) << 40u64) | ((((v >> 48u64) & 0xff) as u8 as u64) << 48u64) | ((((v
        >> 56u64) & 0xff) as u8 as u64) << 56u64) == v) by (bit_vector);
}

impl Codec for u64 {
    open spec fn encodable(&self) -> bool {
        true
    }

    open spec fn spec_encode(v: u64) -> Seq<u8> {
        u64_bytes(v)
    }

    open spec fn spec_decode(b: Seq<u8>) -> Option<(u64, nat)> {
        if b.len() >= 8 {
            Some((u64_from_bytes(b), 8))
        } else {
            None
        }
    }

    proof fn lemma_round_trip(x: &u64, rest: Seq<u8>) {
        lemma_u64_bytes(*x);
        let b = u64_bytes(*x) + rest;
        assert(u64_from_bytes(b) == u64_from_bytes(u64_bytes(*x)));
    }

    fn encode_to(&self, out: &mut Vec<u8>) {
        let v = *self;
        out.push((v & 0xff) as u8);
        out.push(((v >> 8u64) & 0xff) as u8);
        out.push(((v >> 16u64) & 0xff) as u8);
        out.push(((v >> 24u64) & 0xff) as u8);
        out.push(((v >> 32u64) & 0xff) as u8);
        out.push(((v >> 40u64) & 0xff) as u8);
        out.push(((v >> 48u64) & 0xff) as u8);
        out.push(((v >> 56u64) & 0xff) as u8);
        assert(final(out)@ =~= old(out)@ + u64_bytes(v));
    }

    fn decode_from(data: &[u8], pos: usize) -> (r: Option<(u64, usize)>) {
        if data.len() - pos >= 8 {
            let v = (data[pos] as u64) | ((data[pos + 1] as u64) << 8u64) | ((data[pos + 2] as u64)
                << 16u64) | ((data[pos + 3] as u64) << 24u64) | ((data[pos + 4] as u64) << 32u64)
                | ((data[pos + 5] as u64) << 40u64) | ((data[pos + 6] as u64) << 48u64) | ((data[pos
                + 7] as u64) << 56u64);
            assert(v == u64_from_bytes(data@.skip(pos as int)));
            Some((v, pos + 8))
        } else {
            None
        }
    }
}

impl<const N: usize> Codec for [u8; N] {
    open spec fn encodable(&self) -> bool {
        true
    }

    open spec fn spec_encode(v: Seq<u8>) -> Seq<u8> {
        v
    }

    open spec fn spec_decode(b: Seq<u8>) -> Option<(Seq<u8>, nat)> {
        if b.len() >= N {
            Some((b.take(N as int), N as nat))
        } else {
            None
        }
    }

    proof fn lemma_round_trip(x: &[u8; N], rest: Seq<u8>) {
        assert(x.deep_view() == x@);
        assert((x@ + rest).take(N as int) =~= x@);
    }

    fn encode_to(&self, out: &mut Vec<u8>) {
        let mut i: usize = 0;
        while i < N
            invariant
                0 <= i <= N,
                self@.len() == N,
                out@ == old(out)@ + self@.take(i as int),
            decreases N - i,
        {
            out.push(self[i]);
            assert(self@.take(i + 1) =~= self@.take(i as int).push(self@[i as int]));
            i = i + 1;
        }
        assert(self@.take(N as int) =~= self@);
    }

    fn decode_from(data: &[u8], pos: usize) -> (r: Option<([u8; N], usize)>) {
        if data.len() - pos >= N {
            let mut a = [0u8; N];
            let mut i: usize = 0;
            while i < N
                invariant
                    0 <= i <= N,
                    pos + N <= data@.len(),
                    a@.len() == N,
                    data@.len() <= usize::MAX,
                    forall|k: int| 0 <= k < i ==> a@[k] == data@[pos + k],
                decreases N - i,
            {
                let byte = data[pos + i];
                a[i] = byte;
                i = i + 1;
            }
            assert(a@ =~= data@.skip(pos as int).take(N as int));
            assert(a.deep_view() =~= a@);
            Some((a, pos + N))
        } else {
            None
        }
    }
}

impl<A: Codec, B: Codec> Codec for (A, B) {
    open spec fn encodable(&self) -> bool {
        self.0.encodable() && self.1.encodable()
    }

    open spec fn spec_encode(v: (A::V, B::V)) -> Seq<u8> {
        A::spec_encode(v.0) + B::spec_encode(v.1)
    }

    open spec fn spec_decode(b: Seq<u8>) -> Option<((A::V, B::V), nat)> {
        match A::spec_decode(b) {
            Some((a, k)) => match B::spec_decode(b.skip(k as int)) {
                Some((c, m)) => Some(((a, c), k + m)),
                None => None,
            },
            None => None,
        }
    }

    proof fn lemma_round_trip(x: &(A, B), rest: Seq<u8>) {
        let ea = A::spec_encode(x.0.deep_view());
        let eb = B::spec_encode(x.1.deep_view());
        A::lemma_round_trip(&x.0, eb + rest);
        B::lemma_round_trip(&x.1, rest);
        assert(ea + eb + rest =~= ea + (eb + rest));
        assert((ea + (eb + rest)).skip(ea.len() as int) =~= eb + rest);
    }

    fn encode_to(&self, out: &mut Vec<u8>) {
        self.0.encode_to(out);
        self.1.encode_to(out);
        assert(final(out)@ =~= old(out)@ + Self::spec_encode(self.deep_view()));
    }

    fn decode_from(data: &[u8], pos: usize) -> (r: Option<((A, B), usize)>) {
        match A::decode_from(data, pos) {
            Some((a, p)) => {
                proof {
                    lemma_skip_skip(data@, pos as int, p - pos);
                }
                match B::decode_from(data, p) {
                    Some((c, e)) => Some(((a, c), e)),
                    None => None,
                }
            },
            None => None,
        }
    }
}

/// The encodings of the items of `s`, one after the other.
pub open spec fn encode_items<T: Codec>(s: Seq<T::V>) -> Seq<u8>
    decreases s.len(),
{
    if s.len() == 0 {
        Seq::empty()
    } else {
        encode_items::<T>(s.drop_last()) + T::spec_encode(s.last())
    }
}

/// Reads `n` items one after the other from the front of `b`.
pub open spec fn decode_items<T: Codec>(b: Seq<u8>, n: nat) -> Option<(Seq<T::V>, nat)>
    decreases n,
{
    if n == 0 {
        Some((Seq::empty(), 0))
    } else {
        match decode_items::<T>(b, (n - 1) as nat) {
            Some((s, k)) => if k <= b.len() {
                match T::spec_decode(b.skip(k as int)) {
                    Some((x, m)) => Some((s.push(x), k + m)),
                    None => None,
                }
            } else {
                None
            },
            None => None,
        }
    }
}

proof fn lemma_decode_items_stops<T: Codec>(b: Seq<u8>, i: nat, n: nat)
    requires
        i <= n,
        decode_items::<T>(b, i) is None,
    ensures
        decode_items::<T>(b, n) is None,
    decreases n - i,
{
    if n > i {
        lemma_decode_items_stops::<T>(b, i, (n - 1) as nat);
    }
}

proof fn lemma_items_round_trip<T: Codec>(x: Seq<T>, i: nat, rest: Seq<u8>)
    requires
        i <= x.len(),
        forall|j: int| 0 <= j < x.len() ==> (#[trigger] x[j]).encodable(),
    ensures
        ({
            let s = x.map_values(|e: T| e.deep_view()).take(i as int);
            decode_items::<T>(encode_items::<T>(s) + rest, i) == Some(
                (s, encode_items::<T>(s).len()),
            )
        }),
    decreases i,
{
    let s = x.map_values(|e: T| e.deep_view()).take(i as int);
    if i == 0 {
        assert(s =~= Seq::<T::V>::empty());
    } else {
        let p = x.map_values(|e: T| e.deep_view()).take(i - 1);
        assert(s.drop_last() =~= p);
        let ex = T::spec_encode(x[i - 1].deep_view());
        lemma_items_round_trip::<T>(x, (i - 1) as nat, ex + rest);
        T::lemma_round_trip(&x[i - 1], rest);
        let ep = encode_items::<T>(p);
        assert(encode_items::<T>(s) == ep + ex);
        assert(ep + ex + rest =~= ep + (ex + rest));
        assert((ep + (ex + rest)).skip(ep.len() as int) =~= ex + rest);
        assert(p.push(x[i - 1].deep_view()) =~= s);
    }
}

impl<T: Codec> Codec for Vec<T> {
    open spec fn encodable(&self) -> bool {
        self@.len() <= u64::MAX && forall|i: int| 0 <= i < self@.len() ==> (#[trigger] self@[i]).encodable()
    }

    open spec fn spec_encode(v: Seq<T::V>) -> Seq<u8> {
        u64_bytes(v.len() as u64) + encode_items::<T>(v)
    }

    open spec fn spec_decode(b: Seq<u8>) -> Option<(Seq<T::V>, nat)> {
        if b.len() >= 8 {
            match decode_items::<T>(b.skip(8), u64_from_bytes(b) as nat) {
                Some((s, m)) => Some((s, 8 + m)),
                None => None,
            }
        } else {
            None
        }
    }

    proof fn lemma_round_trip(x: &Vec<T>, rest: Seq<u8>) {
        let s = x.deep_view();
        let n = x@.len();
        assert(x@.map_values(|e: T| e.deep_view()).take(n as int) =~= s);
        lemma_items_round_trip::<T>(x@, n as nat, rest);
        lemma_u64_bytes(n as u64);
        let b = u64_bytes(n as u64) + encode_items::<T>(s) + rest;
        assert(u64_from_bytes(b) == u64_from_bytes(u64_bytes(n as u64)));
        assert(b.skip(8) =~= encode_items::<T>(s) + rest);
    }

    fn encode_to(&self, out: &mut Vec<u8>) {
        let n = self.len();
        (n as u64).encode_to(out);
        let ghost start = out@;
        let ghost s = self.deep_view();
        let mut i: usize = 0;
        while i < n
            invariant
                0 <= i <= n,
                n == self@.len(),
                s == self.deep_view(),
                out@ == start + encode_items::<T>(s.take(i as int)),
            decreases n - i,
        {
            self[i].encode_to(out);
            assert(s.take(i + 1).drop_last() =~= s.take(i as int));
            i = i + 1;
        }
        assert(s.take(n as int) =~= s);
        assert(final(out)@ =~= old(out)@ + Self::spec_encode(self.deep_view()));
    }

    fn decode_from(data: &[u8], pos: usize) -> (r: Option<(Vec<T>, usize)>) {
        let ghost b = data@.skip(pos as int);
        match u64::decode_from(data, pos) {
            Some((n, p0)) => {
                let ghost bi = b.skip(8);
                assert(bi =~= data@.skip(p0 as int));
                let mut v: Vec<T> = Vec::new();
                let mut p = p0;
                let mut i: u64 = 0;
                while i < n
                    invariant
                        p0 <= p <= data@.len(),
                        p0 == pos + 8,
                        bi == data@.skip(p0 as int),
                        b == data@.skip(pos as int),
                        b.len() >= 8,
                        n == u64_from_bytes(b),
                        bi == b.skip(8),
                        0 <= i <= n,
                        decode_items::<T>(bi, i as nat) == Some((v.deep_view(), (p - p0) as nat)),
                    decreases n - i,
                {
                    proof {
                        lemma_skip_skip(data@, p0 as int, p - p0);
                    }
                    match T::decode_from(data, p) {
                        Some((x, e)) => {
                            let ghost old_v = v.deep_view();
                            v.push(x);
                            assert(v.deep_view() =~= old_v.push(x.deep_view()));
                            p = e;
                            i = i + 1;
                        },
                        None => {
                            proof {
                                assert(bi.skip(p - p0) == data@.skip(p as int));
                                assert(decode_items::<T>(bi, (i + 1) as nat) is None);
                                lemma_decode_items_stops::<T>(bi, (i + 1) as nat, n as nat);

                            }
                            return None;
                        },
                    }
                }
                Some((v, p))
            },
            None => None,
        }
    }
}

} // verus!
