//! Byte-level helpers: comparison, copying, and the little-endian,
//! length-prefixed layout in which the ledger stores its values.
use vstd::prelude::*;

verus! {

/// The little-endian value of eight bytes.
pub open spec fn u64_from_le(b: Seq<u8>) -> u64 {
    (b[0] as u64) | ((b[1] as u64) << 8u64) | ((b[2] as u64) << 16u64) | ((b[3] as u64) << 24u64)
        | ((b[4] as u64) << 32u64) | ((b[5] as u64) << 40u64) | ((b[6] as u64) << 48u64) | ((
    b[7] as u64) << 56u64)
}

/// The eight little-endian bytes of `n`.
pub open spec fn u64_to_le(n: u64) -> Seq<u8> {
    seq![
        (n & 0xff) as u8,
        ((n >> 8u64) & 0xff) as u8,
        ((n >> 16u64) & 0xff) as u8,
        ((n >> 24u64) & 0xff) as u8,
        ((n >> 32u64) & 0xff) as u8,
        ((n >> 40u64) & 0xff) as u8,
        ((n >> 48u64) & 0xff) as u8,
        ((n >> 56u64) & 0xff) as u8,
    ]
}

/// The little-endian value of four bytes.
pub open spec fn u32_from_le(b: Seq<u8>) -> u32 {
    (b[0] as u32) | ((b[1] as u32) << 8u32) | ((b[2] as u32) << 16u32) | ((b[3] as u32) << 24u32)
}

/// The four little-endian bytes of `n`.
pub open spec fn u32_to_le(n: u32) -> Seq<u8> {
    seq![
        (n & 0xff) as u8,
        ((n >> 8u32) & 0xff) as u8,
        ((n >> 16u32) & 0xff) as u8,
        ((n >> 24u32) & 0xff) as u8,
    ]
}

/// A byte string preceded by its length as four little-endian bytes.
pub open spec fn len_prefixed(b: Seq<u8>) -> Seq<u8> {
    u32_to_le(b.len() as u32) + b
}

/// Decoding eight bytes gives back the integer that was encoded.
pub proof fn lemma_u64_round_trip(n: u64)
    ensures
        u64_from_le(u64_to_le(n)) == n,
{
    let b = u64_to_le(n);
    let (b0, b1, b2, b3, b4, b5, b6, b7) = (b[0], b[1], b[2], b[3], b[4], b[5], b[6], b[7]);
    assert(b0 == (n & 0xff) as u8 && b1 == ((n >> 8u64) & 0xff) as u8 && b2 == ((n >> 16u64)
        & 0xff) as u8 && b3 == ((n >> 24u64) & 0xff) as u8 && b4 == ((n >> 32u64) & 0xff) as u8
        && b5 == ((n >> 40u64) & 0xff) as u8 && b6 == ((n >> 48u64) & 0xff) as u8 && b7 == ((n
        >> 56u64) & 0xff) as u8);
    assert((((n & 0xff) as u8) as u64) | ((((n >> 8u64) & 0xff) as u8) as u64) << 8u64 | ((((n
        >> 16u64) & 0xff) as u8) as u64) << 16u64 | ((((n >> 24u64) & 0xff) as u8) as u64)
        << 24u64 | ((((n >> 32u64) & 0xff) as u8) as u64) << 32u64 | ((((n >> 40u64) & 0xff)
        as u8) as u64) << 40u64 | ((((n >> 48u64) & 0xff) as u8) as u64) << 48u64 | ((((n
        >> 56u64) & 0xff) as u8) as u64) << 56u64 == n) by (bit_vector);
}

/// Decoding four bytes gives back the integer that was encoded.
pub proof fn lemma_u32_round_trip(n: u32)
    ensures
        u32_from_le(u32_to_le(n)) == n,
{
    let b = u32_to_le(n);
    assert(b[0] == (n & 0xff) as u8 && b[1] == ((n >> 8u32) & 0xff) as u8 && b[2] == ((n
        >> 16u32) & 0xff) as u8 && b[3] == ((n >> 24u32) & 0xff) as u8);
    assert((((n & 0xff) as u8) as u32) | ((((n >> 8u32) & 0xff) as u8) as u32) << 8u32 | ((((n
        >> 16u32) & 0xff) as u8) as u32) << 16u32 | ((((n >> 24u32) & 0xff) as u8) as u32)
        << 24u32 == n) by (bit_vector);
}

/// Whether two byte strings are equal.
pub fn bytes_eq(a: &[u8], b: &[u8]) -> (r: bool)
    ensures
        r == (a@ == b@),
{
    if a.len() != b.len() {
        return false;
    }
    let mut i: usize = 0;
    while i < a.len()
        invariant
            a@.len() == b@.len(),
            0 <= i <= a@.len(),
            a@.subrange(0, i as int) == b@.subrange(0, i as int),
        decreases a@.len() - i,
    {
        if a[i] != b[i] {
            assert(a@[i as int] != b@[i as int]);
            return false;
        }
        assert(a@.subrange(0, i + 1) == a@.subrange(0, i as int).push(a@[i as int]));
        assert(b@.subrange(0, i + 1) == b@.subrange(0, i as int).push(b@[i as int]));
        i = i + 1;
    }
    assert(a@ == a@.subrange(0, a@.len() as int));
    assert(b@ == b@.subrange(0, b@.len() as int));
    true
}

/// Whether `s` begins with `p`.
pub fn starts_with(s: &[u8], p: &[u8]) -> (r: bool)
    ensures
        r == (p@.len() <= s@.len() && s@.subrange(0, p@.len() as int) == p@),
{
    if p.len() > s.len() {
        return false;
    }
    let mut i: usize = 0;
    while i < p.len()
        invariant
            p@.len() <= s@.len(),
            0 <= i <= p@.len(),
            s@.subrange(0, i as int) == p@.subrange(0, i as int),
        decreases p@.len() - i,
    {
        if s[i] != p[i] {
            assert(s@.subrange(0, p@.len() as int)[i as int] != p@[i as int]);
            return false;
        }
        assert(s@.subrange(0, i + 1) == s@.subrange(0, i as int).push(s@[i as int]));
        assert(p@.subrange(0, i + 1) == p@.subrange(0, i as int).push(p@[i as int]));
        i = i + 1;
    }
    assert(p@ == p@.subrange(0, p@.len() as int));
    true
}

/// Append the bytes of `src` to `dst`.
pub fn append_bytes(dst: &mut Vec<u8>, src: &[u8])
    ensures
        final(dst)@ == old(dst)@ + src@,
{
    let ghost d0 = dst@;
    let mut i: usize = 0;
    while i < src.len()
        invariant
            0 <= i <= src@.len(),
            dst@ == d0 + src@.subrange(0, i as int),
        decreases src@.len() - i,
    {
        dst.push(src[i]);
        assert(src@.subrange(0, i + 1) == src@.subrange(0, i as int).push(src@[i as int]));
        i = i + 1;
    }
    assert(src@ == src@.subrange(0, src@.len() as int));
}

/// A fresh copy of `src`.
pub fn copy_bytes(src: &[u8]) -> (r: Vec<u8>)
    ensures
        r@ == src@,
{
    let mut r: Vec<u8> = Vec::new();
    append_bytes(&mut r, src);
    assert(r@ == Seq::<u8>::empty() + src@);
    r
}

/// The bytes of `s[start..end]`.
pub fn slice_bytes(s: &[u8], start: usize, end: usize) -> (r: Vec<u8>)
    requires
        start <= end <= s@.len(),
    ensures
        r@ == s@.subrange(start as int, end as int),
{
    let mut r: Vec<u8> = Vec::new();
    let mut i: usize = start;
    while i < end
        invariant
            start <= i <= end <= s@.len(),
            r@ == s@.subrange(start as int, i as int),
        decreases end - i,
    {
        r.push(s[i]);
        assert(s@.subrange(start as int, i + 1) == s@.subrange(start as int, i as int).push(
            s@[i as int],
        ));
        i = i + 1;
    }
    r
}

/// The eight little-endian bytes of `n`.
pub fn encode_u64(n: u64) -> (r: Vec<u8>)
    ensures
        r@ == u64_to_le(n),
{
    let mut r: Vec<u8> = Vec::new();
    r.push((n & 0xff) as u8);
    r.push(((n >> 8u64) & 0xff) as u8);
    r.push(((n >> 16u64) & 0xff) as u8);
    r.push(((n >> 24u64) & 0xff) as u8);
    r.push(((n >> 32u64) & 0xff) as u8);
    r.push(((n >> 40u64) & 0xff) as u8);
    r.push(((n >> 48u64) & 0xff) as u8);
    r.push(((n >> 56u64) & 0xff) as u8);
    assert(r@ == u64_to_le(n));
    r
}

/// The integer held by exactly eight little-endian bytes.
pub fn decode_u64(b: &[u8]) -> (r: Option<u64>)
    ensures
        r is Some <==> b@.len() == 8,
        r is Some ==> r->0 == u64_from_le(b@),
{
    if b.len() != 8 {
        return None;
    }
    Some(
        (b[0] as u64) | ((b[1] as u64) << 8u64) | ((b[2] as u64) << 16u64) | ((b[3] as u64)
            << 24u64) | ((b[4] as u64) << 32u64) | ((b[5] as u64) << 40u64) | ((b[6] as u64)
            << 48u64) | ((b[7] as u64) << 56u64),
    )
}

/// Append `b` preceded by its four-byte length.
pub fn append_len_prefixed(dst: &mut Vec<u8>, b: &[u8])
    requires
        b@.len() <= u32::MAX,
    ensures
        final(dst)@ == old(dst)@ + len_prefixed(b@),
{
    let n = b.len() as u32;
    dst.push((n & 0xff) as u8);
    dst.push(((n >> 8u32) & 0xff) as u8);
    dst.push(((n >> 16u32) & 0xff) as u8);
    dst.push(((n >> 24u32) & 0xff) as u8);
    let ghost mid = dst@;
    append_bytes(dst, b);
    assert(u32_to_le(n) == seq![
        (n & 0xff) as u8,
        ((n >> 8u32) & 0xff) as u8,
        ((n >> 16u32) & 0xff) as u8,
        ((n >> 24u32) & 0xff) as u8,
    ]);
    assert(final(dst)@ == old(dst)@ + len_prefixed(b@));
}

/// Read a length-prefixed byte string at `pos`; returns it and the position
/// just past it.
pub fn read_len_prefixed(s: &[u8], pos: usize) -> (r: Option<(Vec<u8>, usize)>)
    requires
        pos <= s@.len(),
    ensures
        r is Some <==> (pos + 4 <= s@.len() && pos + 4 + u32_from_le(s@.subrange(
            pos as int,
            pos + 4,
        )) <= s@.len()),
        r matches Some((v, end)) ==> ({
            let n = u32_from_le(s@.subrange(pos as int, pos + 4));
            &&& end == pos + 4 + n
            &&& v@ == s@.subrange(pos + 4, pos + 4 + n)
        }),
{
    if s.len() - pos < 4 {
        return None;
    }
    let n = (s[pos] as u32) | ((s[pos + 1] as u32) << 8u32) | ((s[pos + 2] as u32) << 16u32) | ((
    s[pos + 3] as u32) << 24u32);
    let ghost h = s@.subrange(pos as int, pos + 4);
    assert(h[0] == s@[pos as int] && h[1] == s@[pos + 1] && h[2] == s@[pos + 2] && h[3] == s@[pos
        + 3]);
    assert(n == u32_from_le(h));
    if (n as usize) > s.len() - pos - 4 {
        return None;
    }
    let end = pos + 4 + n as usize;
    let v = slice_bytes(s, pos + 4, end);
    Some((v, end))
}

/// Four bytes read as an integer encode back to themselves.
pub proof fn lemma_u32_le_bytes(b: Seq<u8>)
    requires
        b.len() == 4,
    ensures
        u32_to_le(u32_from_le(b)) == b,
{
    let (b0, b1, b2, b3) = (b[0], b[1], b[2], b[3]);
    let x = u32_from_le(b);
    assert(x == (b0 as u32) | ((b1 as u32) << 8u32) | ((b2 as u32) << 16u32) | ((b3 as u32) << 24u32));
    assert(((((b0 as u32) | ((b1 as u32) << 8u32) | ((b2 as u32) << 16u32) | ((b3 as u32) << 24u32)) & 0xff) as u8) == b0) by (bit_vector);
    assert((((((b0 as u32) | ((b1 as u32) << 8u32) | ((b2 as u32) << 16u32) | ((b3 as u32) << 24u32)) >> 8u32) & 0xff) as u8) == b1) by (bit_vector);
    assert((((((b0 as u32) | ((b1 as u32) << 8u32) | ((b2 as u32) << 16u32) | ((b3 as u32) << 24u32)) >> 16u32) & 0xff) as u8) == b2) by (bit_vector);
    assert((((((b0 as u32) | ((b1 as u32) << 8u32) | ((b2 as u32) << 16u32) | ((b3 as u32) << 24u32)) >> 24u32) & 0xff) as u8) == b3) by (bit_vector);
    assert(u32_to_le(x) =~= b);
}

/// Eight bytes read as an integer encode back to themselves.
pub proof fn lemma_u64_le_bytes(b: Seq<u8>)
    requires
        b.len() == 8,
    ensures
        u64_to_le(u64_from_le(b)) == b,
{
    let (b0, b1, b2, b3, b4, b5, b6, b7) = (b[0], b[1], b[2], b[3], b[4], b[5], b[6], b[7]);
    let x = u64_from_le(b);
    assert(x == (b0 as u64) | ((b1 as u64) << 8u64) | ((b2 as u64) << 16u64) | ((b3 as u64) << 24u64)
        | ((b4 as u64) << 32u64) | ((b5 as u64) << 40u64) | ((b6 as u64) << 48u64) | ((b7 as u64) << 56u64));
    assert({
        let y = (b0 as u64) | ((b1 as u64) << 8u64) | ((b2 as u64) << 16u64) | ((b3 as u64) << 24u64)
            | ((b4 as u64) << 32u64) | ((b5 as u64) << 40u64) | ((b6 as u64) << 48u64) | ((b7 as u64) << 56u64);
        &&& (y & 0xff) as u8 == b0
        &&& ((y >> 8u64) & 0xff) as u8 == b1
        &&& ((y >> 16u64) & 0xff) as u8 == b2
        &&& ((y >> 24u64) & 0xff) as u8 == b3
        &&& ((y >> 32u64) & 0xff) as u8 == b4
        &&& ((y >> 40u64) & 0xff) as u8 == b5
        &&& ((y >> 48u64) & 0xff) as u8 == b6
        &&& ((y >> 56u64) & 0xff) as u8 == b7
    }) by (bit_vector);
    assert(u64_to_le(x) =~= b);
}

/// Byte strings each preceded by its length, one after the other.
pub open spec fn concat_len_prefixed(items: Seq<Seq<u8>>) -> Seq<u8>
    decreases items.len(),
{
    if items.len() == 0 {
        Seq::empty()
    } else {
        concat_len_prefixed(items.drop_last()) + len_prefixed(items.last())
    }
}

/// A list of byte strings: the count as four little-endian bytes, then each
/// string preceded by its length.
pub open spec fn list_encoding(items: Seq<Seq<u8>>) -> Seq<u8> {
    u32_to_le(items.len() as u32) + concat_len_prefixed(items)
}

/// Every string of the list fits a four-byte length, and so does the count.
pub open spec fn list_fits(items: Seq<Seq<u8>>) -> bool {
    items.len() <= u32::MAX && forall|i: int| 0 <= i < items.len() ==> (#[trigger] items[i]).len() <= u32::MAX
}

/// The first string of a list comes first in its encoding.
pub proof fn lemma_concat_front(items: Seq<Seq<u8>>)
    requires
        items.len() >= 1,
    ensures
        concat_len_prefixed(items) == len_prefixed(items[0]) + concat_len_prefixed(items.drop_first()),
    decreases items.len(),
{
    if items.len() == 1 {
        assert(items.drop_first() =~= Seq::<Seq<u8>>::empty());
        assert(items.drop_last() =~= Seq::<Seq<u8>>::empty());
        assert(concat_len_prefixed(Seq::<Seq<u8>>::empty()) == Seq::<u8>::empty());
        assert(items.last() == items[0]);
        assert(concat_len_prefixed(items) == concat_len_prefixed(items.drop_last()) + len_prefixed(items.last()));
        assert(concat_len_prefixed(items) =~= len_prefixed(items[0]));
        assert(concat_len_prefixed(items.drop_first()) == Seq::<u8>::empty());
    } else {
        lemma_concat_front(items.drop_last());
        assert(items.drop_last().drop_first() =~= items.drop_first().drop_last());
        assert(items.drop_first().last() == items.last());
        assert(concat_len_prefixed(items) =~= len_prefixed(items[0]) + concat_len_prefixed(items.drop_first()));
    }
}

/// A length-prefixed string is told apart from what follows it.
pub proof fn lemma_len_prefixed_split(a: Seq<u8>, r1: Seq<u8>, b: Seq<u8>, r2: Seq<u8>)
    requires
        a.len() <= u32::MAX,
        b.len() <= u32::MAX,
        len_prefixed(a) + r1 == len_prefixed(b) + r2,
    ensures
        a == b,
        r1 == r2,
{
    let x = len_prefixed(a) + r1;
    let y = len_prefixed(b) + r2;
    assert(x.subrange(0, 4) =~= u32_to_le(a.len() as u32));
    assert(y.subrange(0, 4) =~= u32_to_le(b.len() as u32));
    lemma_u32_round_trip(a.len() as u32);
    lemma_u32_round_trip(b.len() as u32);
    assert(a =~= x.subrange(4, 4 + a.len() as int));
    assert(b =~= y.subrange(4, 4 + b.len() as int));
    assert(r1 =~= x.subrange(4 + a.len() as int, x.len() as int));
    assert(r2 =~= y.subrange(4 + b.len() as int, y.len() as int));
}

/// Lists of equal count with equal encodings are equal.
pub proof fn lemma_concat_injective(xs: Seq<Seq<u8>>, ys: Seq<Seq<u8>>)
    requires
        xs.len() == ys.len(),
        list_fits(xs),
        list_fits(ys),
        concat_len_prefixed(xs) == concat_len_prefixed(ys),
    ensures
        xs == ys,
    decreases xs.len(),
{
    if xs.len() > 0 {
        lemma_concat_front(xs);
        lemma_concat_front(ys);
        lemma_len_prefixed_split(xs[0], concat_len_prefixed(xs.drop_first()), ys[0], concat_len_prefixed(ys.drop_first()));
        assert forall|i: int| 0 <= i < xs.drop_first().len() implies (#[trigger] xs.drop_first()[i]).len() <= u32::MAX by {
            assert(xs.drop_first()[i] == xs[i + 1]);
        }
        assert forall|i: int| 0 <= i < ys.drop_first().len() implies (#[trigger] ys.drop_first()[i]).len() <= u32::MAX by {
            assert(ys.drop_first()[i] == ys[i + 1]);
        }
        lemma_concat_injective(xs.drop_first(), ys.drop_first());
        assert(xs =~= seq![xs[0]] + xs.drop_first());
        assert(ys =~= seq![ys[0]] + ys.drop_first());
    } else {
        assert(xs =~= ys);
    }
}

/// Lists with equal encodings are equal.
pub proof fn lemma_list_encoding_injective(xs: Seq<Seq<u8>>, ys: Seq<Seq<u8>>)
    requires
        list_fits(xs),
        list_fits(ys),
        list_encoding(xs) == list_encoding(ys),
    ensures
        xs == ys,
{
    let e = list_encoding(xs);
    assert(e.subrange(0, 4) =~= u32_to_le(xs.len() as u32));
    assert(list_encoding(ys).subrange(0, 4) =~= u32_to_le(ys.len() as u32));
    lemma_u32_round_trip(xs.len() as u32);
    lemma_u32_round_trip(ys.len() as u32);
    assert(concat_len_prefixed(xs) =~= e.subrange(4, e.len() as int));
    assert(concat_len_prefixed(ys) =~= list_encoding(ys).subrange(4, e.len() as int));
    lemma_concat_injective(xs, ys);
}

/// Decode a list of byte strings that fills `s` exactly.
pub fn decode_byte_list(s: &[u8]) -> (r: Option<Vec<Vec<u8>>>)
    ensures
        r matches Some(items) ==> list_encoding(items@.map_values(|v: Vec<u8>| v@)) == s@ && list_fits(
            items@.map_values(|v: Vec<u8>| v@),
        ),
        forall|w: Seq<Seq<u8>>| #[trigger] list_encoding(w) == s@ && list_fits(w) ==> (r matches Some(items)
            && items@.map_values(|v: Vec<u8>| v@) == w),
{
    let ghost has_w = exists|w: Seq<Seq<u8>>| #[trigger] list_encoding(w) == s@ && list_fits(w);
    let ghost w = if has_w { choose|w: Seq<Seq<u8>>| #[trigger] list_encoding(w) == s@ && list_fits(w) } else { Seq::empty() };
    proof {
        if has_w {
            assert(s@.subrange(0, 4) =~= u32_to_le(w.len() as u32));
            lemma_u32_round_trip(w.len() as u32);
            assert(s@.subrange(4, s@.len() as int) =~= concat_len_prefixed(w));
            assert(w.skip(0) =~= w);
        }
    }
    if s.len() < 4 {
        return None;
    }
    let count = (s[0] as u32) | ((s[1] as u32) << 8u32) | ((s[2] as u32) << 16u32) | ((s[3] as u32) << 24u32);
    let ghost head = s@.subrange(0, 4);
    assert(head[0] == s@[0] && head[1] == s@[1] && head[2] == s@[2] && head[3] == s@[3]);
    assert(count == u32_from_le(head));
    let mut items: Vec<Vec<u8>> = Vec::new();
    let mut pos: usize = 4;
    let mut i: u32 = 0;
    while i < count
        invariant
            4 <= pos <= s@.len(),
            0 <= i <= count,
            count == u32_from_le(head),
            head == s@.subrange(0, 4),
            items@.len() == i,
            s@.subrange(4, pos as int) == concat_len_prefixed(items@.map_values(|v: Vec<u8>| v@)),
            forall|j: int| 0 <= j < items@.len() ==> (#[trigger] items@[j])@.len() <= u32::MAX,
            has_w == exists|w: Seq<Seq<u8>>| #[trigger] list_encoding(w) == s@ && list_fits(w),
            has_w ==> list_encoding(w) == s@,
            has_w ==> list_fits(w) && count == w.len() && items@.map_values(|v: Vec<u8>| v@) == w.take(i as int)
                && s@.subrange(pos as int, s@.len() as int) == concat_len_prefixed(w.skip(i as int)),
        decreases count - i,
    {
        proof {
            if has_w {
                lemma_concat_front(w.skip(i as int));
                assert(w.skip(i as int)[0] == w[i as int]);
                assert(w.skip(i as int).drop_first() =~= w.skip(i + 1));
                let rest = s@.subrange(pos as int, s@.len() as int);
                assert(rest.subrange(0, 4) =~= u32_to_le(w[i as int].len() as u32));
                assert(s@.subrange(pos as int, pos + 4) =~= rest.subrange(0, 4));
                lemma_u32_round_trip(w[i as int].len() as u32);
                assert(rest.len() >= 4 + w[i as int].len());
                assert(u32_from_le(s@.subrange(pos as int, pos + 4)) == w[i as int].len());
            }
        }
        match read_len_prefixed(s, pos) {
            Some((item, end)) => {
                let ghost views = items@.map_values(|v: Vec<u8>| v@);
                proof {
                    let h = s@.subrange(pos as int, pos + 4);
                    lemma_u32_le_bytes(h);
                    assert(item@.len() == u32_from_le(h));
                    assert(len_prefixed(item@) =~= s@.subrange(pos as int, end as int));
                    assert(s@.subrange(4, end as int) =~= s@.subrange(4, pos as int) + s@.subrange(pos as int, end as int));
                    if has_w {
                        let rest = s@.subrange(pos as int, s@.len() as int);
                        assert(rest =~= len_prefixed(item@) + s@.subrange(end as int, s@.len() as int));
                        lemma_len_prefixed_split(item@, s@.subrange(end as int, s@.len() as int), w[i as int], concat_len_prefixed(w.skip(i + 1)));
                        assert(w.take(i + 1) =~= w.take(i as int).push(w[i as int]));
                    }
                }
                items.push(item);
                assert(items@.map_values(|v: Vec<u8>| v@).drop_last() =~= views);
                assert(items@.map_values(|v: Vec<u8>| v@) =~= views.push(item@));
                pos = end;
            },
            None => {
                return None;
            },
        }
        i = i + 1;
    }
    if pos != s.len() {
        proof {
            if has_w {
                assert(w.skip(i as int) =~= Seq::<Seq<u8>>::empty());
            }
        }
        return None;
    }
    proof {
        lemma_u32_le_bytes(head);
        assert(s@ =~= head + s@.subrange(4, pos as int));
        let views = items@.map_values(|v: Vec<u8>| v@);
        assert(views.len() == count);
        assert forall|j: int| 0 <= j < views.len() implies (#[trigger] views[j]).len() <= u32::MAX by {
            assert(views[j] == items@[j]@);
        }
        assert forall|w2: Seq<Seq<u8>>| #[trigger] list_encoding(w2) == s@ && list_fits(w2) implies views == w2 by {
            lemma_list_encoding_injective(views, w2);
        }
    }
    Some(items)
}

} // verus!
