//! Storage keys: paths of `/`-separated segments; a segment `#<address>`
//! names an account.
use vstd::prelude::*;
use crate::address::{Address, is_address_text, no_slash, valid_id, HASH, SLASH};
use crate::codec::{append_bytes, bytes_eq, copy_bytes, slice_bytes};

verus! {

/// Why a key text was refused.
#[derive(Debug, Clone, Copy, PartialEq, Eq, Structural)]
pub enum KeyError {
    /// The text has an empty segment (it is empty, or has a leading,
    /// trailing or doubled `/`).
    EmptySegment,
}

/// A storage key.
#[derive(Debug, Clone)]
pub struct Key {
    pub segments: Vec<Vec<u8>>,
}

/// The segments of `s`, split at every `/`.
pub open spec fn split_segs(s: Seq<u8>) -> Seq<Seq<u8>>
    decreases s.len(),
{
    if s.len() == 0 {
        seq![Seq::<u8>::empty()]
    } else {
        let r = split_segs(s.drop_last());
        if s.last() == SLASH {
            r.push(Seq::<u8>::empty())
        } else {
            r.update(r.len() - 1, r.last().push(s.last()))
        }
    }
}

/// The text of a key: its segments joined by `/`.
pub open spec fn join(segs: Seq<Seq<u8>>) -> Seq<u8>
    decreases segs.len(),
{
    if segs.len() == 0 {
        Seq::<u8>::empty()
    } else if segs.len() == 1 {
        segs[0]
    } else {
        join(segs.drop_last()) + seq![SLASH] + segs.last()
    }
}

/// A key has at least one segment; every segment is non-empty and free of `/`.
pub open spec fn valid_segments(segs: Seq<Seq<u8>>) -> bool {
    segs.len() >= 1 && forall|i: int| 0 <= i < segs.len() ==> #[trigger] valid_id(segs[i])
}

/// Whether `s` is the text of a key.
pub open spec fn valid_key_text(s: Seq<u8>) -> bool {
    forall|i: int| 0 <= i < split_segs(s).len() ==> #[trigger] split_segs(s)[i].len() > 0
}

/// A segment that names an account: `#` and the address text.
pub open spec fn is_address_seg(seg: Seq<u8>) -> bool {
    seg.len() > 0 && seg[0] == HASH && is_address_text(seg.drop_first())
}

/// The segment that names the account with address text `a`.
pub open spec fn address_seg(a: Seq<u8>) -> Seq<u8> {
    seq![HASH] + a
}

/// The address texts named by the segments, in order.
pub open spec fn addresses_in(segs: Seq<Seq<u8>>) -> Seq<Seq<u8>>
    decreases segs.len(),
{
    if segs.len() == 0 {
        Seq::<Seq<u8>>::empty()
    } else if is_address_seg(segs.last()) {
        addresses_in(segs.drop_last()).push(segs.last().drop_first())
    } else {
        addresses_in(segs.drop_last())
    }
}

/// "#validity_predicate": the first segment of the key of an account's code.
pub open spec fn vp_seg() -> Seq<u8> {
    seq![
        35u8, 118u8, 97u8, 108u8, 105u8, 100u8, 105u8, 116u8, 121u8, 95u8,
        112u8, 114u8, 101u8, 100u8, 105u8, 99u8, 97u8, 116u8, 101u8,
    ]
}

/// The key under which the account with address text `a` keeps its code.
pub open spec fn vp_key(a: Seq<u8>) -> Seq<Seq<u8>> {
    seq![vp_seg(), address_seg(a)]
}

/// Whether the key is that of an account's validity predicate.
pub open spec fn is_vp_key(k: Seq<Seq<u8>>) -> bool {
    k.len() == 2 && k[0] == vp_seg() && is_address_seg(k[1])
}

/// The segment of an address is a valid key segment.
pub proof fn lemma_address_text_valid_id(a: Seq<u8>)
    requires
        is_address_text(a),
    ensures
        valid_id(address_seg(a)),
        no_slash(a),
{
    if a.len() > 3 {
        if a.subrange(0, 3) == crate::address::est_tag() || a.subrange(0, 3)
            == crate::address::imp_tag() {
            assert forall|i: int| 0 <= i < a.len() implies a[i] != SLASH by {
                if i >= 3 {
                    assert(a[i] == a.subrange(3, a.len() as int)[i - 3]);
                } else {
                    assert(a[i] == a.subrange(0, 3)[i]);
                }
            }
        }
    }
    if a == crate::address::ibc_text() || a == crate::address::pos_text() {
        assert(no_slash(a));
    }
    assert forall|i: int| 0 <= i < address_seg(a).len() implies address_seg(a)[i] != SLASH by {
        if i > 0 {
            assert(address_seg(a)[i] == a[i - 1]);
        }
    }
}

pub proof fn lemma_split_segs_len(s: Seq<u8>)
    ensures
        split_segs(s).len() >= 1,
    decreases s.len(),
{
    if s.len() > 0 {
        lemma_split_segs_len(s.drop_last());
    }
}

fn vp_seg_bytes() -> (r: Vec<u8>)
    ensures
        r@ == vp_seg(),
{
    vec![
        35u8, 118u8, 97u8, 108u8, 105u8, 100u8, 105u8, 116u8, 121u8, 95u8,
        112u8, 114u8, 101u8, 100u8, 105u8, 99u8, 97u8, 116u8, 101u8,
    ]
}

/// Whether `seg` names an account; if so, the account.
pub fn address_of_seg(seg: &[u8]) -> (r: Option<Address>)
    ensures
        r is Some <==> is_address_seg(seg@),
        r matches Some(a) ==> seg@ == address_seg(a@) && a.wf(),
{
    if seg.len() == 0 || seg[0] != HASH {
        return None;
    }
    let rest = slice_bytes(seg, 1, seg.len());
    assert(rest@ == seg@.drop_first());
    let r = Address::decode(rest.as_slice());
    proof {
        if r is Some {
            assert(seg@ == address_seg(seg@.drop_first()));
        }
    }
    r
}

impl View for Key {
    type V = Seq<Seq<u8>>;

    open spec fn view(&self) -> Seq<Seq<u8>> {
        self.segments@.map_values(|v: Vec<u8>| v@)
    }
}

impl Key {
    pub open spec fn wf(&self) -> bool {
        valid_segments(self@)
    }

    /// Parse the text of a key.
    pub fn parse(s: &[u8]) -> (r: Result<Key, KeyError>)
        ensures
            r is Ok <==> valid_key_text(s@),
            r matches Ok(k) ==> k@ == split_segs(s@) && k.wf(),
    {
        let mut done: Vec<Vec<u8>> = Vec::new();
        let mut cur: Vec<u8> = Vec::new();
        let mut i: usize = 0;
        while i < s.len()
            invariant
                0 <= i <= s@.len(),
                split_segs(s@.subrange(0, i as int)) == done@.map_values(|v: Vec<u8>| v@).push(
                    cur@,
                ),
                no_slash(cur@),
                forall|j: int| 0 <= j < done@.len() ==> no_slash(#[trigger] done@[j]@),
            decreases s@.len() - i,
        {
            let ghost pre = s@.subrange(0, i as int);
            let ghost old_map = done@.map_values(|v: Vec<u8>| v@);
            let ghost old_cur = cur@;
            assert(s@.subrange(0, i + 1).drop_last() =~= pre);
            assert(s@.subrange(0, i + 1).last() == s@[i as int]);
            if s[i] == SLASH {
                let seg = cur;
                done.push(seg);
                cur = Vec::new();
                assert(done@.map_values(|v: Vec<u8>| v@) =~= old_map.push(old_cur));
            } else {
                cur.push(s[i]);
                assert(no_slash(cur@));
            }
            i = i + 1;
        }
        assert(s@.subrange(0, s@.len() as int) == s@);
        done.push(cur);
        let ghost segs = done@.map_values(|v: Vec<u8>| v@);
        assert(segs == split_segs(s@));
        let mut j: usize = 0;
        while j < done.len()
            invariant
                0 <= j <= done@.len(),
                segs == done@.map_values(|v: Vec<u8>| v@),
                segs == split_segs(s@),
                forall|m: int| 0 <= m < j ==> segs[m].len() > 0,
            decreases done@.len() - j,
        {
            if done[j].len() == 0 {
                assert(split_segs(s@)[j as int].len() == 0);
                return Err(KeyError::EmptySegment);
            }
            j = j + 1;
        }
        let k = Key { segments: done };
        assert(k@ == segs);
        proof {
            assert forall|m: int| 0 <= m < segs.len() implies #[trigger] valid_id(segs[m]) by {
                assert(segs[m] == done@[m]@);
            }
        }
        Ok(k)
    }

    /// The text of the key.
    pub fn to_bytes(&self) -> (r: Vec<u8>)
        ensures
            r@ == join(self@),
    {
        let mut r: Vec<u8> = Vec::new();
        let mut i: usize = 0;
        while i < self.segments.len()
            invariant
                0 <= i <= self@.len(),
                self@.len() == self.segments@.len(),
                r@ == join(self@.subrange(0, i as int)),
            decreases self@.len() - i,
        {
            let ghost pre = self@.subrange(0, i as int);
            assert(self@.subrange(0, i + 1).drop_last() =~= pre);
            if i > 0 {
                r.push(SLASH);
            }
            append_bytes(&mut r, self.segments[i].as_slice());
            proof {
                let next = self@.subrange(0, i + 1);
                if i == 0 {
                    assert(r@ =~= next[0]);
                } else {
                    assert(r@ =~= join(next.drop_last()) + seq![SLASH] + next.last());
                }
            }
            i = i + 1;
        }
        assert(self@.subrange(0, self@.len() as int) =~= self@);
        r
    }

    /// Whether both keys are the same.
    pub fn same(&self, other: &Key) -> (r: bool)
        ensures
            r == (self@ == other@),
    {
        if self.segments.len() != other.segments.len() {
            assert(self@.len() != other@.len());
            return false;
        }
        let mut i: usize = 0;
        while i < self.segments.len()
            invariant
                0 <= i <= self@.len(),
                self@.len() == self.segments@.len() == other.segments@.len() == other@.len(),
                forall|j: int| 0 <= j < i ==> self@[j] == other@[j],
            decreases self@.len() - i,
        {
            assert(self@[i as int] == self.segments@[i as int]@);
            assert(other@[i as int] == other.segments@[i as int]@);
            if !bytes_eq(self.segments[i].as_slice(), other.segments[i].as_slice()) {
                return false;
            }
            i = i + 1;
        }
        assert(self@ =~= other@);
        true
    }

    /// A copy of the key.
    pub fn copy(&self) -> (r: Key)
        ensures
            r@ == self@,
    {
        let mut segs: Vec<Vec<u8>> = Vec::new();
        let mut i: usize = 0;
        while i < self.segments.len()
            invariant
                0 <= i <= self@.len(),
                self@.len() == self.segments@.len(),
                segs@.map_values(|v: Vec<u8>| v@) =~= self@.subrange(0, i as int),
            decreases self@.len() - i,
        {
            assert(self@[i as int] == self.segments@[i as int]@);
            let ghost before = segs@.map_values(|v: Vec<u8>| v@);
            let c = copy_bytes(self.segments[i].as_slice());
            segs.push(c);
            assert(segs@.map_values(|v: Vec<u8>| v@) =~= before.push(c@));
            assert(self@.subrange(0, i + 1) =~= self@.subrange(0, i as int).push(self@[i as int]));
            i = i + 1;
        }
        let r = Key { segments: segs };
        assert(r@ =~= self@);
        r
    }

    /// The number of segments.
    pub fn len(&self) -> (r: usize)
        ensures
            r == self@.len(),
    {
        self.segments.len()
    }

    /// The segment at `i`, if there is one.
    pub fn segment(&self, i: usize) -> (r: Option<Vec<u8>>)
        ensures
            r is Some <==> i < self@.len(),
            r matches Some(s) ==> s@ == self@[i as int],
    {
        if i < self.segments.len() {
            Some(copy_bytes(self.segments[i].as_slice()))
        } else {
            None
        }
    }

    /// The key with one more segment at its end.
    pub fn push(&self, seg: &[u8]) -> (r: Key)
        requires
            self.wf(),
            valid_id(seg@),
        ensures
            r@ == self@.push(seg@),
            r.wf(),
    {
        let mut r = self.copy();
        r.segments.push(copy_bytes(seg));
        assert(r@ =~= self@.push(seg@));
        r
    }

    /// The addresses named by the segments of the key, in order.
    pub fn find_addresses(&self) -> (r: Vec<Address>)
        ensures
            r@.map_values(|a: Address| a@) == addresses_in(self@),
            forall|j: int| 0 <= j < r@.len() ==> (#[trigger] r@[j]).wf(),
    {
        let mut r: Vec<Address> = Vec::new();
        let mut i: usize = 0;
        while i < self.segments.len()
            invariant
                0 <= i <= self@.len(),
                self@.len() == self.segments@.len(),
                r@.map_values(|a: Address| a@) =~= addresses_in(self@.subrange(0, i as int)),
                forall|j: int| 0 <= j < r@.len() ==> (#[trigger] r@[j]).wf(),
            decreases self@.len() - i,
        {
            let ghost pre = self@.subrange(0, i as int);
            let ghost next = self@.subrange(0, i + 1);
            assert(next.drop_last() =~= pre);
            assert(next.last() == self.segments@[i as int]@);
            match address_of_seg(self.segments[i].as_slice()) {
                Some(a) => {
                    r.push(a);
                    assert(address_seg(a@).drop_first() =~= a@);
                },
                None => {},
            }
            assert(r@.map_values(|a: Address| a@) =~= addresses_in(next));
            i = i + 1;
        }
        assert(self@.subrange(0, self@.len() as int) =~= self@);
        r
    }

    /// The key of the validity predicate of `addr`.
    pub fn validity_predicate(addr: &Address) -> (r: Key)
        requires
            addr.wf(),
        ensures
            r@ == vp_key(addr@),
            r.wf(),
    {
        let mut seg: Vec<u8> = vec![HASH];
        let text = addr.encode();
        append_bytes(&mut seg, text.as_slice());
        let mut segs: Vec<Vec<u8>> = Vec::new();
        segs.push(vp_seg_bytes());
        segs.push(seg);
        let r = Key { segments: segs };
        assert(seg@ =~= address_seg(addr@));
        assert(r@ =~= vp_key(addr@));
        proof {
            crate::address::lemma_wf_is_address_text(*addr);
            assert(address_seg(addr@).drop_first() =~= addr@);
            assert(valid_id(vp_seg()));
            lemma_address_text_valid_id(addr@);
            assert(valid_id(address_seg(addr@)));
        }
        r
    }

    /// If this is the key of an account's validity predicate, the account.
    pub fn is_validity_predicate(&self) -> (r: Option<Address>)
        ensures
            r is Some <==> is_vp_key(self@),
            r matches Some(a) ==> self@ == vp_key(a@) && a.wf(),
    {
        if self.segments.len() != 2 {
            return None;
        }
        let vp = vp_seg_bytes();
        if !bytes_eq(self.segments[0].as_slice(), vp.as_slice()) {
            return None;
        }
        let r = address_of_seg(self.segments[1].as_slice());
        proof {
            if r is Some {
                assert(self@ =~= vp_key(r->0@));
            }
        }
        r
    }
}

} // verus!
