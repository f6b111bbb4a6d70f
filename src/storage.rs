//! Committed key/value storage with chain metadata and the generator of
//! established addresses.
use vstd::prelude::*;
use crate::address::Address;
use crate::codec::{copy_bytes, starts_with};
use crate::key::{join, Key, valid_segments};

verus! {

/// The value of the last entry under `k`, if any.
pub open spec fn lookup<V>(s: Seq<(Seq<Seq<u8>>, V)>, k: Seq<Seq<u8>>) -> Option<V>
    decreases s.len(),
{
    if s.len() == 0 {
        None
    } else if s.last().0 == k {
        Some(s.last().1)
    } else {
        lookup(s.drop_last(), k)
    }
}

/// No key occurs twice.
pub open spec fn unique_keys<V>(s: Seq<(Seq<Seq<u8>>, V)>) -> bool {
    forall|i: int, j: int| 0 <= i < j < s.len() ==> (#[trigger] s[i]).0 != (#[trigger] s[j]).0
}

/// The entries of `s` whose key text begins with `p`, in order.
pub open spec fn prefix_items(s: Seq<(Seq<Seq<u8>>, Seq<u8>)>, p: Seq<u8>) -> Seq<
    (Seq<Seq<u8>>, Seq<u8>),
>
    decreases s.len(),
{
    if s.len() == 0 {
        Seq::empty()
    } else {
        let rest = prefix_items(s.drop_last(), p);
        let t = join(s.last().0);
        if p.len() <= t.len() && t.subrange(0, p.len() as int) == p {
            rest.push(s.last())
        } else {
            rest
        }
    }
}

pub proof fn lemma_lookup_push<V>(s: Seq<(Seq<Seq<u8>>, V)>, e: (Seq<Seq<u8>>, V), k: Seq<Seq<u8>>)
    ensures
        lookup(s.push(e), k) == if e.0 == k { Some(e.1) } else { lookup(s, k) },
{
    assert(s.push(e).drop_last() =~= s);
}

/// Updating the last entry of a key changes the lookup of that key only.
pub proof fn lemma_lookup_update<V>(s: Seq<(Seq<Seq<u8>>, V)>, i: int, v: V, k: Seq<Seq<u8>>)
    requires
        0 <= i < s.len(),
        forall|j: int| i < j < s.len() ==> (#[trigger] s[j]).0 != s[i].0,
    ensures
        lookup(s.update(i, (s[i].0, v)), k) == if k == s[i].0 { Some(v) } else { lookup(s, k) },
    decreases s.len(),
{
    let t = s.update(i, (s[i].0, v));
    if i == s.len() - 1 {
        assert(t.drop_last() =~= s.drop_last());
    } else {
        assert(t.drop_last() =~= s.drop_last().update(i, (s[i].0, v)));
        lemma_lookup_update(s.drop_last(), i, v, k);
    }
}

/// Removing an entry of another key leaves the lookup of `k` as it was.
pub proof fn lemma_lookup_remove<V>(s: Seq<(Seq<Seq<u8>>, V)>, i: int, k: Seq<Seq<u8>>)
    requires
        0 <= i < s.len(),
        s[i].0 != k,
    ensures
        lookup(s.remove(i), k) == lookup(s, k),
    decreases s.len(),
{
    if i == s.len() - 1 {
        assert(s.remove(i) =~= s.drop_last());
    } else {
        assert(s.remove(i).drop_last() =~= s.drop_last().remove(i));
        assert(s.remove(i).last() == s.last());
        lemma_lookup_remove(s.drop_last(), i, k);
    }
}

/// Where no entry has key `k`, the lookup finds nothing.
pub proof fn lemma_lookup_none<V>(s: Seq<(Seq<Seq<u8>>, V)>, k: Seq<Seq<u8>>)
    requires
        forall|j: int| 0 <= j < s.len() ==> (#[trigger] s[j]).0 != k,
    ensures
        lookup(s, k) is None,
    decreases s.len(),
{
    if s.len() > 0 {
        lemma_lookup_none(s.drop_last(), k);
    }
}

/// The lookup finds the last entry of its key.
pub proof fn lemma_lookup_last<V>(s: Seq<(Seq<Seq<u8>>, V)>, i: int)
    requires
        0 <= i < s.len(),
        forall|j: int| i < j < s.len() ==> (#[trigger] s[j]).0 != s[i].0,
    ensures
        lookup(s, s[i].0) == Some(s[i].1),
    decreases s.len(),
{
    if i < s.len() - 1 {
        lemma_lookup_last(s.drop_last(), i);
    }
}

/// Find the last entry whose key is `key`.
pub fn find_last<V>(entries: &Vec<(Key, V)>, key: &Key) -> (r: Option<usize>)
    ensures
        r matches Some(i) ==> i < entries@.len() && entries@[i as int].0@ == key@ && forall|
            j: int,
        |
            i < j < entries@.len() ==> (#[trigger] entries@[j]).0@ != key@,
        r is None ==> forall|j: int| 0 <= j < entries@.len() ==> (#[trigger] entries@[j]).0@ != key@,
{
    let mut i: usize = entries.len();
    while i > 0
        invariant
            0 <= i <= entries@.len(),
            forall|j: int| i <= j < entries@.len() ==> (#[trigger] entries@[j]).0@ != key@,
        decreases i,
    {
        if entries[i - 1].0.same(key) {
            return Some(i - 1);
        }
        i = i - 1;
    }
    None
}

/// An established-address generator: a counter of the addresses issued.
#[derive(Debug, Clone, Copy, PartialEq, Eq, Structural)]
pub struct AddressGen {
    pub counter: u64,
}

/// The hexadecimal digit of `d`, which is below 16.
pub open spec fn hex_digit(d: u64) -> u8 {
    if d < 10 {
        (48 + d) as u8
    } else {
        (87 + d) as u8
    }
}

/// The sixteen hexadecimal digits of `n`, most significant first.
pub open spec fn hex16(n: u64) -> Seq<u8> {
    Seq::new(16, |i: int| hex_digit((n >> ((60 - 4 * i) as u64)) & 15))
}

fn hex_digit_exec(d: u64) -> (r: u8)
    requires
        d < 16,
    ensures
        r == hex_digit(d),
{
    if d < 10 {
        (48 + d) as u8
    } else {
        (87 + d) as u8
    }
}

impl AddressGen {
    /// The address that the next call of `generate_address` gives.
    pub open spec fn next_spec(self) -> Seq<u8> {
        crate::address::est_tag() + hex16(self.counter)
    }

    /// Issue a fresh established address.
    pub fn generate_address(&mut self) -> (r: Address)
        requires
            old(self).counter < u64::MAX,
        ensures
            r@ == old(self).next_spec(),
            r is Established,
            r.wf(),
            final(self).counter == old(self).counter + 1,
    {
        let n = self.counter;
        let mut id: Vec<u8> = Vec::new();
        let mut i: u64 = 0;
        while i < 16
            invariant
                0 <= i <= 16,
                id@ =~= hex16(n).subrange(0, i as int),
            decreases 16 - i,
        {
            let sh: u64 = 60 - 4 * i;
            let d = (n >> sh) & 15;
            assert(((n >> sh) & 15u64) < 16u64) by (bit_vector);
            assert(hex16(n)[i as int] == hex_digit(d));
            assert(hex16(n).subrange(0, i + 1) =~= hex16(n).subrange(0, i as int).push(hex_digit(d)));
            id.push(hex_digit_exec(d));
            i = i + 1;
        }
        self.counter = n + 1;
        let r = Address::Established(id);
        assert forall|j: int| 0 <= j < id@.len() implies id@[j] != crate::address::SLASH by {
            let sh = (60 - 4 * j) as u64;
            assert(((n >> sh) & 15u64) < 16u64) by (bit_vector);
        }
        r
    }
}

proof fn lemma_hex_digit_injective(a: u64, b: u64)
    requires
        a < 16,
        b < 16,
        hex_digit(a) == hex_digit(b),
    ensures
        a == b,
{
}

/// The `i`-th hexadecimal digit of `n`, most significant first.
pub open spec fn nibble(n: u64, i: int) -> u64 {
    (n >> ((60 - 4 * i) as u64)) & 15
}

proof fn lemma_same_nibble(g1: AddressGen, g2: AddressGen, i: int)
    requires
        0 <= i < 16,
        g1.next_spec() == g2.next_spec(),
    ensures
        nibble(g1.counter, i) == nibble(g2.counter, i),
{
    let n = g1.counter;
    let m = g2.counter;
    let sh = (60 - 4 * i) as u64;
    assert(((n >> sh) & 15u64) < 16u64) by (bit_vector);
    assert(((m >> sh) & 15u64) < 16u64) by (bit_vector);
    assert(g1.next_spec()[3 + i] == hex16(n)[i]);
    assert(g2.next_spec()[3 + i] == hex16(m)[i]);
    lemma_hex_digit_injective((n >> sh) & 15, (m >> sh) & 15);
}

/// Generators at different counts issue different addresses, so each
/// account initialization of a block gets a fresh address.
pub proof fn law_generated_addresses_distinct(g1: AddressGen, g2: AddressGen)
    requires
        g1.counter != g2.counter,
    ensures
        g1.next_spec() != g2.next_spec(),
{
    let n = g1.counter;
    let m = g2.counter;
    if g1.next_spec() == g2.next_spec() {
        lemma_same_nibble(g1, g2, 0);
        lemma_same_nibble(g1, g2, 1);
        lemma_same_nibble(g1, g2, 2);
        lemma_same_nibble(g1, g2, 3);
        lemma_same_nibble(g1, g2, 4);
        lemma_same_nibble(g1, g2, 5);
        lemma_same_nibble(g1, g2, 6);
        lemma_same_nibble(g1, g2, 7);
        lemma_same_nibble(g1, g2, 8);
        lemma_same_nibble(g1, g2, 9);
        lemma_same_nibble(g1, g2, 10);
        lemma_same_nibble(g1, g2, 11);
        lemma_same_nibble(g1, g2, 12);
        lemma_same_nibble(g1, g2, 13);
        lemma_same_nibble(g1, g2, 14);
        lemma_same_nibble(g1, g2, 15);
        assert(n == m) by (bit_vector)
            requires
                ((n >> 60u64) & 15) == ((m >> 60u64) & 15) && ((n >> 56u64) & 15) == ((m >> 56u64) & 15) && ((n
                    >> 52u64) & 15) == ((m >> 52u64) & 15) && ((n >> 48u64) & 15) == ((m >> 48u64) & 15) && ((n
                    >> 44u64) & 15) == ((m >> 44u64) & 15) && ((n >> 40u64) & 15) == ((m >> 40u64) & 15) && ((n
                    >> 36u64) & 15) == ((m >> 36u64) & 15) && ((n >> 32u64) & 15) == ((m >> 32u64) & 15) && ((n
                    >> 28u64) & 15) == ((m >> 28u64) & 15) && ((n >> 24u64) & 15) == ((m >> 24u64) & 15) && ((n
                    >> 20u64) & 15) == ((m >> 20u64) & 15) && ((n >> 16u64) & 15) == ((m >> 16u64) & 15) && ((n
                    >> 12u64) & 15) == ((m >> 12u64) & 15) && ((n >> 8u64) & 15) == ((m >> 8u64) & 15) && ((n
                    >> 4u64) & 15) == ((m >> 4u64) & 15) && ((n >> 0u64) & 15) == ((m >> 0u64) & 15),
        ;
    }
}

/// Committed storage.
#[derive(Debug)]
pub struct Storage {
    pub entries: Vec<(Key, Vec<u8>)>,
    pub chain_id: Vec<u8>,
    pub block_height: u64,
    pub block_hash: Vec<u8>,
    pub block_epoch: u64,
    pub address_gen: AddressGen,
}

/// Gas of a storage access of a key text of `k` bytes and a value of `v`
/// bytes, capped at the largest `u64`.
pub open spec fn access_gas(k: nat, v: nat) -> u64 {
    if k + v > u64::MAX {
        u64::MAX
    } else {
        (k + v) as u64
    }
}

pub fn access_gas_exec(k: usize, v: usize) -> (r: u64)
    ensures
        r == access_gas(k as nat, v as nat),
{
    let a = k as u64;
    let b = v as u64;
    if a > u64::MAX - b {
        u64::MAX
    } else {
        a + b
    }
}

impl Storage {
    /// The entries as (key, value) views.
    pub open spec fn view_entries(&self) -> Seq<(Seq<Seq<u8>>, Seq<u8>)> {
        self.entries@.map_values(|e: (Key, Vec<u8>)| (e.0@, e.1@))
    }

    /// The committed value under `k`.
    pub open spec fn value_of(&self, k: Seq<Seq<u8>>) -> Option<Seq<u8>> {
        lookup(self.view_entries(), k)
    }

    pub open spec fn wf(&self) -> bool {
        &&& unique_keys(self.view_entries())
        &&& forall|i: int| 0 <= i < self.entries@.len() ==> valid_segments(#[trigger] self.entries@[i].0@)
    }

    /// Empty storage for a chain.
    pub fn new(chain_id: Vec<u8>, block_height: u64, block_hash: Vec<u8>, block_epoch: u64) -> (r: Storage)
        ensures
            r.wf(),
            r.entries@.len() == 0,
            r.chain_id@ == chain_id@,
            r.block_height == block_height,
            r.block_hash@ == block_hash@,
            r.block_epoch == block_epoch,
            r.address_gen.counter == 0,
    {
        Storage {
            entries: Vec::new(),
            chain_id,
            block_height,
            block_hash,
            block_epoch,
            address_gen: AddressGen { counter: 0 },
        }
    }

    fn find(&self, key: &Key) -> (r: Option<usize>)
        requires
            self.wf(),
        ensures
            r matches Some(i) ==> i < self.entries@.len() && self.value_of(key@) == Some(
                self.entries@[i as int].1@,
            ),
            r is None ==> self.value_of(key@) is None,
    {
        let r = find_last(&self.entries, key);
        proof {
            let s = self.view_entries();
            match r {
                Some(i) => {
                    assert forall|j: int| i < j < s.len() implies (#[trigger] s[j]).0 != s[i as int].0 by {
                        assert(self.entries@[j].0@ != key@);
                    }
                    lemma_lookup_last(s, i as int);
                },
                None => {
                    assert forall|j: int| 0 <= j < s.len() implies (#[trigger] s[j]).0 != key@ by {
                        assert(self.entries@[j].0@ != key@);
                    }
                    lemma_lookup_none(s, key@);
                },
            }
        }
        r
    }

    /// Read the committed value under `key`, with the gas of the access.
    pub fn read(&self, key: &Key) -> (r: (Option<Vec<u8>>, u64))
        requires
            self.wf(),
        ensures
            r.0 matches Some(v) ==> self.value_of(key@) == Some(v@),
            r.0 is None ==> self.value_of(key@) is None,
            r.1 == access_gas(join(key@).len(), if r.0 is Some { r.0->0@.len() } else { 0 }),
    {
        let klen = key.to_bytes().len();
        match self.find(key) {
            Some(i) => {
                let v = copy_bytes(self.entries[i].1.as_slice());
                let g = access_gas_exec(klen, v.len());
                (Some(v), g)
            },
            None => (None, access_gas_exec(klen, 0)),
        }
    }

    /// Whether a value is committed under `key`, with the gas of the access.
    pub fn has_key(&self, key: &Key) -> (r: (bool, u64))
        requires
            self.wf(),
        ensures
            r.0 == self.value_of(key@) is Some,
            r.1 == access_gas(join(key@).len(), 0),
    {
        let klen = key.to_bytes().len();
        let found = self.find(key);
        (found.is_some(), access_gas_exec(klen, 0))
    }

    /// Commit `value` under `key`.
    pub fn write(&mut self, key: &Key, value: &[u8])
        requires
            old(self).wf(),
            key.wf(),
        ensures
            final(self).wf(),
            forall|k: Seq<Seq<u8>>| #[trigger] final(self).value_of(k) == if k == key@ {
                Some(value@)
            } else {
                old(self).value_of(k)
            },
            final(self).chain_id == old(self).chain_id,
            final(self).block_height == old(self).block_height,
            final(self).block_hash == old(self).block_hash,
            final(self).block_epoch == old(self).block_epoch,
            final(self).address_gen == old(self).address_gen,
    {
        let ghost s0 = self.view_entries();
        match find_last(&self.entries, key) {
            Some(i) => {
                let v = copy_bytes(value);
                let k = self.entries[i].0.copy();
                self.entries.set(i, (k, v));
                proof {
                    assert(self.view_entries() =~= s0.update(i as int, (s0[i as int].0, value@)));
                    assert forall|j: int| i < j < s0.len() implies (#[trigger] s0[j]).0 != s0[i as int].0 by {
                        assert(old(self).entries@[j].0@ != key@);
                    }
                    assert forall|k: Seq<Seq<u8>>| #[trigger] self.value_of(k) == if k == key@ {
                        Some(value@)
                    } else {
                        old(self).value_of(k)
                    } by {
                        lemma_lookup_update(s0, i as int, value@, k);
                    }
                    assert forall|a: int, b: int| 0 <= a < b < self.view_entries().len() implies
                        (#[trigger] self.view_entries()[a]).0 != (#[trigger] self.view_entries()[b]).0 by {
                        assert(s0[a].0 != s0[b].0);
                    }
                    assert forall|a: int| 0 <= a < self.entries@.len() implies valid_segments(#[trigger] self.entries@[a].0@) by {
                        assert(self.entries@[a].0@ == old(self).entries@[a].0@);
                    }
                }
            },
            None => {
                let v = copy_bytes(value);
                let k = key.copy();
                self.entries.push((k, v));
                proof {
                    assert(self.view_entries() =~= s0.push((key@, value@)));
                    assert forall|k: Seq<Seq<u8>>| #[trigger] self.value_of(k) == if k == key@ {
                        Some(value@)
                    } else {
                        old(self).value_of(k)
                    } by {
                        lemma_lookup_push(s0, (key@, value@), k);
                    }
                    assert forall|a: int, b: int| 0 <= a < b < self.view_entries().len() implies
                        (#[trigger] self.view_entries()[a]).0 != (#[trigger] self.view_entries()[b]).0 by {
                        if b == s0.len() {
                            assert(old(self).entries@[a].0@ != key@);
                        } else {
                            assert(s0[a].0 != s0[b].0);
                        }
                    }
                    assert forall|a: int| 0 <= a < self.entries@.len() implies valid_segments(#[trigger] self.entries@[a].0@) by {
                        if a < s0.len() {
                            assert(self.entries@[a].0@ == old(self).entries@[a].0@);
                        }
                    }
                }
            },
        }
    }

    /// Remove the committed value under `key`.
    pub fn delete(&mut self, key: &Key)
        requires
            old(self).wf(),
        ensures
            final(self).wf(),
            forall|k: Seq<Seq<u8>>| #[trigger] final(self).value_of(k) == if k == key@ {
                None
            } else {
                old(self).value_of(k)
            },
            final(self).chain_id == old(self).chain_id,
            final(self).block_height == old(self).block_height,
            final(self).block_hash == old(self).block_hash,
            final(self).block_epoch == old(self).block_epoch,
            final(self).address_gen == old(self).address_gen,
    {
        let ghost s0 = self.view_entries();
        match find_last(&self.entries, key) {
            Some(i) => {
                self.entries.remove(i);
                proof {
                    let s1 = s0.remove(i as int);
                    assert(self.view_entries() =~= s1);
                    assert forall|k: Seq<Seq<u8>>| #[trigger] self.value_of(k) == if k == key@ {
                        None
                    } else {
                        old(self).value_of(k)
                    } by {
                        if k == key@ {
                            assert forall|j: int| 0 <= j < s1.len() implies (#[trigger] s1[j]).0 != k by {
                                assert(s0[i as int].0 == key@);
                                if j < i {
                                    assert(s1[j] == s0[j]);
                                    assert(s0[j].0 != s0[i as int].0);
                                } else {
                                    assert(s1[j] == s0[j + 1]);
                                    assert(s0[i as int].0 != s0[j + 1].0);
                                }
                            }
                            lemma_lookup_none(s1, k);
                        } else {
                            lemma_lookup_remove(s0, i as int, k);
                        }
                    }
                    assert forall|a: int, b: int| 0 <= a < b < s1.len() implies
                        (#[trigger] s1[a]).0 != (#[trigger] s1[b]).0 by {
                        let a0 = if a < i { a } else { a + 1 };
                        let b0 = if b < i { b } else { b + 1 };
                        assert(s1[a] == s0[a0]);
                        assert(s1[b] == s0[b0]);
                        assert(s0[a0].0 != s0[b0].0);
                    }
                    assert forall|a: int| 0 <= a < self.entries@.len() implies valid_segments(#[trigger] self.entries@[a].0@) by {
                        if a < i {
                            assert(self.entries@[a] == old(self).entries@[a]);
                        } else {
                            assert(self.entries@[a] == old(self).entries@[a + 1]);
                        }
                    }
                }
            },
            None => {
                proof {
                    assert forall|j: int| 0 <= j < s0.len() implies (#[trigger] s0[j]).0 != key@ by {
                        assert(old(self).entries@[j].0@ != key@);
                    }
                    lemma_lookup_none(s0, key@);
                }
            },
        }
    }

    /// The committed entries whose key text begins with `prefix`, in storage
    /// order, with the gas of the access.
    pub fn iter_prefix(&self, prefix: &[u8]) -> (r: (Vec<(Key, Vec<u8>)>, u64))
        requires
            self.wf(),
        ensures
            r.0@.map_values(|e: (Key, Vec<u8>)| (e.0@, e.1@)) == prefix_items(
                self.view_entries(),
                prefix@,
            ),
            forall|i: int| 0 <= i < r.0@.len() ==> valid_segments(#[trigger] r.0@[i].0@),
            r.1 == access_gas(prefix@.len(), 0),
    {
        let mut items: Vec<(Key, Vec<u8>)> = Vec::new();
        let mut i: usize = 0;
        while i < self.entries.len()
            invariant
                self.wf(),
                0 <= i <= self.entries@.len(),
                items@.map_values(|e: (Key, Vec<u8>)| (e.0@, e.1@)) =~= prefix_items(
                    self.view_entries().subrange(0, i as int),
                    prefix@,
                ),
                forall|j: int| 0 <= j < items@.len() ==> valid_segments(#[trigger] items@[j].0@),
            decreases self.entries@.len() - i,
        {
            let ghost pre = self.view_entries().subrange(0, i as int);
            let ghost next = self.view_entries().subrange(0, i + 1);
            assert(next.drop_last() =~= pre);
            let t = self.entries[i].0.to_bytes();
            if starts_with(t.as_slice(), prefix) {
                let k = self.entries[i].0.copy();
                let v = copy_bytes(self.entries[i].1.as_slice());
                assert(valid_segments(self.entries@[i as int].0@));
                items.push((k, v));
            }
            i = i + 1;
        }
        assert(self.view_entries().subrange(0, self.entries@.len() as int) =~= self.view_entries());
        (items, access_gas_exec(prefix.len(), 0))
    }
}

} // verus!
