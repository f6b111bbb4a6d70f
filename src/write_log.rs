//! The write log: a two-level (transaction, block) journal of storage
//! mutations that overlays committed storage.
use vstd::prelude::*;
use crate::address::Address;
use crate::codec::copy_bytes;
use crate::key::{is_vp_key, join, valid_segments, vp_key, Key};
use crate::storage::{
    access_gas, access_gas_exec, find_last, lemma_lookup_last, lemma_lookup_none,
    lemma_lookup_push, lemma_lookup_update, lookup, unique_keys, AddressGen, Storage,
};

verus! {

/// A staged mutation of one key.
#[derive(Debug, Clone)]
pub enum StorageModification {
    /// A new value.
    Write { value: Vec<u8> },
    /// The key is removed.
    Delete,
    /// A new account with its validity predicate code; stands under the
    /// account's validity-predicate key.
    InitAccount { vp: Vec<u8> },
}

/// What a staged mutation holds.
pub enum ModView {
    Write(Seq<u8>),
    Delete,
    InitAccount(Seq<u8>),
}

impl View for StorageModification {
    type V = ModView;

    open spec fn view(&self) -> ModView {
        match self {
            StorageModification::Write { value } => ModView::Write(value@),
            StorageModification::Delete => ModView::Delete,
            StorageModification::InitAccount { vp } => ModView::InitAccount(vp@),
        }
    }
}

impl StorageModification {
    /// A copy of the mutation.
    pub fn copy(&self) -> (r: StorageModification)
        ensures
            r@ == self@,
    {
        match self {
            StorageModification::Write { value } => StorageModification::Write {
                value: copy_bytes(value.as_slice()),
            },
            StorageModification::Delete => StorageModification::Delete,
            StorageModification::InitAccount { vp } => StorageModification::InitAccount {
                vp: copy_bytes(vp.as_slice()),
            },
        }
    }
}

/// The value that a staged mutation leaves under its key, if any.
pub open spec fn mod_value(m: ModView) -> Option<Seq<u8>> {
    match m {
        ModView::Write(v) => Some(v),
        ModView::Delete => None,
        ModView::InitAccount(vp) => Some(vp),
    }
}

/// The value that a key holds once an optional staged mutation is laid over
/// the committed value `committed`.
pub open spec fn overlay(m: Option<ModView>, committed: Option<Seq<u8>>) -> Option<Seq<u8>> {
    match m {
        Some(m) => mod_value(m),
        None => committed,
    }
}

/// The length of the value a staged mutation records, as `write` counts it.
pub open spec fn recorded_len(m: Option<ModView>) -> nat {
    match m {
        Some(ModView::Write(v)) => v.len(),
        _ => 0,
    }
}

/// Gas of reading a staged mutation under a key text of `klen` bytes.
pub open spec fn read_gas(klen: nat, m: Option<ModView>) -> u64 {
    match m {
        Some(ModView::Write(v)) => access_gas(klen, v.len()),
        Some(ModView::Delete) => access_gas(klen, 0),
        Some(ModView::InitAccount(vp)) => access_gas(klen, vp.len()),
        None => 0,
    }
}

/// Gas of a prior read of `k`.
pub open spec fn pre_read_gas(st: Storage, k: Seq<Seq<u8>>) -> int {
    access_gas(join(k).len(), match st.value_of(k) {
        Some(v) => v.len(),
        None => 0,
    }) as int
}

/// Gas of a prior presence check of `k`.
pub open spec fn pre_has_gas(k: Seq<Seq<u8>>) -> int {
    access_gas(join(k).len(), 0) as int
}

/// Gas of a posterior read of `k`: the write-log read, and the storage read
/// where the log holds no entry.
pub open spec fn post_read_gas(wl: WriteLog, st: Storage, k: Seq<Seq<u8>>) -> int {
    read_gas(join(k).len(), wl.entry(k)) + if wl.entry(k) is None {
        access_gas(join(k).len(), match st.value_of(k) {
            Some(v) => v.len(),
            None => 0,
        }) as int
    } else {
        0int
    }
}

/// Gas of a posterior presence check of `k`.
pub open spec fn post_has_gas(wl: WriteLog, st: Storage, k: Seq<Seq<u8>>) -> int {
    read_gas(join(k).len(), wl.entry(k)) + if wl.entry(k) is None {
        access_gas(join(k).len(), 0) as int
    } else {
        0int
    }
}

/// Why the write log refused a mutation.
#[derive(Debug, Clone, Copy, PartialEq, Eq, Structural)]
pub enum WriteLogError {
    /// A plain write to the validity predicate of an account that this block
    /// initializes.
    UpdateVpOfNewAccount,
    /// A deletion of a validity predicate.
    DeleteVp,
}

/// The entries of a scope as (key, mutation) views.
pub open spec fn scope_view(s: Seq<(Key, StorageModification)>) -> Seq<(Seq<Seq<u8>>, ModView)> {
    s.map_values(|e: (Key, StorageModification)| (e.0@, e.1@))
}

pub open spec fn scope_wf(s: Seq<(Key, StorageModification)>) -> bool {
    &&& unique_keys(scope_view(s))
    &&& forall|i: int| 0 <= i < s.len() ==> valid_segments(#[trigger] s[i].0@)
    &&& no_vp_deletion(scope_view(s))
}

/// No entry deletes the validity predicate of an account.
pub open spec fn no_vp_deletion(v: Seq<(Seq<Seq<u8>>, ModView)>) -> bool {
    forall|i: int| 0 <= i < v.len() ==> ((#[trigger] v[i]).1 is Delete ==> !is_vp_key(v[i].0))
}

/// A scope without deletions of validity predicates yields none on lookup.
pub proof fn lemma_lookup_no_vp_deletion(v: Seq<(Seq<Seq<u8>>, ModView)>, k: Seq<Seq<u8>>)
    requires
        no_vp_deletion(v),
        lookup(v, k) matches Some(ModView::Delete),
    ensures
        !is_vp_key(k),
    decreases v.len(),
{
    if v.last().0 != k {
        assert forall|i: int| 0 <= i < v.drop_last().len() && (#[trigger] v.drop_last()[i]).1 is Delete
            implies !is_vp_key(v.drop_last()[i].0) by {
            assert(v.drop_last()[i] == v[i]);
        }
        lemma_lookup_no_vp_deletion(v.drop_last(), k);
    } else {
        assert(v[v.len() - 1] == v.last());
    }
}

/// Record `m` under `key` in a scope, replacing the entry of that key.
fn upsert(entries: &mut Vec<(Key, StorageModification)>, key: &Key, m: StorageModification)
    requires
        scope_wf(old(entries)@),
        valid_segments(key@),
        m@ is Delete ==> !is_vp_key(key@),
    ensures
        scope_wf(final(entries)@),
        forall|k: Seq<Seq<u8>>| #[trigger] lookup(scope_view(final(entries)@), k) == if k == key@ {
            Some(m@)
        } else {
            lookup(scope_view(old(entries)@), k)
        },
{
    let ghost s0 = scope_view(entries@);
    let ghost mv = m@;
    match find_last(entries, key) {
        Some(i) => {
            let k = entries[i].0.copy();
            entries.set(i, (k, m));
            proof {
                assert(scope_view(entries@) =~= s0.update(i as int, (s0[i as int].0, mv)));
                assert forall|j: int| i < j < s0.len() implies (#[trigger] s0[j]).0 != s0[i as int].0 by {
                    assert(old(entries)@[j].0@ != key@);
                }
                assert forall|k: Seq<Seq<u8>>| #[trigger] lookup(scope_view(entries@), k) == if k == key@ {
                    Some(mv)
                } else {
                    lookup(s0, k)
                } by {
                    lemma_lookup_update(s0, i as int, mv, k);
                }
                let s1 = scope_view(entries@);
                assert forall|a: int, b: int| 0 <= a < b < s1.len() implies
                    (#[trigger] s1[a]).0 != (#[trigger] s1[b]).0 by {
                    assert(s0[a].0 != s0[b].0);
                }
                assert forall|a: int| 0 <= a < entries@.len() implies valid_segments(#[trigger] entries@[a].0@) by {
                    assert(entries@[a].0@ == old(entries)@[a].0@);
                }
                assert forall|a: int| 0 <= a < s1.len() && (#[trigger] s1[a]).1 is Delete implies !is_vp_key(s1[a].0) by {
                    if a != i {
                        assert(s1[a] == s0[a]);
                    }
                }
            }
        },
        None => {
            let k = key.copy();
            entries.push((k, m));
            proof {
                assert(scope_view(entries@) =~= s0.push((key@, mv)));
                assert forall|k: Seq<Seq<u8>>| #[trigger] lookup(scope_view(entries@), k) == if k == key@ {
                    Some(mv)
                } else {
                    lookup(s0, k)
                } by {
                    lemma_lookup_push(s0, (key@, mv), k);
                }
                let s1 = scope_view(entries@);
                assert forall|a: int, b: int| 0 <= a < b < s1.len() implies
                    (#[trigger] s1[a]).0 != (#[trigger] s1[b]).0 by {
                    if b == s0.len() {
                        assert(old(entries)@[a].0@ != key@);
                    } else {
                        assert(s0[a].0 != s0[b].0);
                    }
                }
                assert forall|a: int| 0 <= a < entries@.len() implies valid_segments(#[trigger] entries@[a].0@) by {
                    if a < s0.len() {
                        assert(entries@[a].0@ == old(entries)@[a].0@);
                    }
                }
                assert forall|a: int| 0 <= a < s1.len() && (#[trigger] s1[a]).1 is Delete implies !is_vp_key(s1[a].0) by {
                    if a < s0.len() {
                        assert(s1[a] == s0[a]);
                    }
                }
            }
        },
    }
}

/// Look a key up in a scope.
fn scope_get(entries: &Vec<(Key, StorageModification)>, key: &Key) -> (r: Option<StorageModification>)
    ensures
        r matches Some(m) ==> lookup(scope_view(entries@), key@) == Some(m@),
        r is None ==> lookup(scope_view(entries@), key@) is None,
{
    let ghost s = scope_view(entries@);
    match find_last(entries, key) {
        Some(i) => {
            proof {
                assert forall|j: int| i < j < s.len() implies (#[trigger] s[j]).0 != s[i as int].0 by {
                    assert(entries@[j].0@ != key@);
                }
                lemma_lookup_last(s, i as int);
            }
            Some(entries[i].1.copy())
        },
        None => {
            proof {
                assert forall|j: int| 0 <= j < s.len() implies (#[trigger] s[j]).0 != key@ by {
                    assert(entries@[j].0@ != key@);
                }
                lemma_lookup_none(s, key@);
            }
            None
        },
    }
}

/// The write log.
#[derive(Debug)]
pub struct WriteLog {
    /// Mutations of the transaction being run.
    pub tx: Vec<(Key, StorageModification)>,
    /// Mutations of the committed transactions of the current block.
    pub block: Vec<(Key, StorageModification)>,
    /// The address generator of this block, taken from storage at the first
    /// account initialization and written back when the block commits.
    pub address_gen: Option<AddressGen>,
}

impl WriteLog {
    pub open spec fn wf(&self) -> bool {
        scope_wf(self.tx@) && scope_wf(self.block@)
    }

    /// The transaction-scope entry of `k`.
    pub open spec fn tx_entry(&self, k: Seq<Seq<u8>>) -> Option<ModView> {
        lookup(scope_view(self.tx@), k)
    }

    /// The block-scope entry of `k`.
    pub open spec fn block_entry(&self, k: Seq<Seq<u8>>) -> Option<ModView> {
        lookup(scope_view(self.block@), k)
    }

    /// The entry of `k` as reads see it: the transaction scope shadows the
    /// block scope.
    pub open spec fn entry(&self, k: Seq<Seq<u8>>) -> Option<ModView> {
        match self.tx_entry(k) {
            Some(m) => Some(m),
            None => self.block_entry(k),
        }
    }

    /// The posterior value of `k`: the log laid over committed storage.
    pub open spec fn post_value(&self, storage: &Storage, k: Seq<Seq<u8>>) -> Option<Seq<u8>> {
        overlay(self.entry(k), storage.value_of(k))
    }

    /// An empty write log.
    pub fn new() -> (r: WriteLog)
        ensures
            r.wf(),
            r.tx@.len() == 0,
            r.block@.len() == 0,
            r.address_gen is None,
    {
        WriteLog { tx: Vec::new(), block: Vec::new(), address_gen: None }
    }

    /// The entry of `key`, with the gas of the read.
    pub fn read(&self, key: &Key) -> (r: (Option<StorageModification>, u64))
        ensures
            r.0 matches Some(m) ==> self.entry(key@) == Some(m@),
            r.0 is None ==> self.entry(key@) is None,
            r.1 == read_gas(join(key@).len(), self.entry(key@)),
    {
        let found = match scope_get(&self.tx, key) {
            Some(m) => Some(m),
            None => scope_get(&self.block, key),
        };
        let gas = match &found {
            Some(StorageModification::Write { value }) => access_gas_exec(key.to_bytes().len(), value.len()),
            Some(StorageModification::Delete) => access_gas_exec(key.to_bytes().len(), 0),
            Some(StorageModification::InitAccount { vp }) => access_gas_exec(key.to_bytes().len(), vp.len()),
            None => 0,
        };
        (found, gas)
    }

    /// Stage a write of `value` under `key`. Refused where the key holds the
    /// code of an account that this block initializes.
    pub fn write(&mut self, key: &Key, value: Vec<u8>) -> (r: Result<(u64, i128), WriteLogError>)
        requires
            old(self).wf(),
            valid_segments(key@),
        ensures
            final(self).wf(),
            r is Err <==> old(self).entry(key@) matches Some(ModView::InitAccount(_)),
            r is Err ==> r == Err::<(u64, i128), WriteLogError>(WriteLogError::UpdateVpOfNewAccount)
                && *final(self) == *old(self),
            r matches Ok((gas, diff)) ==> {
                &&& gas == access_gas(join(key@).len(), value@.len())
                &&& diff == value@.len() - recorded_len(old(self).entry(key@))
                &&& final(self).block == old(self).block
                &&& forall|k: Seq<Seq<u8>>| #[trigger] final(self).entry(k) == if k == key@ {
                    Some(ModView::Write(value@))
                } else {
                    old(self).entry(k)
                }
                &&& forall|k: Seq<Seq<u8>>| #[trigger] final(self).tx_entry(k) == if k == key@ {
                    Some(ModView::Write(value@))
                } else {
                    old(self).tx_entry(k)
                }
            },
    {
        let (prev, _) = self.read(key);
        let prev_len: usize = match &prev {
            Some(StorageModification::InitAccount { .. }) => {
                return Err(WriteLogError::UpdateVpOfNewAccount);
            },
            Some(StorageModification::Write { value }) => value.len(),
            _ => 0,
        };
        let gas = access_gas_exec(key.to_bytes().len(), value.len());
        let diff = value.len() as i128 - prev_len as i128;
        let ghost v = value@;
        upsert(&mut self.tx, key, StorageModification::Write { value });
        proof {
            assert forall|k: Seq<Seq<u8>>| #[trigger] self.entry(k) == if k == key@ {
                Some(ModView::Write(v))
            } else {
                old(self).entry(k)
            } by {
                assert(self.tx_entry(k) == if k == key@ { Some(ModView::Write(v)) } else { old(self).tx_entry(k) });
            }
        }
        Ok((gas, diff))
    }

    /// Stage a deletion of `key`. Refused where the key holds an account's
    /// validity predicate.
    pub fn delete(&mut self, key: &Key) -> (r: Result<(u64, i128), WriteLogError>)
        requires
            old(self).wf(),
            valid_segments(key@),
        ensures
            final(self).wf(),
            r is Err <==> is_vp_key(key@),
            r is Err ==> r == Err::<(u64, i128), WriteLogError>(WriteLogError::DeleteVp)
                && *final(self) == *old(self),
            r matches Ok((gas, diff)) ==> {
                &&& gas == access_gas(join(key@).len(), 0)
                &&& diff == -(recorded_len(old(self).entry(key@)) as int)
                &&& final(self).block == old(self).block
                &&& forall|k: Seq<Seq<u8>>| #[trigger] final(self).entry(k) == if k == key@ {
                    Some(ModView::Delete)
                } else {
                    old(self).entry(k)
                }
                &&& forall|k: Seq<Seq<u8>>| #[trigger] final(self).tx_entry(k) == if k == key@ {
                    Some(ModView::Delete)
                } else {
                    old(self).tx_entry(k)
                }
            },
    {
        if key.is_validity_predicate().is_some() {
            return Err(WriteLogError::DeleteVp);
        }
        let (prev, _) = self.read(key);
        let prev_len: usize = match &prev {
            Some(StorageModification::Write { value }) => value.len(),
            _ => 0,
        };
        let gas = access_gas_exec(key.to_bytes().len(), 0);
        let diff = 0i128 - prev_len as i128;
        upsert(&mut self.tx, key, StorageModification::Delete);
        proof {
            assert forall|k: Seq<Seq<u8>>| #[trigger] self.entry(k) == if k == key@ {
                Some(ModView::Delete)
            } else {
                old(self).entry(k)
            } by {
                assert(self.tx_entry(k) == if k == key@ { Some(ModView::Delete) } else { old(self).tx_entry(k) });
            }
        }
        Ok((gas, diff))
    }

    /// The generator that the next account initialization draws from.
    pub open spec fn current_gen(&self, storage_gen: AddressGen) -> AddressGen {
        match self.address_gen {
            Some(g) => g,
            None => storage_gen,
        }
    }

    /// Initialize an account: issue a fresh established address and stage its
    /// validity predicate `vp` under the address's code key.
    pub fn init_account(&mut self, storage_gen: &AddressGen, vp: Vec<u8>) -> (r: (Address, u64))
        requires
            old(self).wf(),
            old(self).current_gen(*storage_gen).counter < u64::MAX,
        ensures
            final(self).wf(),
            r.0@ == old(self).current_gen(*storage_gen).next_spec(),
            r.0 is Established,
            r.0.wf(),
            final(self).address_gen == Some(AddressGen {
                counter: (old(self).current_gen(*storage_gen).counter + 1) as u64,
            }),
            r.1 == access_gas(join(vp_key(r.0@)).len(), vp@.len()),
            final(self).block == old(self).block,
            forall|k: Seq<Seq<u8>>| #[trigger] final(self).entry(k) == if k == vp_key(r.0@) {
                Some(ModView::InitAccount(vp@))
            } else {
                old(self).entry(k)
            },
            forall|k: Seq<Seq<u8>>| #[trigger] final(self).tx_entry(k) == if k == vp_key(r.0@) {
                Some(ModView::InitAccount(vp@))
            } else {
                old(self).tx_entry(k)
            },
    {
        let mut gen = match self.address_gen {
            Some(g) => g,
            None => *storage_gen,
        };
        let addr = gen.generate_address();
        self.address_gen = Some(gen);
        let key = Key::validity_predicate(&addr);
        let gas = access_gas_exec(key.to_bytes().len(), vp.len());
        let ghost v = vp@;
        let ghost mid = *self;
        upsert(&mut self.tx, &key, StorageModification::InitAccount { vp });
        proof {
            assert forall|k: Seq<Seq<u8>>| #[trigger] self.entry(k) == if k == key@ {
                Some(ModView::InitAccount(v))
            } else {
                old(self).entry(k)
            } by {
                assert(self.tx_entry(k) == if k == key@ { Some(ModView::InitAccount(v)) } else { mid.tx_entry(k) });
                assert(mid.tx_entry(k) == old(self).tx_entry(k));
                assert(mid.block_entry(k) == old(self).block_entry(k));
            }
            assert forall|k: Seq<Seq<u8>>| #[trigger] self.tx_entry(k) == if k == key@ {
                Some(ModView::InitAccount(v))
            } else {
                old(self).tx_entry(k)
            } by {
                assert(mid.tx_entry(k) == old(self).tx_entry(k));
            }
        }
        (addr, gas)
    }

    /// Fold the transaction's mutations into the block scope (the
    /// transaction's entry wins) and empty the transaction scope.
    pub fn commit_tx(&mut self)
        requires
            old(self).wf(),
        ensures
            final(self).wf(),
            final(self).tx@.len() == 0,
            forall|k: Seq<Seq<u8>>| #[trigger] final(self).block_entry(k) == old(self).entry(k),
    {
        let mut i: usize = 0;
        while i < self.tx.len()
            invariant
                self.wf(),
                self.tx == old(self).tx,
                0 <= i <= self.tx@.len(),
                forall|k: Seq<Seq<u8>>| #[trigger] self.block_entry(k) == match lookup(
                    scope_view(self.tx@.subrange(0, i as int)),
                    k,
                ) {
                    Some(m) => Some(m),
                    None => old(self).block_entry(k),
                },
            decreases self.tx@.len() - i,
        {
            let ghost pre = scope_view(self.tx@.subrange(0, i as int));
            let ghost next = scope_view(self.tx@.subrange(0, i + 1));
            let ghost e = (self.tx@[i as int].0@, self.tx@[i as int].1@);
            assert(next =~= pre.push(e));
            let ghost before = *self;
            let k = self.tx[i].0.copy();
            let m = self.tx[i].1.copy();
            assert(k@ == e.0 && m@ == e.1);
            assert(scope_view(self.tx@)[i as int] == e);
            upsert(&mut self.block, &k, m);
            proof {
                assert forall|kk: Seq<Seq<u8>>| #[trigger] self.block_entry(kk) == match lookup(next, kk) {
                    Some(m) => Some(m),
                    None => old(self).block_entry(kk),
                } by {
                    lemma_lookup_push(pre, e, kk);
                    assert(lookup(scope_view(self.block@), kk) == if kk == e.0 {
                        Some(e.1)
                    } else {
                        lookup(scope_view(before.block@), kk)
                    });
                    assert(before.block_entry(kk) == match lookup(pre, kk) {
                        Some(m) => Some(m),
                        None => old(self).block_entry(kk),
                    });
                }
            }
            i = i + 1;
        }
        assert(self.tx@.subrange(0, self.tx@.len() as int) =~= self.tx@);
        proof {
            assert forall|k: Seq<Seq<u8>>| #[trigger] self.block_entry(k) == old(self).entry(k) by {
                assert(old(self).tx_entry(k) == lookup(scope_view(old(self).tx@), k));
                assert(self.block_entry(k) == match lookup(
                    scope_view(self.tx@.subrange(0, self.tx@.len() as int)),
                    k,
                ) {
                    Some(m) => Some(m),
                    None => old(self).block_entry(k),
                });
            }
        }
        let ghost mid = *self;
        self.tx = Vec::new();
        proof {
            assert forall|k: Seq<Seq<u8>>| #[trigger] self.block_entry(k) == old(self).entry(k) by {
                assert(mid.block_entry(k) == old(self).entry(k));
                assert(self.block == mid.block);
            }
        }
    }

    /// Drop the transaction's mutations.
    pub fn drop_tx(&mut self)
        requires
            old(self).wf(),
        ensures
            final(self).wf(),
            final(self).tx@.len() == 0,
            final(self).block == old(self).block,
    {
        self.tx = Vec::new();
    }

    /// Apply the block's mutations to `storage` in the order they were
    /// recorded and empty the block scope.
    pub fn commit_block(&mut self, storage: &mut Storage)
        requires
            old(self).wf(),
            old(storage).wf(),
        ensures
            final(self).wf(),
            final(self).block@.len() == 0,
            final(self).tx == old(self).tx,
            final(storage).wf(),
            forall|k: Seq<Seq<u8>>| #[trigger] final(storage).value_of(k) == overlay(
                old(self).block_entry(k),
                old(storage).value_of(k),
            ),
            final(storage).chain_id == old(storage).chain_id,
            final(storage).block_height == old(storage).block_height,
            final(storage).block_hash == old(storage).block_hash,
            final(storage).block_epoch == old(storage).block_epoch,
            final(storage).address_gen == old(self).current_gen(old(storage).address_gen),
            final(self).address_gen is None,
    {
        let mut i: usize = 0;
        while i < self.block.len()
            invariant
                self.wf(),
                *self == *old(self),
                storage.wf(),
                0 <= i <= self.block@.len(),
                forall|k: Seq<Seq<u8>>| #[trigger] storage.value_of(k) == overlay(
                    lookup(scope_view(self.block@.subrange(0, i as int)), k),
                    old(storage).value_of(k),
                ),
                storage.chain_id == old(storage).chain_id,
                storage.block_height == old(storage).block_height,
                storage.block_hash == old(storage).block_hash,
                storage.block_epoch == old(storage).block_epoch,
                storage.address_gen == old(storage).address_gen,
            decreases self.block@.len() - i,
        {
            let ghost pre = scope_view(self.block@.subrange(0, i as int));
            let ghost next = scope_view(self.block@.subrange(0, i + 1));
            let ghost e = (self.block@[i as int].0@, self.block@[i as int].1@);
            assert(next =~= pre.push(e));
            assert(valid_segments(self.block@[i as int].0@));
            match &self.block[i].1 {
                StorageModification::Write { value } => storage.write(&self.block[i].0, value.as_slice()),
                StorageModification::Delete => storage.delete(&self.block[i].0),
                StorageModification::InitAccount { vp } => storage.write(&self.block[i].0, vp.as_slice()),
            }
            proof {
                assert forall|kk: Seq<Seq<u8>>| #[trigger] storage.value_of(kk) == overlay(
                    lookup(next, kk),
                    old(storage).value_of(kk),
                ) by {
                    lemma_lookup_push(pre, e, kk);
                }
            }
            i = i + 1;
        }
        assert(self.block@.subrange(0, self.block@.len() as int) =~= self.block@);
        self.block = Vec::new();
        let ghost mid = *storage;
        match self.address_gen {
            Some(g) => {
                storage.address_gen = g;
            },
            None => {},
        }
        proof {
            assert forall|k: Seq<Seq<u8>>| #[trigger] storage.value_of(k) == overlay(
                old(self).block_entry(k),
                old(storage).value_of(k),
            ) by {
                assert(storage.value_of(k) == mid.value_of(k));
            }
        }
        self.address_gen = None;
    }
}

/// Whether key `k` has text beginning with `p`.
pub open spec fn has_prefix(k: Seq<Seq<u8>>, p: Seq<u8>) -> bool {
    p.len() <= join(k).len() && join(k).subrange(0, p.len() as int) == p
}

/// Whether `k` is among the keys of `items`.
pub open spec fn has_key_in(items: Seq<(Key, Vec<u8>)>, k: Seq<Seq<u8>>) -> bool {
    exists|i: int| 0 <= i < items.len() && (#[trigger] items[i]).0@ == k
}

/// Whether `k` is among the keys of a scope.
pub open spec fn in_scope(s: Seq<(Key, StorageModification)>, k: Seq<Seq<u8>>) -> bool {
    exists|i: int| 0 <= i < s.len() && (#[trigger] s[i]).0@ == k
}

/// A key of a scope has an entry on lookup.
pub proof fn lemma_in_scope_lookup(s: Seq<(Key, StorageModification)>, k: Seq<Seq<u8>>)
    requires
        in_scope(s, k),
    ensures
        lookup(scope_view(s), k) is Some,
    decreases s.len(),
{
    let v = scope_view(s);
    if v.last().0 != k {
        let i = choose|i: int| 0 <= i < s.len() && (#[trigger] s[i]).0@ == k;
        assert(i != s.len() - 1);
        assert(s.drop_last()[i] == s[i]);
        assert(scope_view(s.drop_last()) =~= v.drop_last());
        lemma_in_scope_lookup(s.drop_last(), k);
    }
}

/// A key with an entry on lookup is a key of the scope.
pub proof fn lemma_lookup_in_scope(s: Seq<(Key, StorageModification)>, k: Seq<Seq<u8>>)
    requires
        lookup(scope_view(s), k) is Some,
    ensures
        in_scope(s, k),
    decreases s.len(),
{
    let v = scope_view(s);
    if v.last().0 == k {
        assert(s[s.len() - 1].0@ == k);
    } else {
        assert(scope_view(s.drop_last()) =~= v.drop_last());
        lemma_lookup_in_scope(s.drop_last(), k);
        let i = choose|i: int| 0 <= i < s.drop_last().len() && (#[trigger] s.drop_last()[i]).0@ == k;
        assert(s[i] == s.drop_last()[i]);
    }
}

/// Add to `out` each key of `entries` under `prefix` that storage holds no
/// value under and that `out` lacks, paired with an empty value.
fn collect_new_keys(
    entries: &Vec<(Key, StorageModification)>,
    storage: &Storage,
    prefix: &[u8],
    out: &mut Vec<(Key, Vec<u8>)>,
)
    requires
        scope_wf(entries@),
        storage.wf(),
        forall|a: int, b: int| 0 <= a < b < old(out)@.len() ==> (#[trigger] old(out)@[a]).0@ != (#[trigger] old(out)@[b]).0@,
    ensures
        final(out)@.len() >= old(out)@.len(),
        forall|m: int| 0 <= m < old(out)@.len() ==> #[trigger] final(out)@[m] == old(out)@[m],
        forall|m: int| old(out)@.len() <= m < final(out)@.len() ==> {
            &&& in_scope(entries@, (#[trigger] final(out)@[m]).0@)
            &&& has_prefix(final(out)@[m].0@, prefix@)
            &&& storage.value_of(final(out)@[m].0@) is None
            &&& final(out)@[m].1@.len() == 0
            &&& valid_segments(final(out)@[m].0@)
        },
        forall|j: int| 0 <= j < entries@.len() && has_prefix((#[trigger] entries@[j]).0@, prefix@)
            && storage.value_of(entries@[j].0@) is None ==> has_key_in(final(out)@, entries@[j].0@),
        forall|a: int, b: int| 0 <= a < b < final(out)@.len() ==> (#[trigger] final(out)@[a]).0@ != (#[trigger] final(out)@[b]).0@,
{
    let ghost out0 = out@;
    let mut i: usize = 0;
    while i < entries.len()
        invariant
            scope_wf(entries@),
            storage.wf(),
            0 <= i <= entries@.len(),
            out@.len() >= out0.len(),
            forall|m: int| 0 <= m < out0.len() ==> #[trigger] out@[m] == out0[m],
            forall|m: int| out0.len() <= m < out@.len() ==> {
                &&& in_scope(entries@, (#[trigger] out@[m]).0@)
                &&& has_prefix(out@[m].0@, prefix@)
                &&& storage.value_of(out@[m].0@) is None
                &&& out@[m].1@.len() == 0
                &&& valid_segments(out@[m].0@)
            },
            forall|j: int| 0 <= j < i && has_prefix((#[trigger] entries@[j]).0@, prefix@)
                && storage.value_of(entries@[j].0@) is None ==> has_key_in(out@, entries@[j].0@),
            forall|a: int, b: int| 0 <= a < b < out@.len() ==> (#[trigger] out@[a]).0@ != (#[trigger] out@[b]).0@,
        decreases entries@.len() - i,
    {
        let ghost before = out@;
        let k = &entries[i].0;
        let t = k.to_bytes();
        if crate::codec::starts_with(t.as_slice(), prefix) {
            let (present, _) = storage.has_key(k);
            if !present {
                let mut seen = false;
                let mut j: usize = 0;
                while j < out.len()
                    invariant
                        0 <= j <= out@.len(),
                        out@ == before,
                        seen <==> exists|m: int| 0 <= m < j && (#[trigger] out@[m]).0@ == k@,
                    decreases out@.len() - j,
                {
                    if out[j].0.same(k) {
                        seen = true;
                    }
                    j = j + 1;
                }
                if !seen {
                    let c = k.copy();
                    out.push((c, Vec::new()));
                    proof {
                        assert(out@[out@.len() - 1].0@ == k@);
                        assert(entries@[i as int].0@ == k@);
                        assert(in_scope(entries@, k@));
                        assert forall|m: int| 0 <= m < before.len() implies #[trigger] out@[m] == before[m] by {}
                        assert forall|a: int, b: int| 0 <= a < b < out@.len() implies (#[trigger] out@[a]).0@ != (#[trigger] out@[b]).0@ by {
                            if b == before.len() {
                                assert(out@[a] == before[a]);
                            } else {
                                assert(out@[a] == before[a] && out@[b] == before[b]);
                            }
                        }
                        assert forall|jj: int| 0 <= jj < i + 1 && has_prefix((#[trigger] entries@[jj]).0@, prefix@)
                            && storage.value_of(entries@[jj].0@) is None implies has_key_in(out@, entries@[jj].0@) by {
                            if jj == i {
                                assert(out@[before.len() as int].0@ == entries@[jj].0@);
                            } else {
                                let m = choose|m: int| 0 <= m < before.len() && (#[trigger] before[m]).0@ == entries@[jj].0@;
                                assert(out@[m] == before[m]);
                            }
                        }
                    }
                } else {
                    proof {
                        assert forall|jj: int| 0 <= jj < i + 1 && has_prefix((#[trigger] entries@[jj]).0@, prefix@)
                            && storage.value_of(entries@[jj].0@) is None implies has_key_in(out@, entries@[jj].0@) by {
                            if jj == i {
                                let m = choose|m: int| 0 <= m < j && (#[trigger] out@[m]).0@ == k@;
                                assert(out@[m].0@ == entries@[jj].0@);
                            }
                        }
                    }
                }
            }
        }
        i = i + 1;
    }
}

impl WriteLog {
    /// The keys under `prefix` that the log holds an entry for and storage
    /// holds no value under, each once, paired with an empty value.
    pub fn new_keys_with_prefix(&self, storage: &Storage, prefix: &[u8]) -> (r: Vec<(Key, Vec<u8>)>)
        requires
            self.wf(),
            storage.wf(),
        ensures
            forall|i: int| 0 <= i < r@.len() ==> {
                &&& has_prefix((#[trigger] r@[i]).0@, prefix@)
                &&& storage.value_of(r@[i].0@) is None
                &&& self.entry(r@[i].0@) is Some
                &&& r@[i].1@.len() == 0
                &&& valid_segments(r@[i].0@)
            },
            forall|k: Seq<Seq<u8>>| #[trigger] self.entry(k) is Some && has_prefix(k, prefix@) && storage.value_of(k) is None
                ==> has_key_in(r@, k),
            forall|i: int, j: int| 0 <= i < j < r@.len() ==> (#[trigger] r@[i]).0@ != (#[trigger] r@[j]).0@,
    {
        let mut out: Vec<(Key, Vec<u8>)> = Vec::new();
        collect_new_keys(&self.tx, storage, prefix, &mut out);
        let ghost mid = out@;
        collect_new_keys(&self.block, storage, prefix, &mut out);
        proof {
            assert forall|i: int| 0 <= i < out@.len() implies self.entry((#[trigger] out@[i]).0@) is Some by {
                if i < mid.len() {
                    assert(out@[i] == mid[i]);
                    lemma_in_scope_lookup(self.tx@, mid[i].0@);
                } else {
                    lemma_in_scope_lookup(self.block@, out@[i].0@);
                }
            }
            assert forall|k: Seq<Seq<u8>>| #[trigger] self.entry(k) is Some && has_prefix(k, prefix@) && storage.value_of(k) is None
                implies has_key_in(out@, k) by {
                if self.tx_entry(k) is Some {
                    lemma_lookup_in_scope(self.tx@, k);
                    let i = choose|i: int| 0 <= i < self.tx@.len() && (#[trigger] self.tx@[i]).0@ == k;
                    let m = choose|m: int| 0 <= m < mid.len() && (#[trigger] mid[m]).0@ == self.tx@[i].0@;
                    assert(out@[m] == mid[m]);
                } else {
                    lemma_lookup_in_scope(self.block@, k);
                    let i = choose|i: int| 0 <= i < self.block@.len() && (#[trigger] self.block@[i]).0@ == k;
                    assert(has_key_in(out@, self.block@[i].0@));
                }
            }
        }
        out
    }
}

/// Reading your own writes: once a transaction has written `v` under `k`,
/// the posterior value of `k` is `v`; once it has deleted `k`, `k` holds
/// nothing. `after` is the log that `write` or `delete` of `k` leaves.
pub proof fn law_read_own_writes(after: WriteLog, storage: Storage, k: Seq<Seq<u8>>, m: ModView)
    requires
        after.entry(k) == Some(m),
        m is Write || m is Delete,
    ensures
        m matches ModView::Write(v) ==> after.post_value(&storage, k) == Some(v),
        m is Delete ==> after.post_value(&storage, k) is None,
{
}

/// Committing a transaction that staged nothing leaves what reads see
/// unchanged; committing a block whose scope is empty leaves storage
/// unchanged. `after` relates to `before` as `commit_tx` (or `commit_block`)
/// states.
pub proof fn law_commit_idempotent(
    before: WriteLog,
    after: WriteLog,
    storage: Storage,
    committed: Storage,
)
    requires
        before.tx@.len() == 0,
        after.tx@.len() == 0,
        forall|k: Seq<Seq<u8>>| #[trigger] after.block_entry(k) == before.entry(k),
        before.block@.len() == 0 ==> forall|k: Seq<Seq<u8>>| #[trigger] committed.value_of(k) == overlay(
            before.block_entry(k),
            storage.value_of(k),
        ),
    ensures
        forall|k: Seq<Seq<u8>>| #[trigger] after.entry(k) == before.entry(k),
        forall|k: Seq<Seq<u8>>| #[trigger] after.block_entry(k) == before.block_entry(k),
        before.block@.len() == 0 ==> forall|k: Seq<Seq<u8>>| #[trigger] committed.value_of(k) == storage.value_of(k),
{
    assert forall|k: Seq<Seq<u8>>| #[trigger] after.entry(k) == before.entry(k) by {
        assert(scope_view(after.tx@) =~= Seq::empty());
        assert(scope_view(before.tx@) =~= Seq::empty());
        assert(after.block_entry(k) == before.entry(k));
    }
    assert forall|k: Seq<Seq<u8>>| #[trigger] after.block_entry(k) == before.block_entry(k) by {
        assert(scope_view(before.tx@) =~= Seq::empty());
        assert(after.block_entry(k) == before.entry(k));
    }
    if before.block@.len() == 0 {
        assert forall|k: Seq<Seq<u8>>| #[trigger] committed.value_of(k) == storage.value_of(k) by {
            assert(scope_view(before.block@) =~= Seq::empty());
            assert(committed.value_of(k) == overlay(before.block_entry(k), storage.value_of(k)));
        }
    }
}

/// An account that exists in the write log or in storage when a
/// transaction ends has its validity predicate in storage once the
/// transaction and then the block commit. `block` is the log that
/// `commit_tx` leaves and `committed` the storage that `commit_block` leaves.
pub proof fn law_known_account_committed(
    wl: WriteLog,
    storage: Storage,
    block: WriteLog,
    committed: Storage,
    a: Seq<u8>,
)
    requires
        wl.wf(),
        crate::address::is_address_text(a),
        wl.entry(vp_key(a)) is Some || storage.value_of(vp_key(a)) is Some,
        forall|k: Seq<Seq<u8>>| #[trigger] block.block_entry(k) == wl.entry(k),
        forall|k: Seq<Seq<u8>>| #[trigger] committed.value_of(k) == overlay(block.block_entry(k), storage.value_of(k)),
    ensures
        committed.value_of(vp_key(a)) is Some,
{
    let k = vp_key(a);
    assert(committed.value_of(k) == overlay(block.block_entry(k), storage.value_of(k)));
    assert(block.block_entry(k) == wl.entry(k));
    if wl.tx_entry(k) matches Some(ModView::Delete) {
        lemma_lookup_no_vp_deletion(scope_view(wl.tx@), k);
    }
    if wl.tx_entry(k) is None && (wl.block_entry(k) matches Some(ModView::Delete)) {
        lemma_lookup_no_vp_deletion(scope_view(wl.block@), k);
    }
    assert(crate::key::address_seg(a).drop_first() =~= a);
    assert(is_vp_key(k));
}

} // verus!
