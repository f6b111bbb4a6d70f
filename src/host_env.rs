//! The transaction host environment: the calls that transaction code makes
//! into the ledger, over the write log, gas meter, iterators, verifier set
//! and result buffer of the running transaction.
use vstd::prelude::*;
use crate::address::Address;
use crate::codec::{append_len_prefixed, decode_byte_list, len_prefixed, list_encoding, list_fits};
use crate::gas::{GasError, GasMeter, MIN_STORAGE_GAS, WASM_VALIDATION_GAS_PER_BYTE};
use crate::key::{addresses_in, join, split_segs, valid_key_text, vp_key, Key, KeyError};
use crate::memory::{fits, in_bounds, MemoryError, VmMemory};
use crate::prefix_iter::{items_view, PrefixIterators};
use crate::storage::{prefix_items, AddressGen, Storage};
use crate::write_log::{post_has_gas, post_read_gas, read_gas, ModView, WriteLog, WriteLogError};

verus! {

/// Why WASM code was refused as a validity predicate.
#[derive(Debug, Clone, Copy, PartialEq, Eq, Structural)]
pub enum WasmValidationError {
    /// The code is not a valid WebAssembly module.
    InvalidModule,
}

/// Errors that abort the running transaction.
#[derive(Debug)]
pub enum TxRuntimeError {
    /// The gas meter refused a charge.
    OutOfGas(GasError),
    /// A write to a key that names an established account that does not exist.
    UnknownAddressStorageModification(Address),
    /// A validity predicate update with invalid WASM.
    UpdateVpInvalid(WasmValidationError),
    /// An account initialization with invalid WASM.
    InitAccountInvalidVpWasm(WasmValidationError),
    /// The write log refused a mutation.
    StorageModificationError(WriteLogError),
    /// A key text could not be parsed.
    StorageDataError(KeyError),
    /// A value too long to be encoded for the guest.
    EncodingError,
    /// An address text could not be parsed, or no address is left to issue.
    AddressError,
    /// A number did not fit the type it was converted to.
    NumConversionError,
    /// The guest gave a range outside its memory.
    MemoryError(MemoryError),
}

/// The host structures a transaction works on.
pub struct TxCtx<'a> {
    /// Committed storage, read only.
    pub storage: &'a Storage,
    /// The write log.
    pub write_log: WriteLog,
    /// Storage prefix iterators.
    pub iterators: PrefixIterators,
    /// The gas meter of the block.
    pub gas_meter: GasMeter,
    /// The addresses whose validity predicates must accept the transaction.
    pub verifiers: Vec<Address>,
    /// Cache for two-step reads of values of unknown length.
    pub result_buffer: Option<Vec<u8>>,
}

/// A transaction's host environment.
pub struct TxEnv<'a> {
    /// The guest memory.
    pub memory: VmMemory,
    /// The host structures.
    pub ctx: TxCtx<'a>,
}

/// The view of an optional byte buffer.
pub open spec fn buf_view(b: Option<Vec<u8>>) -> Option<Seq<u8>> {
    match b {
        Some(v) => Some(v@),
        None => None,
    }
}

/// Whether the address text `a` is among the addresses of `v`.
pub open spec fn has_address(v: Seq<Address>, a: Seq<u8>) -> bool {
    exists|i: int| 0 <= i < v.len() && (#[trigger] v[i])@ == a
}

/// The encoding of a (key text, value) pair handed to the guest.
pub open spec fn key_val_encoding(k: Seq<u8>, v: Seq<u8>) -> Seq<u8> {
    len_prefixed(k) + len_prefixed(v)
}

/// The value that posterior iteration shows for an item: a staged write
/// replaces it; a deletion or an account initialization hides it.
pub open spec fn iter_post_value(m: Option<ModView>, stored: Seq<u8>) -> Option<Seq<u8>> {
    match m {
        Some(ModView::Write(v)) => Some(v),
        Some(_) => None,
        None => Some(stored),
    }
}

/// The index of the first item at or after `pos` that posterior iteration
/// shows.
pub open spec fn next_visible(items: Seq<(Seq<Seq<u8>>, Seq<u8>)>, pos: int, wl: WriteLog) -> Option<int>
    decreases items.len() - pos,
{
    if pos < 0 || pos >= items.len() {
        None
    } else if iter_post_value(wl.entry(items[pos].0), items[pos].1) is Some {
        Some(pos)
    } else {
        next_visible(items, pos + 1, wl)
    }
}

/// Posterior iteration shows only what the write log neither deletes nor
/// initializes as an account: the item it stops at is shown with its
/// posterior value, and every item it passes over is hidden by the log.
pub proof fn law_iteration_overlay(items: Seq<(Seq<Seq<u8>>, Seq<u8>)>, pos: int, wl: WriteLog, j: int)
    requires
        0 <= pos,
        next_visible(items, pos, wl) == Some(j),
    ensures
        pos <= j < items.len(),
        !(wl.entry(items[j].0) matches Some(ModView::Delete)),
        !(wl.entry(items[j].0) matches Some(ModView::InitAccount(_))),
        iter_post_value(wl.entry(items[j].0), items[j].1) == Some(
            match wl.entry(items[j].0) {
                Some(ModView::Write(v)) => v,
                _ => items[j].1,
            },
        ),
        forall|m: int| pos <= m < j ==> (wl.entry((#[trigger] items[m]).0) matches Some(ModView::Delete)) || (wl.entry(
            items[m].0,
        ) matches Some(ModView::InitAccount(_))),
    decreases items.len() - pos,
{
    if iter_post_value(wl.entry(items[pos].0), items[pos].1) is None {
        law_iteration_overlay(items, pos + 1, wl, j);
    }
}

/// Gas of visiting one item in posterior iteration: the item's transfer and
/// the write-log read, together capped at the largest `u64`.
pub open spec fn item_gas(item: (Seq<Seq<u8>>, Seq<u8>), wl: WriteLog) -> int {
    let g = crate::storage::access_gas(join(item.0).len(), item.1.len()) + read_gas(join(item.0).len(), wl.entry(item.0));
    if g > u64::MAX { u64::MAX as int } else { g }
}

/// Gas of a posterior `next` from `pos`: every item visited up to and
/// including the first one shown.
pub open spec fn iter_cost(items: Seq<(Seq<Seq<u8>>, Seq<u8>)>, pos: int, wl: WriteLog) -> int
    decreases items.len() - pos,
{
    if pos < 0 || pos >= items.len() {
        0
    } else if iter_post_value(wl.entry(items[pos].0), items[pos].1) is Some {
        item_gas(items[pos], wl)
    } else {
        item_gas(items[pos], wl) + iter_cost(items, pos + 1, wl)
    }
}

pub proof fn lemma_iter_cost_nonneg(items: Seq<(Seq<Seq<u8>>, Seq<u8>)>, pos: int, wl: WriteLog)
    ensures
        iter_cost(items, pos, wl) >= 0,
    decreases items.len() - pos,
{
    if 0 <= pos < items.len() {
        lemma_iter_cost_nonneg(items, pos + 1, wl);
    }
}

/// The item that a posterior `next` from `pos` shows fits its encoding.
pub open spec fn next_item_fits(items: Seq<(Seq<Seq<u8>>, Seq<u8>)>, pos: int, wl: WriteLog) -> bool {
    next_visible(items, pos, wl) matches Some(j) ==> {
        let v = iter_post_value(wl.entry(items[j].0), items[j].1)->0;
        &&& join(items[j].0).len() <= u32::MAX
        &&& v.len() <= u32::MAX
        &&& key_val_encoding(join(items[j].0), v).len() <= i64::MAX
    }
}

/// An established address (its text begins with `e`, byte 101) that a key
/// names without the account existing in the write log or in storage.
pub open spec fn unknown_address(wl: WriteLog, storage: Storage, a: Seq<u8>) -> bool {
    a.len() > 0 && a[0] == 101u8 && wl.entry(vp_key(a)) is None && storage.value_of(vp_key(a)) is None
}

/// Whether `code` is a valid WebAssembly module.
pub uninterp spec fn wasm_validates(code: Seq<u8>) -> bool;

/// Relies on `wasmparser::validate`: structural and type validation of a
/// WebAssembly module with the default feature set; the verdict depends on
/// the bytes alone.
#[verifier::external_body]
fn wasm_is_valid(code: &[u8]) -> (r: bool)
    ensures
        r == wasm_validates(code@),
{
    wasmparser::validate(code).is_ok()
}

/// Whether `code` passes validation as a validity predicate.
pub open spec fn valid_wasm(code: Seq<u8>) -> bool {
    wasm_validates(code)
}

/// Validate untrusted WASM code before it is stored as a validity
/// predicate: the code must be a valid WebAssembly module.
pub fn validate_untrusted_wasm(code: &[u8]) -> (r: Result<(), WasmValidationError>)
    ensures
        r is Ok <==> valid_wasm(code@),
{
    if wasm_is_valid(code) {
        Ok(())
    } else {
        Err(WasmValidationError::InvalidModule)
    }
}

/// Add `a` to the set `v` unless it is there.
pub fn insert_address(v: &mut Vec<Address>, a: Address)
    ensures
        forall|x: Seq<u8>| has_address(final(v)@, x) <==> has_address(old(v)@, x) || x == a@,
{
    let mut i: usize = 0;
    while i < v.len()
        invariant
            0 <= i <= v@.len(),
            v@ == old(v)@,
            forall|j: int| 0 <= j < i ==> (#[trigger] v@[j])@ != a@,
        decreases v@.len() - i,
    {
        if v[i].same(&a) {
            proof {
                assert forall|x: Seq<u8>| has_address(v@, x) <==> has_address(old(v)@, x) || x == a@ by {
                    if x == a@ {
                        assert(v@[i as int]@ == x);
                    }
                }
            }
            return;
        }
        i = i + 1;
    }
    let ghost av = a@;
    v.push(a);
    proof {
        assert forall|x: Seq<u8>| has_address(v@, x) <==> has_address(old(v)@, x) || x == av by {
            if has_address(old(v)@, x) {
                let j = choose|j: int| 0 <= j < old(v)@.len() && (#[trigger] old(v)@[j])@ == x;
                assert(v@[j] == old(v)@[j]);
            }
            if x == av {
                assert(v@[old(v)@.len() as int]@ == x);
            }
            if has_address(v@, x) {
                let j = choose|j: int| 0 <= j < v@.len() && (#[trigger] v@[j])@ == x;
                if j < old(v)@.len() {
                    assert(old(v)@[j] == v@[j]);
                }
            }
        }
    }
}

impl<'a> TxEnv<'a> {
    pub open spec fn wf(&self) -> bool {
        &&& self.ctx.storage.wf()
        &&& self.ctx.write_log.wf()
        &&& self.ctx.iterators.wf()
        &&& self.ctx.gas_meter.wf()
    }

    /// The posterior value of `k`: the write log laid over storage.
    pub open spec fn post(&self, k: Seq<Seq<u8>>) -> Option<Seq<u8>> {
        self.ctx.write_log.post_value(self.ctx.storage, k)
    }

    /// Everything but the gas meter, the result buffer and the memory is as
    /// in `other`.
    pub open spec fn same_state(&self, other: &TxEnv<'a>) -> bool {
        &&& self.ctx.storage == other.ctx.storage
        &&& self.ctx.write_log == other.ctx.write_log
        &&& self.ctx.iterators == other.ctx.iterators
        &&& self.ctx.verifiers == other.ctx.verifiers
    }

    /// Create a transaction environment.
    pub fn new(
        memory: VmMemory,
        storage: &'a Storage,
        write_log: WriteLog,
        iterators: PrefixIterators,
        gas_meter: GasMeter,
        verifiers: Vec<Address>,
        result_buffer: Option<Vec<u8>>,
    ) -> (r: TxEnv<'a>)
        ensures
            r.memory == memory,
            r.ctx.storage == storage,
            r.ctx.write_log == write_log,
            r.ctx.iterators == iterators,
            r.ctx.gas_meter == gas_meter,
            r.ctx.verifiers == verifiers,
            r.ctx.result_buffer == result_buffer,
    {
        TxEnv {
            memory,
            ctx: TxCtx { storage, write_log, iterators, gas_meter, verifiers, result_buffer },
        }
    }
}

/// Set up a transaction environment with an empty guest memory.
pub fn tx_env<'a>(
    storage: &'a Storage,
    write_log: WriteLog,
    iterators: PrefixIterators,
    verifiers: Vec<Address>,
    gas_meter: GasMeter,
    result_buffer: Option<Vec<u8>>,
) -> (r: TxEnv<'a>)
    ensures
        r.memory.bytes@.len() == 0,
        r.ctx.storage == storage,
        r.ctx.write_log == write_log,
        r.ctx.iterators == iterators,
        r.ctx.gas_meter == gas_meter,
        r.ctx.verifiers == verifiers,
        r.ctx.result_buffer == result_buffer,
{
    TxEnv::new(
        VmMemory { bytes: Vec::new() },
        storage,
        write_log,
        iterators,
        gas_meter,
        verifiers,
        result_buffer,
    )
}

/// Charge gas to the transaction.
pub fn tx_add_gas(env: &mut TxEnv, used_gas: u64) -> (r: Result<(), TxRuntimeError>)
    requires
        old(env).wf(),
    ensures
        final(env).wf(),
        final(env).ctx.gas_meter == old(env).ctx.gas_meter.charged(used_gas),
        final(env).same_state(old(env)),
        final(env).memory == old(env).memory,
        final(env).ctx.result_buffer == old(env).ctx.result_buffer,
        r is Ok <==> old(env).ctx.gas_meter.accepts(used_gas),
        r matches Err(e) ==> e is OutOfGas,
{
    match env.ctx.gas_meter.add(used_gas) {
        Ok(()) => Ok(()),
        Err(e) => Err(TxRuntimeError::OutOfGas(e)),
    }
}

/// Called from transaction code to charge the given amount of gas; a
/// negative amount is refused.
pub fn tx_charge_gas(env: &mut TxEnv, used_gas: i32) -> (r: Result<(), TxRuntimeError>)
    requires
        old(env).wf(),
    ensures
        final(env).wf(),
        final(env).same_state(old(env)),
        used_gas < 0 ==> (r matches Err(TxRuntimeError::NumConversionError)) && final(env).ctx.gas_meter
            == old(env).ctx.gas_meter,
        used_gas >= 0 ==> final(env).ctx.gas_meter == old(env).ctx.gas_meter.charged(used_gas as u64)
            && (r is Ok <==> old(env).ctx.gas_meter.accepts(used_gas as u64)),
        used_gas >= 0 && r is Err ==> (r matches Err(TxRuntimeError::OutOfGas(_))) && final(env).ctx.gas_meter.exhausted,
{
    if used_gas < 0 {
        return Err(TxRuntimeError::NumConversionError);
    }
    tx_add_gas(env, used_gas as u64)
}

/// Read `len` bytes of guest memory at `ptr` and charge their transfer.
fn read_guest_bytes(env: &mut TxEnv, ptr: u64, len: u64) -> (r: Result<Vec<u8>, TxRuntimeError>)
    requires
        old(env).wf(),
    ensures
        final(env).wf(),
        final(env).same_state(old(env)),
        final(env).memory == old(env).memory,
        final(env).ctx.result_buffer == old(env).ctx.result_buffer,
        final(env).ctx.gas_meter.limit == old(env).ctx.gas_meter.limit,
        final(env).ctx.gas_meter.used >= old(env).ctx.gas_meter.used,
        old(env).ctx.gas_meter.exhausted ==> final(env).ctx.gas_meter.exhausted,
        r matches Ok(b) ==> in_bounds(old(env).memory.bytes@.len(), ptr, len) && b@ == old(env).memory.slice(ptr, len)
            && final(env).ctx.gas_meter.used == old(env).ctx.gas_meter.used + len && !final(env).ctx.gas_meter.exhausted,
        in_bounds(old(env).memory.bytes@.len(), ptr, len) && old(env).ctx.gas_meter.can_pay(len as int) ==> r is Ok,
        r matches Err(e) ==> (e is MemoryError && !in_bounds(old(env).memory.bytes@.len(), ptr, len))
            || (e is OutOfGas && final(env).ctx.gas_meter.exhausted),
        in_bounds(old(env).memory.bytes@.len(), ptr, len) ==> r is Ok || final(env).ctx.gas_meter.exhausted,
{
    match env.memory.read_bytes(ptr, len) {
        Ok((b, gas)) => {
            match tx_add_gas(env, gas) {
                Ok(()) => Ok(b),
                Err(e) => Err(e),
            }
        },
        Err(e) => Err(TxRuntimeError::MemoryError(e)),
    }
}

/// Read a key text from guest memory, charge its transfer, and parse it.
fn read_guest_key(env: &mut TxEnv, ptr: u64, len: u64) -> (r: Result<Key, TxRuntimeError>)
    requires
        old(env).wf(),
    ensures
        final(env).wf(),
        final(env).same_state(old(env)),
        final(env).memory == old(env).memory,
        final(env).ctx.result_buffer == old(env).ctx.result_buffer,
        final(env).ctx.gas_meter.limit == old(env).ctx.gas_meter.limit,
        final(env).ctx.gas_meter.used >= old(env).ctx.gas_meter.used,
        old(env).ctx.gas_meter.exhausted ==> final(env).ctx.gas_meter.exhausted,
        r matches Ok(k) ==> in_bounds(old(env).memory.bytes@.len(), ptr, len) && valid_key_text(
            old(env).memory.slice(ptr, len),
        ) && k@ == split_segs(old(env).memory.slice(ptr, len)) && k.wf(),
        r is Ok ==> final(env).ctx.gas_meter.used == old(env).ctx.gas_meter.used + len && !final(env).ctx.gas_meter.exhausted,
        in_bounds(old(env).memory.bytes@.len(), ptr, len) && valid_key_text(old(env).memory.slice(ptr, len))
            && old(env).ctx.gas_meter.can_pay(len as int) ==> r is Ok,
        r matches Err(e) ==> (e is MemoryError && !in_bounds(old(env).memory.bytes@.len(), ptr, len))
            || (e is OutOfGas && final(env).ctx.gas_meter.exhausted) || (e is StorageDataError
            && !valid_key_text(old(env).memory.slice(ptr, len))),
        in_bounds(old(env).memory.bytes@.len(), ptr, len) && valid_key_text(old(env).memory.slice(ptr, len))
            ==> r is Ok || final(env).ctx.gas_meter.exhausted,
{
    let b = read_guest_bytes(env, ptr, len)?;
    match Key::parse(b.as_slice()) {
        Ok(k) => Ok(k),
        Err(e) => Err(TxRuntimeError::StorageDataError(e)),
    }
}

/// Convert a length for the guest.
fn len_to_i64(n: usize) -> (r: Result<i64, TxRuntimeError>)
    ensures
        r matches Ok(v) ==> v == n,
        r is Ok <==> n <= i64::MAX,
        r matches Err(e) ==> e is NumConversionError,
{
    if n as u64 > i64::MAX as u64 {
        Err(TxRuntimeError::NumConversionError)
    } else {
        Ok(n as i64)
    }
}

/// Storage `has_key` for transaction code: 1 where the key holds a value
/// in the posterior state, 0 where it does not.
pub fn tx_has_key(env: &mut TxEnv, key_ptr: u64, key_len: u64) -> (r: Result<i64, TxRuntimeError>)
    requires
        old(env).wf(),
    ensures
        final(env).wf(),
        final(env).same_state(old(env)),
        final(env).memory == old(env).memory,
        final(env).ctx.result_buffer == old(env).ctx.result_buffer,
        final(env).ctx.gas_meter.used >= old(env).ctx.gas_meter.used,
        r matches Ok(v) ==> {
            let t = old(env).memory.slice(key_ptr, key_len);
            &&& in_bounds(old(env).memory.bytes@.len(), key_ptr, key_len)
            &&& valid_key_text(t)
            &&& v == if old(env).post(split_segs(t)) is Some { 1i64 } else { 0i64 }
            &&& final(env).ctx.gas_meter.used == old(env).ctx.gas_meter.used + key_len + post_has_gas(
                old(env).ctx.write_log,
                *old(env).ctx.storage,
                split_segs(t),
            )
        },
        in_bounds(old(env).memory.bytes@.len(), key_ptr, key_len) && valid_key_text(old(env).memory.slice(key_ptr, key_len))
            && old(env).ctx.gas_meter.can_pay(key_len + post_has_gas(
            old(env).ctx.write_log,
            *old(env).ctx.storage,
            split_segs(old(env).memory.slice(key_ptr, key_len)),
        )) ==> r is Ok,
        r matches Err(e) ==> (e is MemoryError && !in_bounds(old(env).memory.bytes@.len(), key_ptr, key_len))
            || (e is OutOfGas && final(env).ctx.gas_meter.exhausted) || (e is StorageDataError
            && !valid_key_text(old(env).memory.slice(key_ptr, key_len))),
        in_bounds(old(env).memory.bytes@.len(), key_ptr, key_len) && valid_key_text(
            old(env).memory.slice(key_ptr, key_len),
        ) ==> r is Ok || final(env).ctx.gas_meter.exhausted,
{
    let key = read_guest_key(env, key_ptr, key_len)?;
    let (log_val, gas) = env.ctx.write_log.read(&key);
    tx_add_gas(env, gas)?;
    match log_val {
        Some(crate::write_log::StorageModification::Write { .. }) => Ok(1),
        Some(crate::write_log::StorageModification::Delete) => Ok(0),
        Some(crate::write_log::StorageModification::InitAccount { .. }) => Ok(1),
        None => {
            let (present, gas) = env.ctx.storage.has_key(&key);
            tx_add_gas(env, gas)?;
            Ok(if present { 1 } else { 0 })
        },
    }
}

/// Storage read for transaction code, in the posterior state. Returns the
/// length of the value, which waits in the result buffer, or -1 where the
/// key holds none.
pub fn tx_read(env: &mut TxEnv, key_ptr: u64, key_len: u64) -> (r: Result<i64, TxRuntimeError>)
    requires
        old(env).wf(),
    ensures
        final(env).wf(),
        final(env).same_state(old(env)),
        final(env).memory == old(env).memory,
        final(env).ctx.gas_meter.used >= old(env).ctx.gas_meter.used,
        r matches Ok(n) ==> {
            let t = old(env).memory.slice(key_ptr, key_len);
            &&& in_bounds(old(env).memory.bytes@.len(), key_ptr, key_len)
            &&& valid_key_text(t)
            &&& match old(env).post(split_segs(t)) {
                Some(v) => n == v.len() && buf_view(final(env).ctx.result_buffer) == Some(v),
                None => n == -1 && final(env).ctx.result_buffer == old(env).ctx.result_buffer,
            }
            &&& final(env).ctx.gas_meter.used == old(env).ctx.gas_meter.used + key_len + post_read_gas(
                old(env).ctx.write_log,
                *old(env).ctx.storage,
                split_segs(t),
            )
        },
        in_bounds(old(env).memory.bytes@.len(), key_ptr, key_len) && valid_key_text(old(env).memory.slice(key_ptr, key_len))
            && old(env).ctx.gas_meter.can_pay(key_len + post_read_gas(
            old(env).ctx.write_log,
            *old(env).ctx.storage,
            split_segs(old(env).memory.slice(key_ptr, key_len)),
        )) && (old(env).post(split_segs(old(env).memory.slice(key_ptr, key_len))) matches Some(v) ==> v.len() <= i64::MAX)
            ==> r is Ok,
        r matches Err(e) ==> (e is MemoryError && !in_bounds(old(env).memory.bytes@.len(), key_ptr, key_len))
            || (e is OutOfGas && final(env).ctx.gas_meter.exhausted) || (e is StorageDataError
            && !valid_key_text(old(env).memory.slice(key_ptr, key_len))) || (e is NumConversionError
            && (old(env).post(split_segs(old(env).memory.slice(key_ptr, key_len))) matches Some(v)
            && v.len() > i64::MAX)),
        in_bounds(old(env).memory.bytes@.len(), key_ptr, key_len) && valid_key_text(
            old(env).memory.slice(key_ptr, key_len),
        ) ==> r is Ok || final(env).ctx.gas_meter.exhausted || r matches Err(
            TxRuntimeError::NumConversionError,
        ),
{
    let key = read_guest_key(env, key_ptr, key_len)?;
    let (log_val, gas) = env.ctx.write_log.read(&key);
    tx_add_gas(env, gas)?;
    match log_val {
        Some(crate::write_log::StorageModification::Write { value }) => {
            let len = len_to_i64(value.len())?;
            env.ctx.result_buffer = Some(value);
            Ok(len)
        },
        Some(crate::write_log::StorageModification::Delete) => Ok(-1),
        Some(crate::write_log::StorageModification::InitAccount { vp }) => {
            let len = len_to_i64(vp.len())?;
            env.ctx.result_buffer = Some(vp);
            Ok(len)
        },
        None => {
            let (value, gas) = env.ctx.storage.read(&key);
            tx_add_gas(env, gas)?;
            match value {
                Some(value) => {
                    let len = len_to_i64(value.len())?;
                    env.ctx.result_buffer = Some(value);
                    Ok(len)
                },
                None => Ok(-1),
            }
        },
    }
}

/// Second step of a two-step read: copy the result buffer into guest memory
/// at `result_ptr` and empty the buffer.
pub fn tx_result_buffer(env: &mut TxEnv, result_ptr: u64) -> (r: Result<(), TxRuntimeError>)
    requires
        old(env).wf(),
        old(env).ctx.result_buffer is Some,
    ensures
        final(env).wf(),
        final(env).same_state(old(env)),
        final(env).ctx.result_buffer is None,
        final(env).ctx.gas_meter.used >= old(env).ctx.gas_meter.used,
        ({
            let v = old(env).ctx.result_buffer->0@;
            let m = old(env).memory.bytes@;
            &&& (r is Ok ==> final(env).memory.bytes@ == m.subrange(0, result_ptr as int) + v
                + m.subrange(result_ptr + v.len(), m.len() as int))
            &&& (r matches Err(e) ==> (e is MemoryError && !fits(m.len(), result_ptr, v.len()))
                || (e is OutOfGas && final(env).ctx.gas_meter.exhausted))
            &&& (fits(m.len(), result_ptr, v.len()) ==> r is Ok || final(env).ctx.gas_meter.exhausted)
            &&& (fits(m.len(), result_ptr, v.len()) && old(env).ctx.gas_meter.can_pay(v.len() as int) ==> r is Ok)
            &&& (r is Ok ==> final(env).ctx.gas_meter.used == old(env).ctx.gas_meter.used + v.len())
        }),
{
    let value = env.ctx.result_buffer.take().unwrap();
    match env.memory.write_bytes(result_ptr, value.as_slice()) {
        Ok(gas) => tx_add_gas(env, gas),
        Err(e) => Err(TxRuntimeError::MemoryError(e)),
    }
}

/// Whether `a` is the text of an established address (it begins with `e`,
/// byte 101).
pub open spec fn established_text(a: Seq<u8>) -> bool {
    a.len() > 0 && a[0] == 101u8
}

/// The verifier set `v` holds exactly the addresses of `old` and the
/// established addresses that key `k` names.
pub open spec fn verifiers_after(v: Seq<Address>, old: Seq<Address>, k: Seq<Seq<u8>>) -> bool {
    forall|x: Seq<u8>| has_address(v, x) <==> has_address(old, x) || (#[trigger] addresses_in(k).contains(x)
        && established_text(x))
}

/// The established address texts of `s`, in order.
pub open spec fn est_filter(s: Seq<Seq<u8>>) -> Seq<Seq<u8>>
    decreases s.len(),
{
    if s.len() == 0 {
        Seq::empty()
    } else if established_text(s.last()) {
        est_filter(s.drop_last()).push(s.last())
    } else {
        est_filter(s.drop_last())
    }
}

/// Gas of checking that the accounts with address texts `s` exist.
pub open spec fn addr_check_gas(wl: WriteLog, st: Storage, s: Seq<Seq<u8>>) -> int
    decreases s.len(),
{
    if s.len() == 0 {
        0
    } else {
        addr_check_gas(wl, st, s.drop_last()) + post_has_gas(wl, st, vp_key(s.last()))
    }
}

proof fn lemma_addr_check_gas_prefix(wl: WriteLog, st: Storage, s: Seq<Seq<u8>>, i: int)
    requires
        0 <= i <= s.len(),
    ensures
        0 <= addr_check_gas(wl, st, s.subrange(0, i)) <= addr_check_gas(wl, st, s),
    decreases s.len() - i,
{
    if i < s.len() {
        lemma_addr_check_gas_prefix(wl, st, s, i + 1);
        assert(s.subrange(0, i + 1).drop_last() =~= s.subrange(0, i));
    } else {
        assert(s.subrange(0, i) =~= s);
    }
    lemma_addr_check_gas_nonneg(wl, st, s.subrange(0, i));
}

proof fn lemma_addr_check_gas_nonneg(wl: WriteLog, st: Storage, s: Seq<Seq<u8>>)
    ensures
        addr_check_gas(wl, st, s) >= 0,
    decreases s.len(),
{
    if s.len() > 0 {
        lemma_addr_check_gas_nonneg(wl, st, s.drop_last());
    }
}

/// Gas of a storage write of `val_len` bytes under the key text `t`, with
/// the existence checks of the accounts it names.
pub open spec fn write_gas(wl: WriteLog, st: Storage, t: Seq<u8>, key_len: u64, val_len: u64) -> int {
    key_len + val_len + addr_check_gas(wl, st, est_filter(addresses_in(split_segs(t))))
        + crate::storage::access_gas(join(split_segs(t)).len(), val_len as nat)
}

/// The established addresses that `key` names.
fn established_addresses(key: &Key) -> (r: Vec<Address>)
    requires
        key.wf(),
    ensures
        forall|x: Seq<u8>| has_address(r@, x) <==> (#[trigger] addresses_in(key@).contains(x) && established_text(x)),
        forall|j: int| 0 <= j < r@.len() ==> (#[trigger] r@[j]).wf() && r@[j] is Established,
        r@.map_values(|a: Address| a@) == est_filter(addresses_in(key@)),
{
    let addrs = key.find_addresses();
    let ghost av = addrs@.map_values(|a: Address| a@);
    let mut out: Vec<Address> = Vec::new();
    let mut i: usize = 0;
    while i < addrs.len()
        invariant
            0 <= i <= addrs@.len(),
            av == addresses_in(key@),
            av == addrs@.map_values(|a: Address| a@),
            forall|j: int| 0 <= j < addrs@.len() ==> (#[trigger] addrs@[j]).wf(),
            forall|j: int| 0 <= j < out@.len() ==> (#[trigger] out@[j]).wf() && out@[j] is Established,
            forall|x: Seq<u8>| has_address(out@, x) <==> (exists|j: int| 0 <= j < i && #[trigger] av[j] == x
                && established_text(x)),
            out@.map_values(|a: Address| a@) == est_filter(av.subrange(0, i as int)),
        decreases addrs@.len() - i,
    {
        assert(av[i as int] == addrs@[i as int]@);
        assert(av.subrange(0, i + 1).drop_last() =~= av.subrange(0, i as int));
        let ghost before_views = out@.map_values(|a: Address| a@);
        let ghost before = out@;
        if !addrs[i].is_implicit_or_internal() {
            let c = addrs[i].copy();
            proof {
                match addrs@[i as int] {
                    Address::Established(id) => {
                        assert(c@ == crate::address::est_tag() + id@);
                        assert(c@[0] == 101u8);
                    },
                    _ => {},
                }
            }
            out.push(c);
            assert(out@ == before.push(c));
            assert(out@.map_values(|a: Address| a@) =~= before_views.push(c@));
            proof {
                assert forall|x: Seq<u8>| has_address(out@, x) <==> (exists|j: int| 0 <= j < i + 1 && #[trigger] av[j] == x
                    && established_text(x)) by {
                    if has_address(out@, x) {
                        let m = choose|m: int| 0 <= m < out@.len() && (#[trigger] out@[m])@ == x;
                        if m < before.len() {
                            assert(before[m] == out@[m]);
                            assert(has_address(before, x));
                        }
                    }
                    if exists|j: int| 0 <= j < i + 1 && #[trigger] av[j] == x && established_text(x) {
                        let j = choose|j: int| 0 <= j < i + 1 && #[trigger] av[j] == x && established_text(x);
                        if j < i {
                            assert(has_address(before, x));
                            let m = choose|m: int| 0 <= m < before.len() && (#[trigger] before[m])@ == x;
                            assert(out@[m] == before[m]);
                        } else {
                            assert(out@[before.len() as int]@ == x);
                        }
                    }
                }
            }
        } else {
            proof {
                match addrs@[i as int] {
                    Address::Implicit(_) => {},
                    Address::Internal(crate::address::InternalAddress::Ibc) => {},
                    Address::Internal(crate::address::InternalAddress::PoS) => {},
                    _ => {},
                }
                assert(!established_text(av[i as int]));
                assert forall|x: Seq<u8>| has_address(out@, x) <==> (exists|j: int| 0 <= j < i + 1 && #[trigger] av[j] == x
                    && established_text(x)) by {
                    if exists|j: int| 0 <= j < i + 1 && #[trigger] av[j] == x && established_text(x) {
                        let j = choose|j: int| 0 <= j < i + 1 && #[trigger] av[j] == x && established_text(x);
                        assert(j < i);
                    }
                }
            }
        }
        i = i + 1;
    }
    proof {
        assert(av.subrange(0, av.len() as int) =~= av);
        assert forall|x: Seq<u8>| has_address(out@, x) <==> (#[trigger] addresses_in(key@).contains(x) && established_text(x)) by {
            if addresses_in(key@).contains(x) && established_text(x) {
                let j = choose|j: int| 0 <= j < av.len() && av[j] == x;
                assert(av[j] == x);
            }
        }
    }
    out
}

/// Add every address of `new` to the set `v`.
fn insert_addresses(v: &mut Vec<Address>, new: &Vec<Address>)
    ensures
        forall|x: Seq<u8>| #[trigger] has_address(final(v)@, x) <==> has_address(old(v)@, x) || has_address(new@, x),
{
    let mut i: usize = 0;
    while i < new.len()
        invariant
            0 <= i <= new@.len(),
            forall|x: Seq<u8>| has_address(v@, x) <==> has_address(old(v)@, x) || (exists|j: int| 0 <= j < i && (#[trigger] new@[j])@ == x),
        decreases new@.len() - i,
    {
        insert_address(v, new[i].copy());
        proof {
            assert forall|x: Seq<u8>| has_address(v@, x) <==> has_address(old(v)@, x) || (exists|j: int| 0 <= j < i + 1 && (#[trigger] new@[j])@ == x) by {
                if x == new@[i as int]@ {
                    assert(new@[i as int]@ == x);
                }
                if exists|j: int| 0 <= j < i + 1 && (#[trigger] new@[j])@ == x {
                    let j = choose|j: int| 0 <= j < i + 1 && (#[trigger] new@[j])@ == x;
                    if j < i {
                        assert(exists|j2: int| 0 <= j2 < i && (#[trigger] new@[j2])@ == x);
                    }
                }
            }
        }
        i = i + 1;
    }
}

/// Check that every established address that `key` names exists, in the
/// write log or in storage; returns those addresses.
fn check_addresses(env: &mut TxEnv, key: &Key) -> (r: Result<Vec<Address>, TxRuntimeError>)
    requires
        old(env).wf(),
        key.wf(),
    ensures
        final(env).wf(),
        final(env).same_state(old(env)),
        final(env).memory == old(env).memory,
        final(env).ctx.result_buffer == old(env).ctx.result_buffer,
        final(env).ctx.gas_meter.limit == old(env).ctx.gas_meter.limit,
        final(env).ctx.gas_meter.used >= old(env).ctx.gas_meter.used,
        old(env).ctx.gas_meter.exhausted ==> final(env).ctx.gas_meter.exhausted,
        r matches Ok(v) ==> forall|x: Seq<u8>| has_address(v@, x) <==> (#[trigger] addresses_in(key@).contains(x)
            && established_text(x)),
        r is Ok ==> forall|x: Seq<u8>| #![trigger addresses_in(key@).contains(x)] addresses_in(key@).contains(x) ==> !unknown_address(
            old(env).ctx.write_log,
            *old(env).ctx.storage,
            x,
        ),
        r matches Err(e) ==> (e is OutOfGas && final(env).ctx.gas_meter.exhausted) || (e matches TxRuntimeError::UnknownAddressStorageModification(a)
            && addresses_in(key@).contains(a@) && unknown_address(old(env).ctx.write_log, *old(env).ctx.storage, a@)),
        (forall|x: Seq<u8>| #![trigger addresses_in(key@).contains(x)] addresses_in(key@).contains(x) ==> !unknown_address(
            old(env).ctx.write_log,
            *old(env).ctx.storage,
            x,
        )) ==> r is Ok || final(env).ctx.gas_meter.exhausted,
        (forall|x: Seq<u8>| #![trigger addresses_in(key@).contains(x)] addresses_in(key@).contains(x) ==> !unknown_address(
            old(env).ctx.write_log,
            *old(env).ctx.storage,
            x,
        )) && old(env).ctx.gas_meter.can_pay(addr_check_gas(old(env).ctx.write_log, *old(env).ctx.storage, est_filter(addresses_in(key@))))
            ==> r is Ok,
        r is Ok ==> final(env).ctx.gas_meter.used == old(env).ctx.gas_meter.used + addr_check_gas(
            old(env).ctx.write_log,
            *old(env).ctx.storage,
            est_filter(addresses_in(key@)),
        ) && final(env).ctx.gas_meter.exhausted == old(env).ctx.gas_meter.exhausted,
{
    let est = established_addresses(key);
    let ghost ev = est@.map_values(|a: Address| a@);
    let ghost wl0 = old(env).ctx.write_log;
    let ghost st0 = *old(env).ctx.storage;
    let mut i: usize = 0;
    while i < est.len()
        invariant
            env.wf(),
            env.same_state(old(env)),
            env.memory == old(env).memory,
            env.ctx.result_buffer == old(env).ctx.result_buffer,
            env.ctx.gas_meter.used >= old(env).ctx.gas_meter.used,
            env.ctx.gas_meter.limit == old(env).ctx.gas_meter.limit,
            old(env).ctx.gas_meter.exhausted ==> env.ctx.gas_meter.exhausted,
            forall|x: Seq<u8>| has_address(est@, x) <==> (#[trigger] addresses_in(key@).contains(x) && established_text(x)),
            forall|j: int| 0 <= j < est@.len() ==> (#[trigger] est@[j]).wf() && est@[j] is Established,
            0 <= i <= est@.len(),
            forall|j: int| 0 <= j < i ==> !unknown_address(old(env).ctx.write_log, *old(env).ctx.storage, (#[trigger] est@[j])@),
            ev == est@.map_values(|a: Address| a@),
            ev == est_filter(addresses_in(key@)),
            wl0 == old(env).ctx.write_log,
            st0 == *old(env).ctx.storage,
            env.ctx.gas_meter.used == old(env).ctx.gas_meter.used + addr_check_gas(wl0, st0, ev.subrange(0, i as int)),
            env.ctx.gas_meter.exhausted == old(env).ctx.gas_meter.exhausted,
            old(env).ctx.gas_meter.can_pay(addr_check_gas(wl0, st0, ev)) ==> !env.ctx.gas_meter.exhausted,
        decreases est@.len() - i,
    {
        let addr = &est[i];
        proof {
            assert(ev.subrange(0, i + 1).drop_last() =~= ev.subrange(0, i as int));
            assert(ev[i as int] == addr@);
            lemma_addr_check_gas_prefix(wl0, st0, ev, i + 1);
        }
        assert(has_address(est@, addr@));
        let vp_key = Key::validity_predicate(addr);
        let (vp, gas) = env.ctx.write_log.read(&vp_key);
        tx_add_gas(env, gas)?;
        if vp.is_none() {
            let (present, gas) = env.ctx.storage.has_key(&vp_key);
            tx_add_gas(env, gas)?;
            if !present {
                assert(addresses_in(key@).contains(addr@) && established_text(addr@));
                assert(unknown_address(old(env).ctx.write_log, *old(env).ctx.storage, addr@));
                return Err(TxRuntimeError::UnknownAddressStorageModification(addr.copy()));
            }
        }
        i = i + 1;
    }
    proof {
        assert(ev.subrange(0, ev.len() as int) =~= ev);
        assert forall|x: Seq<u8>| #![trigger addresses_in(key@).contains(x)] addresses_in(key@).contains(x) implies !unknown_address(
            old(env).ctx.write_log,
            *old(env).ctx.storage,
            x,
        ) by {
            if established_text(x) {
                assert(has_address(est@, x));
                let j = choose|j: int| 0 <= j < est@.len() && (#[trigger] est@[j])@ == x;
                assert(!unknown_address(old(env).ctx.write_log, *old(env).ctx.storage, est@[j]@));
            }
        }
    }
    Ok(est)
}

/// Storage write for transaction code: stage `value` under `key` after
/// checking that every established account the key names exists; those
/// accounts join the verifier set. The write's gas is charged before it is
/// staged, so a failed call leaves the write log and the verifier set as
/// they were.
pub fn tx_write(env: &mut TxEnv, key_ptr: u64, key_len: u64, val_ptr: u64, val_len: u64) -> (r: Result<(), TxRuntimeError>)
    requires
        old(env).wf(),
    ensures
        final(env).wf(),
        final(env).ctx.storage == old(env).ctx.storage,
        final(env).ctx.iterators == old(env).ctx.iterators,
        final(env).memory == old(env).memory,
        final(env).ctx.result_buffer == old(env).ctx.result_buffer,
        final(env).ctx.gas_meter.used >= old(env).ctx.gas_meter.used,
        r is Err ==> final(env).ctx.write_log == old(env).ctx.write_log && final(env).ctx.verifiers == old(env).ctx.verifiers,
        ({
            let m = old(env).memory.bytes@;
            let t = old(env).memory.slice(key_ptr, key_len);
            let v = old(env).memory.slice(val_ptr, val_len);
            let k = split_segs(t);
            let wl = old(env).ctx.write_log;
            let known = forall|x: Seq<u8>| #![trigger addresses_in(k).contains(x)] addresses_in(k).contains(x)
                ==> !unknown_address(wl, *old(env).ctx.storage, x);
            &&& (r is Ok ==> {
                &&& in_bounds(m.len(), key_ptr, key_len) && in_bounds(m.len(), val_ptr, val_len)
                &&& valid_key_text(t)
                &&& known
                &&& !(wl.entry(k) matches Some(ModView::InitAccount(_)))
                &&& forall|kk: Seq<Seq<u8>>| #[trigger] final(env).ctx.write_log.entry(kk) == if kk == k {
                    Some(ModView::Write(v))
                } else {
                    wl.entry(kk)
                }
                &&& verifiers_after(final(env).ctx.verifiers@, old(env).ctx.verifiers@, k)
            })
            &&& (r matches Err(e) ==> (e is MemoryError && !(in_bounds(m.len(), key_ptr, key_len)
                && in_bounds(m.len(), val_ptr, val_len))) || (e is OutOfGas && final(env).ctx.gas_meter.exhausted)
                || (e is StorageDataError && !valid_key_text(t)) || (e matches TxRuntimeError::UnknownAddressStorageModification(a)
                && addresses_in(k).contains(a@) && unknown_address(wl, *old(env).ctx.storage, a@))
                || (e is StorageModificationError && (wl.entry(k) matches Some(ModView::InitAccount(_)))))
            &&& (in_bounds(m.len(), key_ptr, key_len) && in_bounds(m.len(), val_ptr, val_len) && valid_key_text(t)
                && known && !(wl.entry(k) matches Some(ModView::InitAccount(_))) ==> r is Ok
                || final(env).ctx.gas_meter.exhausted)
            &&& (in_bounds(m.len(), key_ptr, key_len) && in_bounds(m.len(), val_ptr, val_len) && valid_key_text(t)
                && known && !(wl.entry(k) matches Some(ModView::InitAccount(_))) && old(env).ctx.gas_meter.can_pay(
                write_gas(wl, *old(env).ctx.storage, t, key_len, val_len),
            ) ==> r is Ok)
            &&& (r is Ok ==> final(env).ctx.gas_meter.used == old(env).ctx.gas_meter.used + write_gas(
                wl,
                *old(env).ctx.storage,
                t,
                key_len,
                val_len,
            ))
        }),
{
    proof {
        lemma_addr_check_gas_nonneg(
            old(env).ctx.write_log,
            *old(env).ctx.storage,
            est_filter(addresses_in(split_segs(old(env).memory.slice(key_ptr, key_len)))),
        );
    }
    let key = read_guest_key(env, key_ptr, key_len)?;
    let value = read_guest_bytes(env, val_ptr, val_len)?;
    let est = match check_addresses(env, &key) {
        Ok(v) => v,
        Err(e) => {
            return Err(e);
        },
    };
    let gas = crate::storage::access_gas_exec(key.to_bytes().len(), value.len());
    tx_add_gas(env, gas)?;
    match env.ctx.write_log.write(&key, value) {
        Ok(_) => {
            let ghost v0 = env.ctx.verifiers@;
            assert(v0 == old(env).ctx.verifiers@);
            insert_addresses(&mut env.ctx.verifiers, &est);
            proof {
                assert forall|x: Seq<u8>| has_address(env.ctx.verifiers@, x) <==> has_address(old(env).ctx.verifiers@, x)
                    || (#[trigger] addresses_in(key@).contains(x) && established_text(x)) by {
                    assert(has_address(env.ctx.verifiers@, x) <==> has_address(v0, x) || has_address(est@, x));
                    assert(has_address(est@, x) <==> (addresses_in(key@).contains(x) && established_text(x)));
                    assert(v0 == old(env).ctx.verifiers@);
                }
            }
            Ok(())
        },
        Err(e) => Err(TxRuntimeError::StorageModificationError(e)),
    }
}

/// Storage delete for transaction code: stage the deletion of `key`. The
/// established accounts that the key names join the verifier set. A failed
/// call leaves the write log and the verifier set as they were.
pub fn tx_delete(env: &mut TxEnv, key_ptr: u64, key_len: u64) -> (r: Result<(), TxRuntimeError>)
    requires
        old(env).wf(),
    ensures
        final(env).wf(),
        final(env).ctx.storage == old(env).ctx.storage,
        final(env).ctx.iterators == old(env).ctx.iterators,
        final(env).memory == old(env).memory,
        final(env).ctx.result_buffer == old(env).ctx.result_buffer,
        final(env).ctx.gas_meter.used >= old(env).ctx.gas_meter.used,
        r is Err ==> final(env).ctx.write_log == old(env).ctx.write_log && final(env).ctx.verifiers == old(env).ctx.verifiers,
        ({
            let m = old(env).memory.bytes@;
            let t = old(env).memory.slice(key_ptr, key_len);
            let k = split_segs(t);
            let wl = old(env).ctx.write_log;
            &&& (r is Ok ==> {
                &&& in_bounds(m.len(), key_ptr, key_len)
                &&& valid_key_text(t)
                &&& !crate::key::is_vp_key(k)
                &&& forall|kk: Seq<Seq<u8>>| #[trigger] final(env).ctx.write_log.entry(kk) == if kk == k {
                    Some(ModView::Delete)
                } else {
                    wl.entry(kk)
                }
                &&& verifiers_after(final(env).ctx.verifiers@, old(env).ctx.verifiers@, k)
            })
            &&& (r matches Err(e) ==> (e is MemoryError && !in_bounds(m.len(), key_ptr, key_len))
                || (e is OutOfGas && final(env).ctx.gas_meter.exhausted) || (e is StorageDataError
                && !valid_key_text(t)) || (e is StorageModificationError && crate::key::is_vp_key(k)))
            &&& (in_bounds(m.len(), key_ptr, key_len) && valid_key_text(t) && !crate::key::is_vp_key(k)
                ==> r is Ok || final(env).ctx.gas_meter.exhausted)
            &&& (in_bounds(m.len(), key_ptr, key_len) && valid_key_text(t) && !crate::key::is_vp_key(k)
                && old(env).ctx.gas_meter.can_pay(key_len + crate::storage::access_gas(join(k).len(), 0)) ==> r is Ok)
            &&& (r is Ok ==> final(env).ctx.gas_meter.used == old(env).ctx.gas_meter.used + key_len + crate::storage::access_gas(
                join(k).len(),
                0,
            ))
        }),
{
    let key = read_guest_key(env, key_ptr, key_len)?;
    if key.is_validity_predicate().is_some() {
        return Err(TxRuntimeError::StorageModificationError(WriteLogError::DeleteVp));
    }
    let gas = crate::storage::access_gas_exec(key.to_bytes().len(), 0);
    tx_add_gas(env, gas)?;
    match env.ctx.write_log.delete(&key) {
        Ok(_) => {
            let est = established_addresses(&key);
            let ghost v0 = env.ctx.verifiers@;
            assert(v0 == old(env).ctx.verifiers@);
            insert_addresses(&mut env.ctx.verifiers, &est);
            proof {
                assert forall|x: Seq<u8>| has_address(env.ctx.verifiers@, x) <==> has_address(old(env).ctx.verifiers@, x)
                    || (#[trigger] addresses_in(key@).contains(x) && established_text(x)) by {
                    assert(has_address(env.ctx.verifiers@, x) <==> has_address(v0, x) || has_address(est@, x));
                    assert(has_address(est@, x) <==> (addresses_in(key@).contains(x) && established_text(x)));
                    assert(v0 == old(env).ctx.verifiers@);
                }
            }
            Ok(())
        },
        Err(e) => Err(TxRuntimeError::StorageModificationError(e)),
    }
}

/// Encode a (key text, value) pair for the guest; nothing where a part is
/// too long for its four-byte length.
fn encode_key_val(k: &[u8], v: &[u8]) -> (r: Option<Vec<u8>>)
    ensures
        r is Some <==> k@.len() <= u32::MAX && v@.len() <= u32::MAX,
        r matches Some(b) ==> b@ == key_val_encoding(k@, v@),
{
    if k.len() as u64 > u32::MAX as u64 || v.len() as u64 > u32::MAX as u64 {
        return None;
    }
    let mut out: Vec<u8> = Vec::new();
    append_len_prefixed(&mut out, k);
    append_len_prefixed(&mut out, v);
    assert(out@ =~= key_val_encoding(k@, v@));
    Some(out)
}

/// Storage prefix iterator for transaction code: an iterator over the
/// entries that storage holds under the key text `prefix`; returns its
/// handle.
pub fn tx_iter_prefix(env: &mut TxEnv, prefix_ptr: u64, prefix_len: u64) -> (r: Result<u64, TxRuntimeError>)
    requires
        old(env).wf(),
    ensures
        final(env).wf(),
        final(env).ctx.storage == old(env).ctx.storage,
        final(env).ctx.write_log == old(env).ctx.write_log,
        final(env).ctx.verifiers == old(env).ctx.verifiers,
        final(env).memory == old(env).memory,
        final(env).ctx.result_buffer == old(env).ctx.result_buffer,
        final(env).ctx.gas_meter.used >= old(env).ctx.gas_meter.used,
        r matches Ok(id) ==> {
            &&& in_bounds(old(env).memory.bytes@.len(), prefix_ptr, prefix_len)
            &&& id == old(env).ctx.iterators.iters@.len()
            &&& final(env).ctx.iterators.iters@.len() == id + 1
            &&& forall|j: int| 0 <= j < id ==> final(env).ctx.iterators.iters@[j] == old(env).ctx.iterators.iters@[j]
            &&& final(env).ctx.iterators.iters@[id as int].stored == prefix_items(
                old(env).ctx.storage.view_entries(),
                old(env).memory.slice(prefix_ptr, prefix_len),
            ).len()
            &&& items_view(final(env).ctx.iterators.iters@[id as int].items@).subrange(
                0,
                final(env).ctx.iterators.iters@[id as int].stored as int,
            ) == prefix_items(old(env).ctx.storage.view_entries(), old(env).memory.slice(prefix_ptr, prefix_len))
            &&& forall|m: int| final(env).ctx.iterators.iters@[id as int].stored <= m < final(env).ctx.iterators.iters@[id as int].items@.len()
                ==> {
                let e = #[trigger] final(env).ctx.iterators.iters@[id as int].items@[m];
                &&& crate::write_log::has_prefix(e.0@, old(env).memory.slice(prefix_ptr, prefix_len))
                &&& old(env).ctx.storage.value_of(e.0@) is None
                &&& old(env).ctx.write_log.entry(e.0@) is Some
                &&& e.1@.len() == 0
            }
            &&& forall|a: int, b: int| final(env).ctx.iterators.iters@[id as int].stored <= a < b
                < final(env).ctx.iterators.iters@[id as int].items@.len() ==> (#[trigger] final(env).ctx.iterators.iters@[id as int].items@[a]).0@ != (#[trigger] final(env).ctx.iterators.iters@[id as int].items@[b]).0@
            &&& forall|k: Seq<Seq<u8>>| #[trigger] old(env).ctx.write_log.entry(k) is Some && crate::write_log::has_prefix(
                k,
                old(env).memory.slice(prefix_ptr, prefix_len),
            ) && old(env).ctx.storage.value_of(k) is None ==> crate::write_log::has_key_in(
                final(env).ctx.iterators.iters@[id as int].items@,
                k,
            )
            &&& final(env).ctx.iterators.iters@[id as int].pos == 0
        },
        r is Err ==> final(env).ctx.iterators == old(env).ctx.iterators,
        r matches Err(e) ==> (e is MemoryError && !in_bounds(old(env).memory.bytes@.len(), prefix_ptr, prefix_len))
            || (e is OutOfGas && final(env).ctx.gas_meter.exhausted) || (e is NumConversionError
            && old(env).ctx.iterators.iters@.len() >= u64::MAX),
        in_bounds(old(env).memory.bytes@.len(), prefix_ptr, prefix_len) && old(env).ctx.iterators.iters@.len()
            < u64::MAX ==> r is Ok || final(env).ctx.gas_meter.exhausted,
        in_bounds(old(env).memory.bytes@.len(), prefix_ptr, prefix_len) && old(env).ctx.iterators.iters@.len()
            < u64::MAX && old(env).ctx.gas_meter.can_pay(prefix_len + crate::storage::access_gas(prefix_len as nat, 0))
            ==> r is Ok,
        r is Ok ==> final(env).ctx.gas_meter.used == old(env).ctx.gas_meter.used + prefix_len + crate::storage::access_gas(
            prefix_len as nat,
            0,
        ),
{
    let prefix = read_guest_bytes(env, prefix_ptr, prefix_len)?;
    let (mut items, gas) = env.ctx.storage.iter_prefix(prefix.as_slice());
    tx_add_gas(env, gas)?;
    if env.ctx.iterators.iters.len() as u64 >= u64::MAX {
        return Err(TxRuntimeError::NumConversionError);
    }
    let stored = items.len();
    let ghost first = items@;
    let mut extra = env.ctx.write_log.new_keys_with_prefix(env.ctx.storage, prefix.as_slice());
    let ghost more = extra@;
    items.append(&mut extra);
    proof {
        assert(items_view(items@).subrange(0, stored as int) =~= items_view(first));
        assert forall|m: int| stored <= m < items@.len() implies #[trigger] items@[m] == more[m - stored] by {}
        assert forall|k: Seq<Seq<u8>>| crate::write_log::has_key_in(more, k) implies crate::write_log::has_key_in(items@, k) by {
            let m = choose|m: int| 0 <= m < more.len() && (#[trigger] more[m]).0@ == k;
            assert(items@[stored + m] == more[m]);
        }
        assert forall|a: int, b: int| stored <= a < b < items@.len() implies (#[trigger] items@[a]).0@ != (#[trigger] items@[b]).0@ by {
            assert(items@[a] == more[a - stored] && items@[b] == more[b - stored]);
        }
    }
    Ok(env.ctx.iterators.insert(items, stored))
}

/// Storage prefix iterator next for transaction code, in the posterior
/// state: staged writes replace stored values; items that the write log
/// deletes or initializes as accounts are skipped. Returns the length of the
/// encoded (key, value) pair, which waits in the result buffer, or -1 once
/// the iterator is exhausted.
pub fn tx_iter_next(env: &mut TxEnv, iter_id: u64) -> (r: Result<i64, TxRuntimeError>)
    requires
        old(env).wf(),
    ensures
        final(env).wf(),
        final(env).ctx.storage == old(env).ctx.storage,
        final(env).ctx.write_log == old(env).ctx.write_log,
        final(env).ctx.verifiers == old(env).ctx.verifiers,
        final(env).memory == old(env).memory,
        final(env).ctx.gas_meter.used >= old(env).ctx.gas_meter.used,
        final(env).ctx.iterators.iters@.len() == old(env).ctx.iterators.iters@.len(),
        forall|j: int| 0 <= j < old(env).ctx.iterators.iters@.len() && j != iter_id ==> final(env).ctx.iterators.iters@[j]
            == old(env).ctx.iterators.iters@[j],
        !old(env).ctx.iterators.has(iter_id) ==> r == Ok::<i64, TxRuntimeError>(-1i64) && final(env).ctx.result_buffer
            == old(env).ctx.result_buffer,
        old(env).ctx.iterators.has(iter_id) ==> ({
            let it = old(env).ctx.iterators.iters@[iter_id as int];
            let items = items_view(it.items@);
            let wl = old(env).ctx.write_log;
            &&& final(env).ctx.iterators.iters@[iter_id as int].items == it.items
            &&& (old(env).ctx.gas_meter.can_pay(iter_cost(items, it.pos as int, wl)) && next_item_fits(items, it.pos as int, wl)
                ==> r is Ok)
            &&& (r is Ok ==> final(env).ctx.gas_meter.used == old(env).ctx.gas_meter.used + iter_cost(items, it.pos as int, wl))
            &&& (r matches Ok(n) ==> match next_visible(items, it.pos as int, wl) {
                Some(j) => {
                    let v = iter_post_value(wl.entry(items[j].0), items[j].1)->0;
                    let b = key_val_encoding(join(items[j].0), v);
                    &&& buf_view(final(env).ctx.result_buffer) == Some(b)
                    &&& n == b.len()
                    &&& final(env).ctx.iterators.iters@[iter_id as int].pos == j + 1
                },
                None => n == -1 && final(env).ctx.result_buffer == old(env).ctx.result_buffer
                    && final(env).ctx.iterators.iters@[iter_id as int].pos == items.len(),
            })
            &&& (r matches Err(e) ==> (e is OutOfGas && final(env).ctx.gas_meter.exhausted) || (e is EncodingError
                && (next_visible(items, it.pos as int, wl) matches Some(j) && (join(items[j].0).len() > u32::MAX
                || iter_post_value(wl.entry(items[j].0), items[j].1)->0.len() > u32::MAX))) || (e is NumConversionError
                && (next_visible(items, it.pos as int, wl) matches Some(j) && key_val_encoding(
                join(items[j].0),
                iter_post_value(wl.entry(items[j].0), items[j].1)->0,
            ).len() > i64::MAX)))
        }),
{
    if iter_id >= env.ctx.iterators.iters.len() as u64 {
        return Ok(-1);
    }
    let ghost it0 = old(env).ctx.iterators.iters@[iter_id as int];
    let ghost items = items_view(it0.items@);
    let ghost start = it0.pos as int;
    loop
        invariant
            env.wf(),
            env.ctx.storage == old(env).ctx.storage,
            env.ctx.write_log == old(env).ctx.write_log,
            env.ctx.verifiers == old(env).ctx.verifiers,
            env.memory == old(env).memory,
            env.ctx.result_buffer == old(env).ctx.result_buffer,
            env.ctx.gas_meter.used >= old(env).ctx.gas_meter.used,
            env.ctx.gas_meter.limit == old(env).ctx.gas_meter.limit,
            old(env).ctx.iterators.has(iter_id),
            it0 == old(env).ctx.iterators.iters@[iter_id as int],
            items == items_view(it0.items@),
            start == it0.pos as int,
            env.ctx.iterators.iters@.len() == old(env).ctx.iterators.iters@.len(),
            forall|j: int| 0 <= j < old(env).ctx.iterators.iters@.len() && j != iter_id ==> env.ctx.iterators.iters@[j]
                == old(env).ctx.iterators.iters@[j],
            env.ctx.iterators.iters@[iter_id as int].items == it0.items,
            start <= env.ctx.iterators.iters@[iter_id as int].pos <= items.len(),
            next_visible(items, start, old(env).ctx.write_log) == next_visible(
                items,
                env.ctx.iterators.iters@[iter_id as int].pos as int,
                old(env).ctx.write_log,
            ),
            env.ctx.gas_meter.used + iter_cost(items, env.ctx.iterators.iters@[iter_id as int].pos as int, old(env).ctx.write_log)
                == old(env).ctx.gas_meter.used + iter_cost(items, start, old(env).ctx.write_log),
            env.ctx.gas_meter.exhausted == old(env).ctx.gas_meter.exhausted,
        decreases items.len() - env.ctx.iterators.iters@[iter_id as int].pos,
    {
        let ghost pos = env.ctx.iterators.iters@[iter_id as int].pos as int;
        assert(items.len() == it0.items@.len());
        assert(env.ctx.iterators.has(iter_id));
        let next = env.ctx.iterators.next(iter_id);
        match next {
            None => {
                assert(pos >= items.len());
                return Ok(-1);
            },
            Some((key, val)) => {
                assert(key@ == items[pos].0 && val@ == items[pos].1);
                let (log_val, log_gas) = env.ctx.write_log.read(&key);
                let iter_gas = crate::storage::access_gas_exec(key.to_bytes().len(), val.len());
                let total = if iter_gas > u64::MAX - log_gas { u64::MAX } else { iter_gas + log_gas };
                proof {
                    assert(total == item_gas(items[pos], old(env).ctx.write_log));
                    lemma_iter_cost_nonneg(items, pos + 1, old(env).ctx.write_log);
                }
                tx_add_gas(env, total)?;
                let shown = match log_val {
                    Some(crate::write_log::StorageModification::Write { value }) => Some(value),
                    Some(_) => None,
                    None => Some(val),
                };
                let ghost wl = old(env).ctx.write_log;
                assert(buf_view(shown) == iter_post_value(wl.entry(items[pos].0), items[pos].1));
                match shown {
                    Some(v) => {
                        let text = key.to_bytes();
                        assert(next_visible(items, pos, wl) == Some(pos));
                        match encode_key_val(text.as_slice(), v.as_slice()) {
                            Some(b) => {
                                let len = len_to_i64(b.len())?;
                                env.ctx.result_buffer = Some(b);
                                return Ok(len);
                            },
                            None => {
                                return Err(TxRuntimeError::EncodingError);
                            },
                        }
                    },
                    None => {
                        assert(next_visible(items, pos, wl) == next_visible(items, pos + 1, wl));
                    },
                }
            },
        }
    }
}

/// Add an address, given as text in guest memory, to the verifier set.
pub fn tx_insert_verifier(env: &mut TxEnv, addr_ptr: u64, addr_len: u64) -> (r: Result<(), TxRuntimeError>)
    requires
        old(env).wf(),
    ensures
        final(env).wf(),
        final(env).ctx.storage == old(env).ctx.storage,
        final(env).ctx.write_log == old(env).ctx.write_log,
        final(env).ctx.iterators == old(env).ctx.iterators,
        final(env).memory == old(env).memory,
        final(env).ctx.result_buffer == old(env).ctx.result_buffer,
        final(env).ctx.gas_meter.used >= old(env).ctx.gas_meter.used,
        r is Err ==> final(env).ctx.verifiers == old(env).ctx.verifiers,
        ({
            let m = old(env).memory.bytes@;
            let t = old(env).memory.slice(addr_ptr, addr_len);
            &&& (r is Ok ==> in_bounds(m.len(), addr_ptr, addr_len) && crate::address::is_address_text(t))
            &&& (r is Ok ==> forall|x: Seq<u8>| has_address(final(env).ctx.verifiers@, x) <==> has_address(
                old(env).ctx.verifiers@,
                x,
            ) || x == t)
            &&& (r matches Err(e) ==> (e is MemoryError && !in_bounds(m.len(), addr_ptr, addr_len))
                || (e is OutOfGas && final(env).ctx.gas_meter.exhausted) || (e is AddressError
                && !crate::address::is_address_text(t)))
            &&& (in_bounds(m.len(), addr_ptr, addr_len) && crate::address::is_address_text(t) ==> r is Ok
                || final(env).ctx.gas_meter.exhausted)
            &&& (in_bounds(m.len(), addr_ptr, addr_len) && crate::address::is_address_text(t)
                && old(env).ctx.gas_meter.can_pay(2 * addr_len) ==> r is Ok)
            &&& (r is Ok ==> final(env).ctx.gas_meter.used == old(env).ctx.gas_meter.used + 2 * addr_len)
        }),
{
    let b = read_guest_bytes(env, addr_ptr, addr_len)?;
    match Address::decode(b.as_slice()) {
        Some(addr) => {
            tx_add_gas(env, addr_len)?;
            insert_address(&mut env.ctx.verifiers, addr);
            Ok(())
        },
        None => Err(TxRuntimeError::AddressError),
    }
}

/// The gas of validating `n` bytes of WASM.
fn validation_gas(n: usize) -> (r: u64)
    ensures
        r == n * WASM_VALIDATION_GAS_PER_BYTE,
{
    n as u64 * WASM_VALIDATION_GAS_PER_BYTE
}

/// Replace the validity predicate of an account with validated WASM code.
pub fn tx_update_validity_predicate(
    env: &mut TxEnv,
    addr_ptr: u64,
    addr_len: u64,
    code_ptr: u64,
    code_len: u64,
) -> (r: Result<(), TxRuntimeError>)
    requires
        old(env).wf(),
    ensures
        final(env).wf(),
        final(env).ctx.storage == old(env).ctx.storage,
        final(env).ctx.iterators == old(env).ctx.iterators,
        final(env).ctx.verifiers == old(env).ctx.verifiers,
        final(env).memory == old(env).memory,
        final(env).ctx.result_buffer == old(env).ctx.result_buffer,
        final(env).ctx.gas_meter.used >= old(env).ctx.gas_meter.used,
        r is Err ==> final(env).ctx.write_log == old(env).ctx.write_log,
        r is Ok ==> final(env).ctx.gas_meter.used >= old(env).ctx.gas_meter.used + addr_len + code_len + code_len
            * WASM_VALIDATION_GAS_PER_BYTE,
        ({
            let m = old(env).memory.bytes@;
            let a = old(env).memory.slice(addr_ptr, addr_len);
            let code = old(env).memory.slice(code_ptr, code_len);
            let wl = old(env).ctx.write_log;
            let inb = in_bounds(m.len(), addr_ptr, addr_len) && in_bounds(m.len(), code_ptr, code_len);
            &&& (r is Ok ==> {
                &&& inb && crate::address::is_address_text(a) && valid_wasm(code)
                &&& forall|kk: Seq<Seq<u8>>| #[trigger] final(env).ctx.write_log.entry(kk) == if kk == vp_key(a) {
                    Some(ModView::Write(code))
                } else {
                    wl.entry(kk)
                }
            })
            &&& (r matches Err(e) ==> (e is MemoryError && !inb) || (e is OutOfGas && final(env).ctx.gas_meter.exhausted)
                || (e is AddressError && !crate::address::is_address_text(a)) || (e is UpdateVpInvalid
                && !valid_wasm(code)) || (e is StorageModificationError && (wl.entry(vp_key(a)) matches Some(
                ModView::InitAccount(_),
            ))))
            &&& (inb && crate::address::is_address_text(a) && valid_wasm(code) && !(wl.entry(vp_key(a)) matches Some(
                ModView::InitAccount(_),
            )) ==> r is Ok || final(env).ctx.gas_meter.exhausted)
            &&& (inb && crate::address::is_address_text(a) && valid_wasm(code) && !(wl.entry(vp_key(a)) matches Some(
                ModView::InitAccount(_),
            )) && old(env).ctx.gas_meter.can_pay(addr_len + code_len + code_len * WASM_VALIDATION_GAS_PER_BYTE
                + crate::storage::access_gas(join(vp_key(a)).len(), code_len as nat)) ==> r is Ok)
            &&& (r is Ok ==> final(env).ctx.gas_meter.used == old(env).ctx.gas_meter.used + addr_len + code_len + code_len
                * WASM_VALIDATION_GAS_PER_BYTE + crate::storage::access_gas(join(vp_key(a)).len(), code_len as nat))
        }),
{
    let b = read_guest_bytes(env, addr_ptr, addr_len)?;
    let addr = match Address::decode(b.as_slice()) {
        Some(a) => a,
        None => {
            return Err(TxRuntimeError::AddressError);
        },
    };
    let key = Key::validity_predicate(&addr);
    let code = read_guest_bytes(env, code_ptr, code_len)?;
    tx_add_gas(env, validation_gas(code.len()))?;
    match validate_untrusted_wasm(code.as_slice()) {
        Ok(()) => {},
        Err(e) => {
            return Err(TxRuntimeError::UpdateVpInvalid(e));
        },
    }
    let gas = crate::storage::access_gas_exec(key.to_bytes().len(), code.len());
    tx_add_gas(env, gas)?;
    match env.ctx.write_log.write(&key, code) {
        Ok(_) => Ok(()),
        Err(e) => Err(TxRuntimeError::StorageModificationError(e)),
    }
}

/// Initialize an account with validated WASM code as its validity
/// predicate. The address is the next one of the block's generator, which
/// advances; it is written to guest memory at `result_ptr` as its text
/// preceded by a four-byte length. All gas is charged before anything is
/// staged, so a failed call leaves the write log and the memory as they
/// were.
pub fn tx_init_account(env: &mut TxEnv, code_ptr: u64, code_len: u64, result_ptr: u64) -> (r: Result<(), TxRuntimeError>)
    requires
        old(env).wf(),
    ensures
        final(env).wf(),
        final(env).ctx.storage == old(env).ctx.storage,
        final(env).ctx.iterators == old(env).ctx.iterators,
        final(env).ctx.verifiers == old(env).ctx.verifiers,
        final(env).ctx.result_buffer == old(env).ctx.result_buffer,
        final(env).ctx.gas_meter.used >= old(env).ctx.gas_meter.used,
        r is Err ==> final(env).ctx.write_log == old(env).ctx.write_log && final(env).memory == old(env).memory,
        r is Ok ==> final(env).ctx.gas_meter.used >= old(env).ctx.gas_meter.used + code_len + code_len
            * WASM_VALIDATION_GAS_PER_BYTE,
        ({
            let m = old(env).memory.bytes@;
            let code = old(env).memory.slice(code_ptr, code_len);
            let wl = old(env).ctx.write_log;
            let gen = wl.current_gen(old(env).ctx.storage.address_gen);
            let addr = gen.next_spec();
            let out = len_prefixed(addr);
            &&& (r is Ok ==> {
                &&& in_bounds(m.len(), code_ptr, code_len) && valid_wasm(code)
                &&& final(env).ctx.write_log.address_gen == Some(AddressGen { counter: (gen.counter + 1) as u64 })
                &&& forall|kk: Seq<Seq<u8>>| #[trigger] final(env).ctx.write_log.entry(kk) == if kk == vp_key(addr) {
                    Some(ModView::InitAccount(code))
                } else {
                    wl.entry(kk)
                }
                &&& final(env).memory.bytes@ == m.subrange(0, result_ptr as int) + out + m.subrange(
                    result_ptr + out.len(),
                    m.len() as int,
                )
            })
            &&& (r matches Err(e) ==> (e is MemoryError && !(in_bounds(m.len(), code_ptr, code_len) && fits(
                m.len(),
                result_ptr,
                out.len(),
            ))) || (e is OutOfGas && final(env).ctx.gas_meter.exhausted) || (e is InitAccountInvalidVpWasm
                && !valid_wasm(code)) || (e is AddressError && gen.counter == u64::MAX))
            &&& (in_bounds(m.len(), code_ptr, code_len) && valid_wasm(code) && fits(m.len(), result_ptr, out.len())
                && gen.counter < u64::MAX ==> r is Ok || final(env).ctx.gas_meter.exhausted)
            &&& (in_bounds(m.len(), code_ptr, code_len) && valid_wasm(code) && fits(m.len(), result_ptr, out.len())
                && gen.counter < u64::MAX && old(env).ctx.gas_meter.can_pay(code_len + code_len * WASM_VALIDATION_GAS_PER_BYTE
                + crate::storage::access_gas(join(vp_key(addr)).len(), code_len as nat) + out.len()) ==> r is Ok)
            &&& (r is Ok ==> final(env).ctx.gas_meter.used == old(env).ctx.gas_meter.used + code_len + code_len
                * WASM_VALIDATION_GAS_PER_BYTE + crate::storage::access_gas(join(vp_key(addr)).len(), code_len as nat) + out.len())
        }),
{
    let code = read_guest_bytes(env, code_ptr, code_len)?;
    tx_add_gas(env, validation_gas(code.len()))?;
    match validate_untrusted_wasm(code.as_slice()) {
        Ok(()) => {},
        Err(e) => {
            return Err(TxRuntimeError::InitAccountInvalidVpWasm(e));
        },
    }
    let mut gen = match env.ctx.write_log.address_gen {
        Some(g) => g,
        None => env.ctx.storage.address_gen,
    };
    if gen.counter == u64::MAX {
        return Err(TxRuntimeError::AddressError);
    }
    let addr = gen.generate_address();
    let text = addr.encode();
    assert(text@.len() == 19);
    let mut out: Vec<u8> = Vec::new();
    append_len_prefixed(&mut out, text.as_slice());
    assert(out@ =~= len_prefixed(text@));
    let size = env.memory.bytes.len() as u64;
    if result_ptr > size || (out.len() as u64) > size - result_ptr {
        return Err(TxRuntimeError::MemoryError(MemoryError::OutOfBounds));
    }
    let key = Key::validity_predicate(&addr);
    let gas = crate::storage::access_gas_exec(key.to_bytes().len(), code.len());
    tx_add_gas(env, gas)?;
    tx_add_gas(env, out.len() as u64)?;
    let (addr2, _) = env.ctx.write_log.init_account(&env.ctx.storage.address_gen, code);
    assert(addr2@ == addr@);
    match env.memory.write_bytes(result_ptr, out.as_slice()) {
        Ok(_) => Ok(()),
        Err(e) => Err(TxRuntimeError::MemoryError(e)),
    }
}

/// Write the chain id to guest memory at `result_ptr`.
pub fn tx_get_chain_id(env: &mut TxEnv, result_ptr: u64) -> (r: Result<(), TxRuntimeError>)
    requires
        old(env).wf(),
    ensures
        final(env).wf(),
        final(env).same_state(old(env)),
        final(env).ctx.result_buffer == old(env).ctx.result_buffer,
        final(env).ctx.gas_meter.used >= old(env).ctx.gas_meter.used,
        ({
            let m = old(env).memory.bytes@;
            let c = old(env).ctx.storage.chain_id@;
            &&& (r is Ok ==> final(env).memory.bytes@ == m.subrange(0, result_ptr as int) + c + m.subrange(
                result_ptr + c.len(),
                m.len() as int,
            ))
            &&& (r matches Err(e) ==> (e is MemoryError && !fits(m.len(), result_ptr, c.len())) || (e is OutOfGas
                && final(env).ctx.gas_meter.exhausted))
            &&& (fits(m.len(), result_ptr, c.len()) ==> r is Ok || final(env).ctx.gas_meter.exhausted)
            &&& (fits(m.len(), result_ptr, c.len()) && old(env).ctx.gas_meter.can_pay(crate::storage::access_gas(c.len(), 0)
                + c.len()) ==> r is Ok)
            &&& (r is Ok ==> final(env).ctx.gas_meter.used == old(env).ctx.gas_meter.used + crate::storage::access_gas(c.len(), 0)
                + c.len())
        }),
{
    let gas = crate::storage::access_gas_exec(env.ctx.storage.chain_id.len(), 0);
    tx_add_gas(env, gas)?;
    match env.memory.write_bytes(result_ptr, env.ctx.storage.chain_id.as_slice()) {
        Ok(gas) => tx_add_gas(env, gas),
        Err(e) => Err(TxRuntimeError::MemoryError(e)),
    }
}

/// The height of the block that the transaction is applied to.
pub fn tx_get_block_height(env: &mut TxEnv) -> (r: Result<u64, TxRuntimeError>)
    requires
        old(env).wf(),
    ensures
        final(env).wf(),
        final(env).same_state(old(env)),
        final(env).memory == old(env).memory,
        final(env).ctx.result_buffer == old(env).ctx.result_buffer,
        final(env).ctx.gas_meter == old(env).ctx.gas_meter.charged(MIN_STORAGE_GAS),
        r matches Ok(h) ==> h == old(env).ctx.storage.block_height,
        r is Ok <==> old(env).ctx.gas_meter.accepts(MIN_STORAGE_GAS),
{
    tx_add_gas(env, MIN_STORAGE_GAS)?;
    Ok(env.ctx.storage.block_height)
}

/// Write the hash of the block that the transaction is applied to into
/// guest memory at `result_ptr`.
pub fn tx_get_block_hash(env: &mut TxEnv, result_ptr: u64) -> (r: Result<(), TxRuntimeError>)
    requires
        old(env).wf(),
    ensures
        final(env).wf(),
        final(env).same_state(old(env)),
        final(env).ctx.result_buffer == old(env).ctx.result_buffer,
        final(env).ctx.gas_meter.used >= old(env).ctx.gas_meter.used,
        ({
            let m = old(env).memory.bytes@;
            let c = old(env).ctx.storage.block_hash@;
            &&& (r is Ok ==> final(env).memory.bytes@ == m.subrange(0, result_ptr as int) + c + m.subrange(
                result_ptr + c.len(),
                m.len() as int,
            ))
            &&& (r matches Err(e) ==> (e is MemoryError && !fits(m.len(), result_ptr, c.len())) || (e is OutOfGas
                && final(env).ctx.gas_meter.exhausted))
            &&& (fits(m.len(), result_ptr, c.len()) ==> r is Ok || final(env).ctx.gas_meter.exhausted)
            &&& (fits(m.len(), result_ptr, c.len()) && old(env).ctx.gas_meter.can_pay(crate::storage::access_gas(c.len(), 0)
                + c.len()) ==> r is Ok)
            &&& (r is Ok ==> final(env).ctx.gas_meter.used == old(env).ctx.gas_meter.used + crate::storage::access_gas(c.len(), 0)
                + c.len())
        }),
{
    let gas = crate::storage::access_gas_exec(env.ctx.storage.block_hash.len(), 0);
    tx_add_gas(env, gas)?;
    match env.memory.write_bytes(result_ptr, env.ctx.storage.block_hash.as_slice()) {
        Ok(gas) => tx_add_gas(env, gas),
        Err(e) => Err(TxRuntimeError::MemoryError(e)),
    }
}

/// The epoch of the block that the transaction is applied to.
pub fn tx_get_block_epoch(env: &mut TxEnv) -> (r: Result<u64, TxRuntimeError>)
    requires
        old(env).wf(),
    ensures
        final(env).wf(),
        final(env).same_state(old(env)),
        final(env).memory == old(env).memory,
        final(env).ctx.result_buffer == old(env).ctx.result_buffer,
        final(env).ctx.gas_meter == old(env).ctx.gas_meter.charged(MIN_STORAGE_GAS),
        r matches Ok(e) ==> e == old(env).ctx.storage.block_epoch,
        r is Ok <==> old(env).ctx.gas_meter.accepts(MIN_STORAGE_GAS),
{
    tx_add_gas(env, MIN_STORAGE_GAS)?;
    Ok(env.ctx.storage.block_epoch)
}

/// A diagnostic message from transaction code: the bytes at `str_ptr`, for
/// the host to log. Only their transfer is charged.
pub fn tx_log_string(env: &mut TxEnv, str_ptr: u64, str_len: u64) -> (r: Result<Vec<u8>, TxRuntimeError>)
    requires
        old(env).wf(),
    ensures
        final(env).wf(),
        final(env).same_state(old(env)),
        final(env).memory == old(env).memory,
        final(env).ctx.result_buffer == old(env).ctx.result_buffer,
        r matches Ok(b) ==> b@ == old(env).memory.slice(str_ptr, str_len),
        r matches Err(e) ==> (e is MemoryError && !in_bounds(old(env).memory.bytes@.len(), str_ptr, str_len))
            || (e is OutOfGas && final(env).ctx.gas_meter.exhausted),
        in_bounds(old(env).memory.bytes@.len(), str_ptr, str_len) ==> r is Ok || final(env).ctx.gas_meter.exhausted,
        in_bounds(old(env).memory.bytes@.len(), str_ptr, str_len) && old(env).ctx.gas_meter.can_pay(str_len as int) ==> r is Ok,
        r is Ok ==> final(env).ctx.gas_meter.used == old(env).ctx.gas_meter.used + str_len,
{
    read_guest_bytes(env, str_ptr, str_len)
}

/// The matchmaker's host: the gossip node that runs the matchmaker. Its
/// model is what it has been handed: the lists of intents removed, the
/// transactions injected, and the current matchmaker state.
pub trait MmHost {
    /// The lists of intent ids removed so far, in order.
    spec fn removed(&self) -> Seq<Seq<Seq<u8>>>;

    /// The transactions injected so far, in order.
    spec fn injected(&self) -> Seq<Seq<u8>>;

    /// The matchmaker's current state.
    spec fn mm_state(&self) -> Seq<u8>;

    /// Remove the intents with the given ids from the mempool.
    fn remove_intents(&mut self, intents_id: Vec<Vec<u8>>)
        ensures
            final(self).removed() == old(self).removed().push(intents_id@.map_values(|v: Vec<u8>| v@)),
            final(self).injected() == old(self).injected(),
            final(self).mm_state() == old(self).mm_state(),
    ;

    /// Inject a transaction built from matched intents.
    fn inject_tx(&mut self, tx_data: Vec<u8>)
        ensures
            final(self).injected() == old(self).injected().push(tx_data@),
            final(self).removed() == old(self).removed(),
            final(self).mm_state() == old(self).mm_state(),
    ;

    /// Replace the matchmaker's state.
    fn update_state(&mut self, state: Vec<u8>)
        ensures
            final(self).mm_state() == state@,
            final(self).removed() == old(self).removed(),
            final(self).injected() == old(self).injected(),
    ;
}

/// A host that records what the matchmaker hands it.
pub struct MmRecorder {
    pub removed: Vec<Vec<Vec<u8>>>,
    pub injected: Vec<Vec<u8>>,
    pub state: Vec<u8>,
}

impl MmRecorder {
    /// A recorder that has been handed nothing.
    pub fn new() -> (r: MmRecorder)
        ensures
            r.removed() == Seq::<Seq<Seq<u8>>>::empty(),
            r.injected() == Seq::<Seq<u8>>::empty(),
            r.mm_state() == Seq::<u8>::empty(),
    {
        let r = MmRecorder { removed: Vec::new(), injected: Vec::new(), state: Vec::new() };
        assert(r.removed() =~= Seq::<Seq<Seq<u8>>>::empty());
        assert(r.injected() =~= Seq::<Seq<u8>>::empty());
        r
    }
}

impl MmHost for MmRecorder {
    open spec fn removed(&self) -> Seq<Seq<Seq<u8>>> {
        self.removed@.map_values(|l: Vec<Vec<u8>>| l@.map_values(|v: Vec<u8>| v@))
    }

    open spec fn injected(&self) -> Seq<Seq<u8>> {
        self.injected@.map_values(|v: Vec<u8>| v@)
    }

    open spec fn mm_state(&self) -> Seq<u8> {
        self.state@
    }

    fn remove_intents(&mut self, intents_id: Vec<Vec<u8>>) {
        let ghost ids = intents_id@.map_values(|v: Vec<u8>| v@);
        let ghost before = self.removed();
        self.removed.push(intents_id);
        assert(self.removed() =~= before.push(ids));
    }

    fn inject_tx(&mut self, tx_data: Vec<u8>) {
        let ghost t = tx_data@;
        let ghost before = self.injected();
        self.injected.push(tx_data);
        assert(self.injected() =~= before.push(t));
    }

    fn update_state(&mut self, state: Vec<u8>) {
        self.state = state;
    }
}

/// A matchmaker's host environment.
pub struct MatchmakerEnv<MM: MmHost> {
    /// The guest memory.
    pub memory: VmMemory,
    /// The matchmaker's host.
    pub mm: MM,
}

/// A matchmaker filter's host environment.
pub struct FilterEnv {
    /// The guest memory.
    pub memory: VmMemory,
}

/// Why a matchmaker host call failed.
#[derive(Debug, Clone, Copy, PartialEq, Eq, Structural)]
pub enum MatchmakerError {
    /// The guest gave a range outside its memory.
    Memory(MemoryError),
    /// The bytes are not a list of intent ids.
    Decoding,
}

/// Remove intents, given as an encoded list of ids in guest memory, from the
/// matchmaker's mempool.
pub fn mm_remove_intents<MM: MmHost>(env: &mut MatchmakerEnv<MM>, intents_id_ptr: u64, intents_id_len: u64) -> (r: Result<(), MatchmakerError>)
    ensures
        final(env).memory == old(env).memory,
        r is Ok ==> in_bounds(old(env).memory.bytes@.len(), intents_id_ptr, intents_id_len),
        r matches Err(e) ==> (e is Memory && !in_bounds(old(env).memory.bytes@.len(), intents_id_ptr, intents_id_len))
            || (e is Decoding && in_bounds(old(env).memory.bytes@.len(), intents_id_ptr, intents_id_len)),
        !in_bounds(old(env).memory.bytes@.len(), intents_id_ptr, intents_id_len) ==> r matches Err(MatchmakerError::Memory(_)),
        forall|ids: Seq<Seq<u8>>| #[trigger] list_encoding(ids) == old(env).memory.slice(intents_id_ptr, intents_id_len)
            && list_fits(ids) && in_bounds(old(env).memory.bytes@.len(), intents_id_ptr, intents_id_len) ==> r is Ok,
        r is Err ==> final(env).mm == old(env).mm,
        r is Ok ==> final(env).mm.removed().len() == old(env).mm.removed().len() + 1 && final(env).mm.removed().drop_last()
            == old(env).mm.removed() && list_encoding(final(env).mm.removed().last()) == old(env).memory.slice(
            intents_id_ptr,
            intents_id_len,
        ) && final(env).mm.injected() == old(env).mm.injected() && final(env).mm.mm_state() == old(env).mm.mm_state(),
{
    let (bytes, _gas) = match env.memory.read_bytes(intents_id_ptr, intents_id_len) {
        Ok(v) => v,
        Err(e) => {
            return Err(MatchmakerError::Memory(e));
        },
    };
    match decode_byte_list(bytes.as_slice()) {
        Some(ids) => {
            let ghost before = env.mm.removed();
            env.mm.remove_intents(ids);
            assert(env.mm.removed().drop_last() =~= before);
            Ok(())
        },
        None => Err(MatchmakerError::Decoding),
    }
}

/// Hand a transaction built from matched intents to the matchmaker's host.
pub fn mm_send_match<MM: MmHost>(env: &mut MatchmakerEnv<MM>, data_ptr: u64, data_len: u64) -> (r: Result<(), MatchmakerError>)
    ensures
        final(env).memory == old(env).memory,
        r is Ok <==> in_bounds(old(env).memory.bytes@.len(), data_ptr, data_len),
        r is Err ==> final(env).mm == old(env).mm,
        r is Ok ==> final(env).mm.injected() == old(env).mm.injected().push(old(env).memory.slice(data_ptr, data_len))
            && final(env).mm.removed() == old(env).mm.removed() && final(env).mm.mm_state() == old(env).mm.mm_state(),
        r is Err ==> r == Err::<(), MatchmakerError>(MatchmakerError::Memory(MemoryError::OutOfBounds)),
{
    match env.memory.read_bytes(data_ptr, data_len) {
        Ok((tx_data, _gas)) => {
            env.mm.inject_tx(tx_data);
            Ok(())
        },
        Err(e) => Err(MatchmakerError::Memory(e)),
    }
}

/// Replace the matchmaker's state with the bytes in guest memory.
pub fn mm_update_state<MM: MmHost>(env: &mut MatchmakerEnv<MM>, state_ptr: u64, state_len: u64) -> (r: Result<(), MatchmakerError>)
    ensures
        final(env).memory == old(env).memory,
        r is Ok <==> in_bounds(old(env).memory.bytes@.len(), state_ptr, state_len),
        r is Err ==> final(env).mm == old(env).mm,
        r is Ok ==> final(env).mm.mm_state() == old(env).memory.slice(state_ptr, state_len) && final(env).mm.removed()
            == old(env).mm.removed() && final(env).mm.injected() == old(env).mm.injected(),
        r is Err ==> r == Err::<(), MatchmakerError>(MatchmakerError::Memory(MemoryError::OutOfBounds)),
{
    match env.memory.read_bytes(state_ptr, state_len) {
        Ok((data, _gas)) => {
            env.mm.update_state(data);
            Ok(())
        },
        Err(e) => Err(MatchmakerError::Memory(e)),
    }
}

/// A diagnostic message from the matchmaker: the bytes at `str_ptr`, for
/// the host to log.
pub fn mm_log_string<MM: MmHost>(env: &MatchmakerEnv<MM>, str_ptr: u64, str_len: u64) -> (r: Result<Vec<u8>, MatchmakerError>)
    ensures
        r is Ok <==> in_bounds(env.memory.bytes@.len(), str_ptr, str_len),
        r matches Ok(b) ==> b@ == env.memory.slice(str_ptr, str_len),
{
    match env.memory.read_bytes(str_ptr, str_len) {
        Ok((b, _gas)) => Ok(b),
        Err(e) => Err(MatchmakerError::Memory(e)),
    }
}

/// A diagnostic message from a matchmaker filter: the bytes at `str_ptr`,
/// for the host to log.
pub fn mm_filter_log_string(env: &FilterEnv, str_ptr: u64, str_len: u64) -> (r: Result<Vec<u8>, MatchmakerError>)
    ensures
        r is Ok <==> in_bounds(env.memory.bytes@.len(), str_ptr, str_len),
        r matches Ok(b) ==> b@ == env.memory.slice(str_ptr, str_len),
{
    match env.memory.read_bytes(str_ptr, str_len) {
        Ok((b, _gas)) => Ok(b),
        Err(e) => Err(MatchmakerError::Memory(e)),
    }
}

} // verus!
