//! The validity-predicate host environment: the calls that validity
//! predicate code makes into the ledger. Both the prior and the posterior
//! state can be read; nothing can be written.
use vstd::prelude::*;
use ed25519_dalek::Verifier;
use crate::address::Address;
use crate::gas::{GasError, MIN_STORAGE_GAS, VERIFY_TX_SIG_GAS_COST};
use crate::host_env::{buf_view, item_gas, iter_cost, iter_post_value, key_val_encoding, next_item_fits, next_visible};
use crate::key::{join, split_segs, valid_key_text, Key, KeyError};
use crate::memory::{fits, in_bounds, MemoryError, VmMemory};
use crate::native_vp::{tx_signing_bytes, Ctx};
use crate::prefix_iter::{items_view, PrefixIterators};
use crate::storage::prefix_items;
use crate::write_log::{post_has_gas, post_read_gas, pre_has_gas, pre_read_gas, read_gas, StorageModification};
use crate::storage::access_gas;

verus! {

/// Whether `sig` is a valid Ed25519 signature of `msg` by public key `pk`
/// (32 bytes; the signature is 64).
pub uninterp spec fn ed25519_verifies(pk: Seq<u8>, msg: Seq<u8>, sig: Seq<u8>) -> bool;

/// Relies on ed25519_dalek's `PublicKey::from_bytes`, `Signature::try_from`
/// and `Verifier::verify`: the verdict depends on the three byte strings
/// alone; bytes that are no key or no signature verify nothing.
#[verifier::external_body]
fn verify_signature(pk: &[u8], msg: &[u8], sig: &[u8]) -> (r: bool)
    ensures
        r == ed25519_verifies(pk@, msg@, sig@),
{
    match (ed25519_dalek::PublicKey::from_bytes(pk), ed25519_dalek::Signature::try_from(sig)) {
        (Ok(pk), Ok(sig)) => pk.verify(msg, &sig).is_ok(),
        _ => false,
    }
}

/// Errors that abort a validity predicate.
#[derive(Debug, Clone, Copy, PartialEq, Eq, Structural)]
pub enum RuntimeError {
    /// The gas meter refused a charge.
    OutOfGas(GasError),
    /// A key text could not be parsed.
    StorageDataError(KeyError),
    /// A value too long to be encoded for the guest.
    EncodingError,
    /// A number did not fit the type it was converted to.
    NumConversionError,
    /// The guest gave a range outside its memory.
    MemoryError(MemoryError),
}

/// Runs a validity predicate on behalf of another one, on the same context.
pub trait VpEvaluator {
    /// The verdict of running `vp_code` on `input_data` with context `ctx`.
    spec fn verdict(&self, ctx: VpCtx, vp_code: Seq<u8>, input_data: Seq<u8>) -> bool;

    /// The gas meter that running `vp_code` on `input_data` with context
    /// `ctx` leaves.
    spec fn meter_after(&self, ctx: VpCtx, vp_code: Seq<u8>, input_data: Seq<u8>) -> crate::gas::GasMeter;

    /// Run `vp_code` on `input_data` synchronously, on the caller's context
    /// and gas meter.
    fn eval(&self, ctx: &mut VpCtx, vp_code: Vec<u8>, input_data: Vec<u8>) -> (r: bool)
        requires
            old(ctx).wf(),
        ensures
            r == self.verdict(*old(ctx), vp_code@, input_data@),
            final(ctx).state.gas_meter == self.meter_after(*old(ctx), vp_code@, input_data@),
            final(ctx).wf(),
            final(ctx).state.meter_follows(&old(ctx).state),
            final(ctx).address == old(ctx).address,
            final(ctx).keys_changed == old(ctx).keys_changed,
            final(ctx).verifiers == old(ctx).verifiers,
    ;
}

/// A runner that evaluates no code: every nested validity predicate
/// rejects.
pub struct RejectAll;

impl VpEvaluator for RejectAll {
    open spec fn verdict(&self, ctx: VpCtx, vp_code: Seq<u8>, input_data: Seq<u8>) -> bool {
        false
    }

    open spec fn meter_after(&self, ctx: VpCtx, vp_code: Seq<u8>, input_data: Seq<u8>) -> crate::gas::GasMeter {
        ctx.state.gas_meter
    }

    fn eval(&self, ctx: &mut VpCtx, vp_code: Vec<u8>, input_data: Vec<u8>) -> (r: bool) {
        false
    }
}

/// The host structures a validity predicate works on.
pub struct VpCtx<'a> {
    /// The address of the account that the validity predicate guards.
    pub address: Address,
    /// The prior and posterior state, the transaction, and the gas meter.
    pub state: Ctx<'a>,
    /// Storage prefix iterators.
    pub iterators: PrefixIterators,
    /// Cache for two-step reads of values of unknown length.
    pub result_buffer: Option<Vec<u8>>,
    /// The keys that the transaction changed.
    pub keys_changed: &'a Vec<Key>,
    /// The addresses whose validity predicates the transaction triggers.
    pub verifiers: &'a Vec<Address>,
}

/// A validity predicate's host environment.
pub struct VpEnv<'a, EVAL: VpEvaluator> {
    /// The guest memory.
    pub memory: VmMemory,
    /// The host structures.
    pub ctx: VpCtx<'a>,
    /// The runner of nested validity predicates.
    pub eval_runner: &'a EVAL,
}

impl<'a> VpCtx<'a> {
    pub open spec fn wf(&self) -> bool {
        self.state.wf() && self.iterators.wf()
    }

    /// Create a validity-predicate context.
    pub fn new(
        address: Address,
        state: Ctx<'a>,
        iterators: PrefixIterators,
        keys_changed: &'a Vec<Key>,
        verifiers: &'a Vec<Address>,
        result_buffer: Option<Vec<u8>>,
    ) -> (r: VpCtx<'a>)
        ensures
            r.address == address,
            r.state == state,
            r.iterators == iterators,
            r.keys_changed == keys_changed,
            r.verifiers == verifiers,
            r.result_buffer == result_buffer,
    {
        VpCtx { address, state, iterators, result_buffer, keys_changed, verifiers }
    }
}

impl<'a, EVAL: VpEvaluator> VpEnv<'a, EVAL> {
    pub open spec fn wf(&self) -> bool {
        self.ctx.wf()
    }

    /// Create a validity-predicate environment.
    pub fn new(memory: VmMemory, ctx: VpCtx<'a>, eval_runner: &'a EVAL) -> (r: VpEnv<'a, EVAL>)
        ensures
            r.memory == memory,
            r.ctx == ctx,
            r.eval_runner == eval_runner,
    {
        VpEnv { memory, ctx, eval_runner }
    }
}

/// Set up a validity-predicate environment with an empty guest memory and
/// fresh iterators and result buffer.
pub fn vp_env<'a, EVAL: VpEvaluator>(
    address: Address,
    state: Ctx<'a>,
    keys_changed: &'a Vec<Key>,
    verifiers: &'a Vec<Address>,
    eval_runner: &'a EVAL,
) -> (r: VpEnv<'a, EVAL>)
    ensures
        r.memory.bytes@.len() == 0,
        r.ctx.state == state,
        r.ctx.iterators.iters@.len() == 0,
        r.ctx.result_buffer is None,
        r.ctx.keys_changed == keys_changed,
        r.ctx.verifiers == verifiers,
{
    let ctx = VpCtx::new(address, state, PrefixIterators::new(), keys_changed, verifiers, None);
    VpEnv::new(VmMemory { bytes: Vec::new() }, ctx, eval_runner)
}

/// The state of a validity-predicate environment is unchanged but for the
/// gas meter, which stays well formed and only grows.
pub open spec fn vp_follows<EVAL: VpEvaluator>(new: &VpEnv<EVAL>, old: &VpEnv<EVAL>) -> bool {
    &&& new.ctx.state.meter_follows(&old.ctx.state)
    &&& new.ctx.address == old.ctx.address
    &&& new.ctx.keys_changed == old.ctx.keys_changed
    &&& new.ctx.verifiers == old.ctx.verifiers
    &&& new.memory.bytes@.len() == old.memory.bytes@.len()
    &&& new.eval_runner == old.eval_runner
}

/// A validity predicate reads as prior state the committed storage that the
/// transaction started from, and as posterior state exactly what the
/// transaction reads through its own environment.
pub proof fn law_vp_views(tx_env: crate::host_env::TxEnv, state: Ctx, k: Seq<Seq<u8>>)
    requires
        state.storage == tx_env.ctx.storage,
        *state.write_log == tx_env.ctx.write_log,
    ensures
        state.pre(k) == tx_env.ctx.storage.value_of(k),
        state.post(k) == tx_env.post(k),
{
}

fn vp_add_gas<EVAL: VpEvaluator>(env: &mut VpEnv<EVAL>, gas: u64) -> (r: Result<(), RuntimeError>)
    requires
        old(env).wf(),
    ensures
        final(env).wf(),
        vp_follows(final(env), old(env)),
        final(env).memory == old(env).memory,
        final(env).ctx.iterators == old(env).ctx.iterators,
        final(env).ctx.result_buffer == old(env).ctx.result_buffer,
        final(env).ctx.state.gas_meter == old(env).ctx.state.gas_meter.charged(gas),
        r is Ok <==> old(env).ctx.state.gas_meter.accepts(gas),
        r matches Err(e) ==> e is OutOfGas,
{
    match env.ctx.state.gas_meter.add(gas) {
        Ok(()) => Ok(()),
        Err(e) => Err(RuntimeError::OutOfGas(e)),
    }
}

/// Called from validity-predicate code to charge the given amount of gas;
/// a negative amount is refused.
pub fn vp_charge_gas<EVAL: VpEvaluator>(env: &mut VpEnv<EVAL>, used_gas: i32) -> (r: Result<(), RuntimeError>)
    requires
        old(env).wf(),
    ensures
        final(env).wf(),
        vp_follows(final(env), old(env)),
        used_gas < 0 ==> r == Err::<(), RuntimeError>(RuntimeError::NumConversionError),
        used_gas >= 0 ==> final(env).ctx.state.gas_meter == old(env).ctx.state.gas_meter.charged(used_gas as u64)
            && (r is Ok <==> old(env).ctx.state.gas_meter.accepts(used_gas as u64)),
        used_gas >= 0 && r is Err ==> (r matches Err(RuntimeError::OutOfGas(_))) && final(env).ctx.state.gas_meter.exhausted,
{
    if used_gas < 0 {
        return Err(RuntimeError::NumConversionError);
    }
    vp_add_gas(env, used_gas as u64)
}

fn vp_read_bytes<EVAL: VpEvaluator>(env: &mut VpEnv<EVAL>, ptr: u64, len: u64) -> (r: Result<Vec<u8>, RuntimeError>)
    requires
        old(env).wf(),
    ensures
        final(env).wf(),
        vp_follows(final(env), old(env)),
        final(env).memory == old(env).memory,
        final(env).ctx.iterators == old(env).ctx.iterators,
        final(env).ctx.result_buffer == old(env).ctx.result_buffer,
        r matches Ok(b) ==> in_bounds(old(env).memory.bytes@.len(), ptr, len) && b@ == old(env).memory.slice(ptr, len)
            && final(env).ctx.state.gas_meter.used == old(env).ctx.state.gas_meter.used + len
            && !final(env).ctx.state.gas_meter.exhausted,
        r matches Err(e) ==> (e is MemoryError && !in_bounds(old(env).memory.bytes@.len(), ptr, len))
            || (e is OutOfGas && final(env).ctx.state.gas_meter.exhausted),
        !in_bounds(old(env).memory.bytes@.len(), ptr, len) ==> final(env).ctx.state.gas_meter == old(env).ctx.state.gas_meter,
        in_bounds(old(env).memory.bytes@.len(), ptr, len) && old(env).ctx.state.gas_meter.can_pay(len as int) ==> r is Ok,
        final(env).ctx.state.gas_meter.used <= old(env).ctx.state.gas_meter.used + len,
        in_bounds(old(env).memory.bytes@.len(), ptr, len) ==> r is Ok || final(env).ctx.state.gas_meter.exhausted,
{
    match env.memory.read_bytes(ptr, len) {
        Ok((b, gas)) => {
            vp_add_gas(env, gas)?;
            Ok(b)
        },
        Err(e) => Err(RuntimeError::MemoryError(e)),
    }
}

fn vp_read_key<EVAL: VpEvaluator>(env: &mut VpEnv<EVAL>, ptr: u64, len: u64) -> (r: Result<Key, RuntimeError>)
    requires
        old(env).wf(),
    ensures
        final(env).wf(),
        vp_follows(final(env), old(env)),
        final(env).memory == old(env).memory,
        final(env).ctx.iterators == old(env).ctx.iterators,
        final(env).ctx.result_buffer == old(env).ctx.result_buffer,
        r matches Ok(k) ==> in_bounds(old(env).memory.bytes@.len(), ptr, len) && valid_key_text(old(env).memory.slice(ptr, len))
            && k@ == split_segs(old(env).memory.slice(ptr, len)) && k.wf(),
        r is Ok ==> final(env).ctx.state.gas_meter.used == old(env).ctx.state.gas_meter.used + len && !final(env).ctx.state.gas_meter.exhausted,
        in_bounds(old(env).memory.bytes@.len(), ptr, len) && valid_key_text(old(env).memory.slice(ptr, len))
            && old(env).ctx.state.gas_meter.can_pay(len as int) ==> r is Ok,
        r matches Err(e) ==> (e is MemoryError && !in_bounds(old(env).memory.bytes@.len(), ptr, len))
            || (e is OutOfGas && final(env).ctx.state.gas_meter.exhausted) || (e is StorageDataError
            && !valid_key_text(old(env).memory.slice(ptr, len))),
        in_bounds(old(env).memory.bytes@.len(), ptr, len) && valid_key_text(old(env).memory.slice(ptr, len))
            ==> r is Ok || final(env).ctx.state.gas_meter.exhausted,
{
    let b = vp_read_bytes(env, ptr, len)?;
    match Key::parse(b.as_slice()) {
        Ok(k) => Ok(k),
        Err(e) => Err(RuntimeError::StorageDataError(e)),
    }
}

/// Place a value in the result buffer and return its length for the guest.
fn vp_return_value<EVAL: VpEvaluator>(env: &mut VpEnv<EVAL>, value: Option<Vec<u8>>) -> (r: Result<i64, RuntimeError>)
    ensures
        final(env).memory == old(env).memory,
        final(env).ctx.state == old(env).ctx.state,
        final(env).ctx.iterators == old(env).ctx.iterators,
        final(env).ctx.address == old(env).ctx.address,
        final(env).ctx.keys_changed == old(env).ctx.keys_changed,
        final(env).ctx.verifiers == old(env).ctx.verifiers,
        final(env).eval_runner == old(env).eval_runner,
        match value {
            Some(v) => (r is Ok ==> r == Ok::<i64, RuntimeError>(v@.len() as i64) && buf_view(final(env).ctx.result_buffer) == Some(v@))
                && (r is Err <==> v@.len() > i64::MAX),
            None => r == Ok::<i64, RuntimeError>(-1i64) && final(env).ctx.result_buffer == old(env).ctx.result_buffer,
        },
        r matches Err(e) ==> e is NumConversionError,
{
    match value {
        Some(v) => {
            if v.len() as u64 > i64::MAX as u64 {
                return Err(RuntimeError::NumConversionError);
            }
            let len = v.len() as i64;
            env.ctx.result_buffer = Some(v);
            Ok(len)
        },
        None => Ok(-1),
    }
}

/// Storage read of the prior state (before the transaction) for
/// validity-predicate code. Returns the length of the value, which waits in
/// the result buffer, or -1 where the key held none.
pub fn vp_read_pre<EVAL: VpEvaluator>(env: &mut VpEnv<EVAL>, key_ptr: u64, key_len: u64) -> (r: Result<i64, RuntimeError>)
    requires
        old(env).wf(),
    ensures
        final(env).wf(),
        vp_follows(final(env), old(env)),
        final(env).memory == old(env).memory,
        final(env).ctx.iterators == old(env).ctx.iterators,
        r matches Ok(n) ==> {
            let t = old(env).memory.slice(key_ptr, key_len);
            &&& in_bounds(old(env).memory.bytes@.len(), key_ptr, key_len) && valid_key_text(t)
            &&& match old(env).ctx.state.pre(split_segs(t)) {
                Some(v) => n == v.len() && buf_view(final(env).ctx.result_buffer) == Some(v),
                None => n == -1 && final(env).ctx.result_buffer == old(env).ctx.result_buffer,
            }
            &&& final(env).ctx.state.gas_meter.used == old(env).ctx.state.gas_meter.used + key_len + access_gas(join(split_segs(t)).len(), match old(env).ctx.state.pre(split_segs(t)) { Some(v) => v.len(), None => 0 })
        },
        r matches Err(e) ==> (e is MemoryError && !in_bounds(old(env).memory.bytes@.len(), key_ptr, key_len))
            || (e is OutOfGas && final(env).ctx.state.gas_meter.exhausted) || (e is StorageDataError
            && !valid_key_text(old(env).memory.slice(key_ptr, key_len))) || (e is NumConversionError
            && (old(env).ctx.state.pre(split_segs(old(env).memory.slice(key_ptr, key_len))) matches Some(v) && v.len() > i64::MAX)),
        in_bounds(old(env).memory.bytes@.len(), key_ptr, key_len) && valid_key_text(old(env).memory.slice(key_ptr, key_len))
            ==> r is Ok || final(env).ctx.state.gas_meter.exhausted || r matches Err(RuntimeError::NumConversionError),
        in_bounds(old(env).memory.bytes@.len(), key_ptr, key_len) && valid_key_text(old(env).memory.slice(key_ptr, key_len))
            && old(env).ctx.state.gas_meter.can_pay(key_len + pre_read_gas(*old(env).ctx.state.storage, split_segs(old(env).memory.slice(key_ptr, key_len)))) && (old(env).ctx.state.pre(split_segs(old(env).memory.slice(key_ptr, key_len))) matches Some(v) ==> v.len() <= i64::MAX) ==> r is Ok,
{
    let key = vp_read_key(env, key_ptr, key_len)?;
    let value = match env.ctx.state.read_pre(&key) {
        Ok(v) => v,
        Err(crate::native_vp::Error::OutOfGas(e)) => {
            return Err(RuntimeError::OutOfGas(e));
        },
    };
    vp_return_value(env, value)
}

/// Storage read of the posterior state (after the transaction) for
/// validity-predicate code. Returns the length of the value, which waits in
/// the result buffer, or -1 where the key holds none.
pub fn vp_read_post<EVAL: VpEvaluator>(env: &mut VpEnv<EVAL>, key_ptr: u64, key_len: u64) -> (r: Result<i64, RuntimeError>)
    requires
        old(env).wf(),
    ensures
        final(env).wf(),
        vp_follows(final(env), old(env)),
        final(env).memory == old(env).memory,
        final(env).ctx.iterators == old(env).ctx.iterators,
        r matches Ok(n) ==> {
            let t = old(env).memory.slice(key_ptr, key_len);
            &&& in_bounds(old(env).memory.bytes@.len(), key_ptr, key_len) && valid_key_text(t)
            &&& match old(env).ctx.state.post(split_segs(t)) {
                Some(v) => n == v.len() && buf_view(final(env).ctx.result_buffer) == Some(v),
                None => n == -1 && final(env).ctx.result_buffer == old(env).ctx.result_buffer,
            }
            &&& final(env).ctx.state.gas_meter.used == old(env).ctx.state.gas_meter.used + key_len + post_read_gas(*old(env).ctx.state.write_log, *old(env).ctx.state.storage, split_segs(t))
        },
        r matches Err(e) ==> (e is MemoryError && !in_bounds(old(env).memory.bytes@.len(), key_ptr, key_len))
            || (e is OutOfGas && final(env).ctx.state.gas_meter.exhausted) || (e is StorageDataError
            && !valid_key_text(old(env).memory.slice(key_ptr, key_len))) || (e is NumConversionError
            && (old(env).ctx.state.post(split_segs(old(env).memory.slice(key_ptr, key_len))) matches Some(v) && v.len() > i64::MAX)),
        in_bounds(old(env).memory.bytes@.len(), key_ptr, key_len) && valid_key_text(old(env).memory.slice(key_ptr, key_len))
            ==> r is Ok || final(env).ctx.state.gas_meter.exhausted || r matches Err(RuntimeError::NumConversionError),
        in_bounds(old(env).memory.bytes@.len(), key_ptr, key_len) && valid_key_text(old(env).memory.slice(key_ptr, key_len))
            && old(env).ctx.state.gas_meter.can_pay(key_len + post_read_gas(*old(env).ctx.state.write_log, *old(env).ctx.state.storage, split_segs(old(env).memory.slice(key_ptr, key_len)))) && (old(env).ctx.state.post(split_segs(old(env).memory.slice(key_ptr, key_len))) matches Some(v) ==> v.len() <= i64::MAX) ==> r is Ok,
{
    let key = vp_read_key(env, key_ptr, key_len)?;
    let value = match env.ctx.state.read_post(&key) {
        Ok(v) => v,
        Err(crate::native_vp::Error::OutOfGas(e)) => {
            return Err(RuntimeError::OutOfGas(e));
        },
    };
    vp_return_value(env, value)
}

/// Second step of a two-step read: copy the result buffer into guest memory
/// at `result_ptr` and empty the buffer.
pub fn vp_result_buffer<EVAL: VpEvaluator>(env: &mut VpEnv<EVAL>, result_ptr: u64) -> (r: Result<(), RuntimeError>)
    requires
        old(env).wf(),
        old(env).ctx.result_buffer is Some,
    ensures
        final(env).wf(),
        vp_follows(final(env), old(env)),
        final(env).ctx.iterators == old(env).ctx.iterators,
        final(env).ctx.result_buffer is None,
        ({
            let v = old(env).ctx.result_buffer->0@;
            let m = old(env).memory.bytes@;
            &&& (r is Ok ==> final(env).memory.bytes@ == m.subrange(0, result_ptr as int) + v
                + m.subrange(result_ptr + v.len(), m.len() as int))
            &&& (r matches Err(e) ==> (e is MemoryError && !fits(m.len(), result_ptr, v.len()))
                || (e is OutOfGas && final(env).ctx.state.gas_meter.exhausted))
            &&& (fits(m.len(), result_ptr, v.len()) ==> r is Ok || final(env).ctx.state.gas_meter.exhausted)
            &&& (fits(m.len(), result_ptr, v.len()) && old(env).ctx.state.gas_meter.can_pay(v.len() as int) ==> r is Ok)
            &&& (r is Ok ==> final(env).ctx.state.gas_meter.used == old(env).ctx.state.gas_meter.used + v.len())
        }),
{
    let value = env.ctx.result_buffer.take().unwrap();
    match env.memory.write_bytes(result_ptr, value.as_slice()) {
        Ok(gas) => vp_add_gas(env, gas),
        Err(e) => Err(RuntimeError::MemoryError(e)),
    }
}

/// Whether a key held a value in the prior state: 1 or 0.
pub fn vp_has_key_pre<EVAL: VpEvaluator>(env: &mut VpEnv<EVAL>, key_ptr: u64, key_len: u64) -> (r: Result<i64, RuntimeError>)
    requires
        old(env).wf(),
    ensures
        final(env).wf(),
        vp_follows(final(env), old(env)),
        final(env).memory == old(env).memory,
        final(env).ctx.iterators == old(env).ctx.iterators,
        final(env).ctx.result_buffer == old(env).ctx.result_buffer,
        r matches Ok(v) ==> {
            let t = old(env).memory.slice(key_ptr, key_len);
            &&& in_bounds(old(env).memory.bytes@.len(), key_ptr, key_len) && valid_key_text(t)
            &&& v == if old(env).ctx.state.pre(split_segs(t)) is Some { 1i64 } else { 0i64 }
            &&& final(env).ctx.state.gas_meter.used == old(env).ctx.state.gas_meter.used + key_len + access_gas(join(split_segs(t)).len(), 0)
        },
        r matches Err(e) ==> (e is MemoryError && !in_bounds(old(env).memory.bytes@.len(), key_ptr, key_len))
            || (e is OutOfGas && final(env).ctx.state.gas_meter.exhausted) || (e is StorageDataError
            && !valid_key_text(old(env).memory.slice(key_ptr, key_len))),
        in_bounds(old(env).memory.bytes@.len(), key_ptr, key_len) && valid_key_text(old(env).memory.slice(key_ptr, key_len))
            ==> r is Ok || final(env).ctx.state.gas_meter.exhausted,
        in_bounds(old(env).memory.bytes@.len(), key_ptr, key_len) && valid_key_text(old(env).memory.slice(key_ptr, key_len))
            && old(env).ctx.state.gas_meter.can_pay(key_len + pre_has_gas(split_segs(old(env).memory.slice(key_ptr, key_len)))) ==> r is Ok,
{
    let key = vp_read_key(env, key_ptr, key_len)?;
    match env.ctx.state.has_key_pre(&key) {
        Ok(b) => Ok(if b { 1 } else { 0 }),
        Err(crate::native_vp::Error::OutOfGas(e)) => Err(RuntimeError::OutOfGas(e)),
    }
}

/// Whether a key holds a value in the posterior state: 1 or 0.
pub fn vp_has_key_post<EVAL: VpEvaluator>(env: &mut VpEnv<EVAL>, key_ptr: u64, key_len: u64) -> (r: Result<i64, RuntimeError>)
    requires
        old(env).wf(),
    ensures
        final(env).wf(),
        vp_follows(final(env), old(env)),
        final(env).memory == old(env).memory,
        final(env).ctx.iterators == old(env).ctx.iterators,
        final(env).ctx.result_buffer == old(env).ctx.result_buffer,
        r matches Ok(v) ==> {
            let t = old(env).memory.slice(key_ptr, key_len);
            &&& in_bounds(old(env).memory.bytes@.len(), key_ptr, key_len) && valid_key_text(t)
            &&& v == if old(env).ctx.state.post(split_segs(t)) is Some { 1i64 } else { 0i64 }
            &&& final(env).ctx.state.gas_meter.used == old(env).ctx.state.gas_meter.used + key_len + post_has_gas(*old(env).ctx.state.write_log, *old(env).ctx.state.storage, split_segs(t))
        },
        r matches Err(e) ==> (e is MemoryError && !in_bounds(old(env).memory.bytes@.len(), key_ptr, key_len))
            || (e is OutOfGas && final(env).ctx.state.gas_meter.exhausted) || (e is StorageDataError
            && !valid_key_text(old(env).memory.slice(key_ptr, key_len))),
        in_bounds(old(env).memory.bytes@.len(), key_ptr, key_len) && valid_key_text(old(env).memory.slice(key_ptr, key_len))
            ==> r is Ok || final(env).ctx.state.gas_meter.exhausted,
        in_bounds(old(env).memory.bytes@.len(), key_ptr, key_len) && valid_key_text(old(env).memory.slice(key_ptr, key_len))
            && old(env).ctx.state.gas_meter.can_pay(key_len + post_has_gas(*old(env).ctx.state.write_log, *old(env).ctx.state.storage, split_segs(old(env).memory.slice(key_ptr, key_len)))) ==> r is Ok,
{
    let key = vp_read_key(env, key_ptr, key_len)?;
    match env.ctx.state.has_key_post(&key) {
        Ok(b) => Ok(if b { 1 } else { 0 }),
        Err(crate::native_vp::Error::OutOfGas(e)) => Err(RuntimeError::OutOfGas(e)),
    }
}

/// Storage prefix iterator for validity-predicate code: an iterator over the
/// entries that storage holds under the key text `prefix`; returns its
/// handle.
pub fn vp_iter_prefix<EVAL: VpEvaluator>(env: &mut VpEnv<EVAL>, prefix_ptr: u64, prefix_len: u64) -> (r: Result<u64, RuntimeError>)
    requires
        old(env).wf(),
    ensures
        final(env).wf(),
        vp_follows(final(env), old(env)),
        final(env).memory == old(env).memory,
        final(env).ctx.result_buffer == old(env).ctx.result_buffer,
        r matches Ok(id) ==> {
            &&& in_bounds(old(env).memory.bytes@.len(), prefix_ptr, prefix_len)
            &&& id == old(env).ctx.iterators.iters@.len()
            &&& final(env).ctx.iterators.iters@.len() == id + 1
            &&& forall|j: int| 0 <= j < id ==> final(env).ctx.iterators.iters@[j] == old(env).ctx.iterators.iters@[j]
            &&& final(env).ctx.iterators.iters@[id as int].stored == prefix_items(
                old(env).ctx.state.storage.view_entries(),
                old(env).memory.slice(prefix_ptr, prefix_len),
            ).len()
            &&& items_view(final(env).ctx.iterators.iters@[id as int].items@).subrange(
                0,
                final(env).ctx.iterators.iters@[id as int].stored as int,
            ) == prefix_items(old(env).ctx.state.storage.view_entries(), old(env).memory.slice(prefix_ptr, prefix_len))
            &&& forall|m: int| final(env).ctx.iterators.iters@[id as int].stored <= m < final(env).ctx.iterators.iters@[id as int].items@.len()
                ==> {
                let e = #[trigger] final(env).ctx.iterators.iters@[id as int].items@[m];
                &&& crate::write_log::has_prefix(e.0@, old(env).memory.slice(prefix_ptr, prefix_len))
                &&& old(env).ctx.state.storage.value_of(e.0@) is None
                &&& old(env).ctx.state.write_log.entry(e.0@) is Some
                &&& e.1@.len() == 0
            }
            &&& forall|a: int, b: int| final(env).ctx.iterators.iters@[id as int].stored <= a < b
                < final(env).ctx.iterators.iters@[id as int].items@.len() ==> (#[trigger] final(env).ctx.iterators.iters@[id as int].items@[a]).0@ != (#[trigger] final(env).ctx.iterators.iters@[id as int].items@[b]).0@
            &&& forall|k: Seq<Seq<u8>>| #[trigger] old(env).ctx.state.write_log.entry(k) is Some && crate::write_log::has_prefix(
                k,
                old(env).memory.slice(prefix_ptr, prefix_len),
            ) && old(env).ctx.state.storage.value_of(k) is None ==> crate::write_log::has_key_in(
                final(env).ctx.iterators.iters@[id as int].items@,
                k,
            )
            &&& final(env).ctx.iterators.iters@[id as int].pos == 0
        },
        r is Err ==> final(env).ctx.iterators == old(env).ctx.iterators,
        r matches Err(e) ==> (e is MemoryError && !in_bounds(old(env).memory.bytes@.len(), prefix_ptr, prefix_len))
            || (e is OutOfGas && final(env).ctx.state.gas_meter.exhausted) || (e is NumConversionError
            && old(env).ctx.iterators.iters@.len() >= u64::MAX),
        in_bounds(old(env).memory.bytes@.len(), prefix_ptr, prefix_len) && old(env).ctx.iterators.iters@.len()
            < u64::MAX ==> r is Ok || final(env).ctx.state.gas_meter.exhausted,
        in_bounds(old(env).memory.bytes@.len(), prefix_ptr, prefix_len) && old(env).ctx.iterators.iters@.len()
            < u64::MAX && old(env).ctx.state.gas_meter.can_pay(prefix_len + crate::storage::access_gas(prefix_len as nat, 0))
            ==> r is Ok,
{
    let prefix = vp_read_bytes(env, prefix_ptr, prefix_len)?;
    let (mut items, gas) = env.ctx.state.storage.iter_prefix(prefix.as_slice());
    vp_add_gas(env, gas)?;
    if env.ctx.iterators.iters.len() as u64 >= u64::MAX {
        return Err(RuntimeError::NumConversionError);
    }
    let stored = items.len();
    let ghost first = items@;
    let mut extra = env.ctx.state.write_log.new_keys_with_prefix(env.ctx.state.storage, prefix.as_slice());
    let ghost more = extra@;
    items.append(&mut extra);
    proof {
        assert(items_view(items@).subrange(0, stored as int) =~= items_view(first));
        assert forall|m: int| stored <= m < items@.len() implies #[trigger] items@[m] == more[m - stored] by {}
        assert forall|k: Seq<Seq<u8>>| crate::write_log::has_key_in(more, k) implies crate::write_log::has_key_in(items@, k) by {
            let m = choose|m: int| 0 <= m < more.len() && (#[trigger] more[m]).0@ == k;
            assert(items@[stored + m] == more[m]);
        }
        assert forall|a: int, b: int| stored <= a < b < items@.len() implies (#[trigger] items@[a]).0@ != (#[trigger] items@[b]).0@ by {
            assert(items@[a] == more[a - stored] && items@[b] == more[b - stored]);
        }
    }
    Ok(env.ctx.iterators.insert(items, stored))
}

/// Encode a (key text, value) pair for the guest.
fn encode_pair(k: &[u8], v: &[u8]) -> (r: Option<Vec<u8>>)
    ensures
        r is Some <==> k@.len() <= u32::MAX && v@.len() <= u32::MAX,
        r matches Some(b) ==> b@ == key_val_encoding(k@, v@),
{
    if k.len() as u64 > u32::MAX as u64 || v.len() as u64 > u32::MAX as u64 {
        return None;
    }
    let mut out: Vec<u8> = Vec::new();
    crate::codec::append_len_prefixed(&mut out, k);
    crate::codec::append_len_prefixed(&mut out, v);
    assert(out@ =~= key_val_encoding(k@, v@));
    Some(out)
}

/// Storage prefix iterator next for validity-predicate code, in the prior
/// state. Returns the length of the encoded (key, value) pair, which waits
/// in the result buffer, or -1 once the iterator is exhausted.
pub fn vp_iter_pre_next<EVAL: VpEvaluator>(env: &mut VpEnv<EVAL>, iter_id: u64) -> (r: Result<i64, RuntimeError>)
    requires
        old(env).wf(),
    ensures
        final(env).wf(),
        vp_follows(final(env), old(env)),
        final(env).memory == old(env).memory,
        final(env).ctx.iterators.iters@.len() == old(env).ctx.iterators.iters@.len(),
        r matches Ok(n) ==> match old(env).ctx.iterators.peek_stored(iter_id) {
            Some((k, v)) => buf_view(final(env).ctx.result_buffer) == Some(key_val_encoding(join(k), v)) && n
                == key_val_encoding(join(k), v).len(),
            None => n == -1 && final(env).ctx.result_buffer == old(env).ctx.result_buffer,
        },
        r matches Err(e) ==> (e is OutOfGas && final(env).ctx.state.gas_meter.exhausted) || (e is EncodingError
            && (old(env).ctx.iterators.peek_stored(iter_id) matches Some((k, v)) && (join(k).len() > u32::MAX
            || v.len() > u32::MAX))) || (e is NumConversionError && (old(env).ctx.iterators.peek_stored(iter_id) matches Some((k, v))
            && key_val_encoding(join(k), v).len() > i64::MAX)),
        old(env).ctx.iterators.peek_stored(iter_id) is None ==> r == Ok::<i64, RuntimeError>(-1i64),
        (old(env).ctx.iterators.peek_stored(iter_id) matches Some((k, v)) && old(env).ctx.state.gas_meter.can_pay(
            crate::storage::access_gas(join(k).len(), v.len()) as int,
        ) && join(k).len() <= u32::MAX && v.len() <= u32::MAX && key_val_encoding(join(k), v).len() <= i64::MAX) ==> r is Ok,
        r is Ok ==> final(env).ctx.state.gas_meter.used == old(env).ctx.state.gas_meter.used + match old(env).ctx.iterators.peek_stored(iter_id) {
            Some((k, v)) => crate::storage::access_gas(join(k).len(), v.len()) as int,
            None => 0int,
        },
{
    match env.ctx.iterators.next_stored(iter_id) {
        Some((key, val)) => {
            let text = key.to_bytes();
            let gas = crate::storage::access_gas_exec(text.len(), val.len());
            vp_add_gas(env, gas)?;
            match encode_pair(text.as_slice(), val.as_slice()) {
                Some(b) => vp_return_value(env, Some(b)),
                None => Err(RuntimeError::EncodingError),
            }
        },
        None => Ok(-1),
    }
}

/// Storage prefix iterator next for validity-predicate code, in the
/// posterior state: staged writes replace stored values; items that the
/// write log deletes or initializes as accounts are skipped.
pub fn vp_iter_post_next<EVAL: VpEvaluator>(env: &mut VpEnv<EVAL>, iter_id: u64) -> (r: Result<i64, RuntimeError>)
    requires
        old(env).wf(),
    ensures
        final(env).wf(),
        vp_follows(final(env), old(env)),
        final(env).memory == old(env).memory,
        final(env).ctx.iterators.iters@.len() == old(env).ctx.iterators.iters@.len(),
        !old(env).ctx.iterators.has(iter_id) ==> r == Ok::<i64, RuntimeError>(-1i64) && final(env).ctx.result_buffer
            == old(env).ctx.result_buffer,
        old(env).ctx.iterators.has(iter_id) ==> ({
            let it = old(env).ctx.iterators.iters@[iter_id as int];
            let items = items_view(it.items@);
            let wl = *old(env).ctx.state.write_log;
            &&& (old(env).ctx.state.gas_meter.can_pay(iter_cost(items, it.pos as int, wl)) && next_item_fits(items, it.pos as int, wl)
                ==> r is Ok)
            &&& (r is Ok ==> final(env).ctx.state.gas_meter.used == old(env).ctx.state.gas_meter.used + iter_cost(items, it.pos as int, wl))
            &&& (r matches Ok(n) ==> match next_visible(items, it.pos as int, wl) {
                Some(j) => {
                    let v = iter_post_value(wl.entry(items[j].0), items[j].1)->0;
                    let b = key_val_encoding(join(items[j].0), v);
                    &&& buf_view(final(env).ctx.result_buffer) == Some(b)
                    &&& n == b.len()
                    &&& final(env).ctx.iterators.iters@[iter_id as int].pos == j + 1
                },
                None => n == -1 && final(env).ctx.result_buffer == old(env).ctx.result_buffer,
            })
            &&& (r matches Err(e) ==> (e is OutOfGas && final(env).ctx.state.gas_meter.exhausted) || (e is EncodingError
                && (next_visible(items, it.pos as int, wl) matches Some(j) && (join(items[j].0).len() > u32::MAX
                || iter_post_value(wl.entry(items[j].0), items[j].1)->0.len() > u32::MAX))) || (e is NumConversionError
                && (next_visible(items, it.pos as int, wl) matches Some(j) && key_val_encoding(
                join(items[j].0),
                iter_post_value(wl.entry(items[j].0), items[j].1)->0,
            ).len() > i64::MAX)))
        }),
{
    if iter_id >= env.ctx.iterators.iters.len() as u64 {
        return Ok(-1);
    }
    let ghost it0 = old(env).ctx.iterators.iters@[iter_id as int];
    let ghost items = items_view(it0.items@);
    let ghost start = it0.pos as int;
    let ghost wl = *old(env).ctx.state.write_log;
    loop
        invariant
            env.wf(),
            vp_follows(env, old(env)),
            env.memory == old(env).memory,
            env.ctx.result_buffer == old(env).ctx.result_buffer,
            old(env).ctx.iterators.has(iter_id),
            it0 == old(env).ctx.iterators.iters@[iter_id as int],
            items == items_view(it0.items@),
            start == it0.pos as int,
            wl == *old(env).ctx.state.write_log,
            env.ctx.iterators.iters@.len() == old(env).ctx.iterators.iters@.len(),
            env.ctx.iterators.iters@[iter_id as int].items == it0.items,
            start <= env.ctx.iterators.iters@[iter_id as int].pos <= items.len(),
            next_visible(items, start, wl) == next_visible(items, env.ctx.iterators.iters@[iter_id as int].pos as int, wl),
            env.ctx.state.gas_meter.used + iter_cost(items, env.ctx.iterators.iters@[iter_id as int].pos as int, wl)
                == old(env).ctx.state.gas_meter.used + iter_cost(items, start, wl),
            env.ctx.state.gas_meter.exhausted == old(env).ctx.state.gas_meter.exhausted,
        decreases items.len() - env.ctx.iterators.iters@[iter_id as int].pos,
    {
        let ghost pos = env.ctx.iterators.iters@[iter_id as int].pos as int;
        assert(items.len() == it0.items@.len());
        assert(env.ctx.iterators.has(iter_id));
        match env.ctx.iterators.next(iter_id) {
            None => {
                assert(pos >= items.len());
                return Ok(-1);
            },
            Some((key, val)) => {
                assert(key@ == items[pos].0 && val@ == items[pos].1);
                let (log_val, log_gas) = env.ctx.state.write_log.read(&key);
                let text = key.to_bytes();
                let iter_gas = crate::storage::access_gas_exec(text.len(), val.len());
                let total = if iter_gas > u64::MAX - log_gas { u64::MAX } else { iter_gas + log_gas };
                proof {
                    assert(total == item_gas(items[pos], wl));
                    crate::host_env::lemma_iter_cost_nonneg(items, pos + 1, wl);
                }
                vp_add_gas(env, total)?;
                let shown = match log_val {
                    Some(StorageModification::Write { value }) => Some(value),
                    Some(_) => None,
                    None => Some(val),
                };
                assert(buf_view(shown) == iter_post_value(wl.entry(items[pos].0), items[pos].1));
                match shown {
                    Some(v) => {
                        assert(next_visible(items, pos, wl) == Some(pos));
                        assert(text@ == join(items[pos].0));
                        match encode_pair(text.as_slice(), v.as_slice()) {
                            Some(b) => {
                                return vp_return_value(env, Some(b));
                            },
                            None => {
                                return Err(RuntimeError::EncodingError);
                            },
                        }
                    },
                    None => {
                        assert(next_visible(items, pos, wl) == next_visible(items, pos + 1, wl));
                    },
                }
            },
        }
    }
}

/// Write the chain id to guest memory at `result_ptr`.
pub fn vp_get_chain_id<EVAL: VpEvaluator>(env: &mut VpEnv<EVAL>, result_ptr: u64) -> (r: Result<(), RuntimeError>)
    requires
        old(env).wf(),
    ensures
        final(env).wf(),
        vp_follows(final(env), old(env)),
        final(env).ctx.iterators == old(env).ctx.iterators,
        final(env).ctx.result_buffer == old(env).ctx.result_buffer,
        ({
            let m = old(env).memory.bytes@;
            let c = old(env).ctx.state.storage.chain_id@;
            &&& (r is Ok ==> final(env).memory.bytes@ == m.subrange(0, result_ptr as int) + c + m.subrange(
                result_ptr + c.len(),
                m.len() as int,
            ))
            &&& (r matches Err(e) ==> (e is MemoryError && !fits(m.len(), result_ptr, c.len())) || (e is OutOfGas
                && final(env).ctx.state.gas_meter.exhausted))
            &&& (fits(m.len(), result_ptr, c.len()) ==> r is Ok || final(env).ctx.state.gas_meter.exhausted)
            &&& (fits(m.len(), result_ptr, c.len()) && old(env).ctx.state.gas_meter.can_pay(crate::storage::access_gas(c.len(), 0)
                + c.len()) ==> r is Ok)
        }),
{
    let gas = crate::storage::access_gas_exec(env.ctx.state.storage.chain_id.len(), 0);
    vp_add_gas(env, gas)?;
    match env.memory.write_bytes(result_ptr, env.ctx.state.storage.chain_id.as_slice()) {
        Ok(gas) => vp_add_gas(env, gas),
        Err(e) => Err(RuntimeError::MemoryError(e)),
    }
}

/// The height of the block that the transaction is applied to.
pub fn vp_get_block_height<EVAL: VpEvaluator>(env: &mut VpEnv<EVAL>) -> (r: Result<u64, RuntimeError>)
    requires
        old(env).wf(),
    ensures
        final(env).wf(),
        vp_follows(final(env), old(env)),
        final(env).ctx.state.gas_meter == old(env).ctx.state.gas_meter.charged(MIN_STORAGE_GAS),
        r matches Ok(h) ==> h == old(env).ctx.state.storage.block_height,
        r is Ok <==> old(env).ctx.state.gas_meter.accepts(MIN_STORAGE_GAS),
{
    vp_add_gas(env, MIN_STORAGE_GAS)?;
    Ok(env.ctx.state.storage.block_height)
}

/// Write the hash of the block that the transaction is applied to into
/// guest memory at `result_ptr`.
pub fn vp_get_block_hash<EVAL: VpEvaluator>(env: &mut VpEnv<EVAL>, result_ptr: u64) -> (r: Result<(), RuntimeError>)
    requires
        old(env).wf(),
    ensures
        final(env).wf(),
        vp_follows(final(env), old(env)),
        final(env).ctx.iterators == old(env).ctx.iterators,
        final(env).ctx.result_buffer == old(env).ctx.result_buffer,
        ({
            let m = old(env).memory.bytes@;
            let c = old(env).ctx.state.storage.block_hash@;
            &&& (r is Ok ==> final(env).memory.bytes@ == m.subrange(0, result_ptr as int) + c + m.subrange(
                result_ptr + c.len(),
                m.len() as int,
            ))
            &&& (r matches Err(e) ==> (e is MemoryError && !fits(m.len(), result_ptr, c.len())) || (e is OutOfGas
                && final(env).ctx.state.gas_meter.exhausted))
            &&& (fits(m.len(), result_ptr, c.len()) ==> r is Ok || final(env).ctx.state.gas_meter.exhausted)
            &&& (fits(m.len(), result_ptr, c.len()) && old(env).ctx.state.gas_meter.can_pay(crate::storage::access_gas(c.len(), 0)
                + c.len()) ==> r is Ok)
        }),
{
    let gas = crate::storage::access_gas_exec(env.ctx.state.storage.block_hash.len(), 0);
    vp_add_gas(env, gas)?;
    match env.memory.write_bytes(result_ptr, env.ctx.state.storage.block_hash.as_slice()) {
        Ok(gas) => vp_add_gas(env, gas),
        Err(e) => Err(RuntimeError::MemoryError(e)),
    }
}

/// The epoch of the block that the transaction is applied to.
pub fn vp_get_block_epoch<EVAL: VpEvaluator>(env: &mut VpEnv<EVAL>) -> (r: Result<u64, RuntimeError>)
    requires
        old(env).wf(),
    ensures
        final(env).wf(),
        vp_follows(final(env), old(env)),
        final(env).ctx.state.gas_meter == old(env).ctx.state.gas_meter.charged(MIN_STORAGE_GAS),
        r matches Ok(e) ==> e == old(env).ctx.state.storage.block_epoch,
        r is Ok <==> old(env).ctx.state.gas_meter.accepts(MIN_STORAGE_GAS),
{
    vp_add_gas(env, MIN_STORAGE_GAS)?;
    Ok(env.ctx.state.storage.block_epoch)
}

/// Verify that the transaction under validation is signed by public key
/// `pk` (32 bytes) with signature `sig` (64 bytes): 1 or 0.
pub fn vp_verify_tx_signature<EVAL: VpEvaluator>(
    env: &mut VpEnv<EVAL>,
    pk_ptr: u64,
    pk_len: u64,
    sig_ptr: u64,
    sig_len: u64,
) -> (r: Result<i64, RuntimeError>)
    requires
        old(env).wf(),
    ensures
        final(env).wf(),
        vp_follows(final(env), old(env)),
        final(env).memory == old(env).memory,
        final(env).ctx.iterators == old(env).ctx.iterators,
        final(env).ctx.result_buffer == old(env).ctx.result_buffer,
        ({
            let m = old(env).memory.bytes@;
            let pk = old(env).memory.slice(pk_ptr, pk_len);
            let sig = old(env).memory.slice(sig_ptr, sig_len);
            let tx = old(env).ctx.state.tx;
            let msg = tx_signing_bytes(tx.code@, tx.data_view());
            let inb = in_bounds(m.len(), pk_ptr, pk_len) && in_bounds(m.len(), sig_ptr, sig_len);
            &&& (r matches Ok(v) ==> inb && v == if ed25519_verifies(pk, msg, sig) { 1i64 } else { 0i64 })
            &&& (r is Ok ==> final(env).ctx.state.gas_meter.used == old(env).ctx.state.gas_meter.used + pk_len + sig_len
                + VERIFY_TX_SIG_GAS_COST)
            &&& (r matches Err(e) ==> (e is MemoryError && !inb) || (e is OutOfGas && final(env).ctx.state.gas_meter.exhausted)
                || e is EncodingError)
            &&& (inb && tx.code@.len() <= u32::MAX && (tx.data matches Some(d) ==> d@.len() <= u32::MAX) ==> r is Ok
                || final(env).ctx.state.gas_meter.exhausted)
            &&& (inb && tx.code@.len() <= u32::MAX && (tx.data matches Some(d) ==> d@.len() <= u32::MAX)
                && old(env).ctx.state.gas_meter.can_pay(pk_len + sig_len + VERIFY_TX_SIG_GAS_COST) ==> r is Ok)
        }),
{
    let pk = vp_read_bytes(env, pk_ptr, pk_len)?;
    let sig = vp_read_bytes(env, sig_ptr, sig_len)?;
    vp_add_gas(env, VERIFY_TX_SIG_GAS_COST)?;
    let msg = match env.ctx.state.tx.signing_bytes() {
        Some(b) => b,
        None => {
            return Err(RuntimeError::EncodingError);
        },
    };
    let ok = verify_signature(pk.as_slice(), msg.as_slice(), sig.as_slice());
    Ok(if ok { 1 } else { 0 })
}

/// Evaluate a validity predicate `vp_code` on `input_data`, synchronously
/// and on this context: reading the code and the input is charged, and the
/// nested run charges this validity predicate's gas meter. Returns 1 where
/// the nested run accepts, 0 where it rejects.
pub fn vp_eval<EVAL: VpEvaluator>(
    env: &mut VpEnv<EVAL>,
    vp_code_ptr: u64,
    vp_code_len: u64,
    input_data_ptr: u64,
    input_data_len: u64,
) -> (r: Result<i64, RuntimeError>)
    requires
        old(env).wf(),
    ensures
        final(env).wf(),
        vp_follows(final(env), old(env)),
        final(env).memory == old(env).memory,
        ({
            let m = old(env).memory.bytes@;
            let code = old(env).memory.slice(vp_code_ptr, vp_code_len);
            let input = old(env).memory.slice(input_data_ptr, input_data_len);
            let inb = in_bounds(m.len(), vp_code_ptr, vp_code_len) && in_bounds(m.len(), input_data_ptr, input_data_len);
            &&& (r matches Ok(v) ==> inb && (v == 1 || v == 0) && exists|c: VpCtx| #[trigger] old(env).eval_runner.verdict(
                c,
                code,
                input,
            ) == (v == 1) && c.state.storage == old(env).ctx.state.storage && c.state.write_log
                == old(env).ctx.state.write_log && c.state.tx == old(env).ctx.state.tx && c.address == old(env).ctx.address
                && c.keys_changed == old(env).ctx.keys_changed && c.verifiers == old(env).ctx.verifiers
                && c.iterators == old(env).ctx.iterators && c.result_buffer == old(env).ctx.result_buffer
                && c.state.gas_meter.limit == old(env).ctx.state.gas_meter.limit && c.state.gas_meter.used
                == old(env).ctx.state.gas_meter.used + vp_code_len + input_data_len && !c.state.gas_meter.exhausted
                && final(env).ctx.state.gas_meter == old(env).eval_runner.meter_after(c, code, input))
            &&& (inb && old(env).ctx.state.gas_meter.can_pay(vp_code_len + input_data_len) ==> r is Ok)
            &&& (r is Err ==> final(env).ctx.iterators == old(env).ctx.iterators && final(env).ctx.result_buffer
                == old(env).ctx.result_buffer && final(env).ctx.state.gas_meter.used <= old(env).ctx.state.gas_meter.used
                + vp_code_len + input_data_len)
            &&& (r is Ok ==> final(env).ctx.state.gas_meter.used >= old(env).ctx.state.gas_meter.used + vp_code_len
                + input_data_len)
            &&& (r matches Err(e) ==> (e is MemoryError && !inb) || (e is OutOfGas && final(env).ctx.state.gas_meter.exhausted))
            &&& (inb ==> r is Ok || final(env).ctx.state.gas_meter.exhausted)
        }),
{
    let vp_code = vp_read_bytes(env, vp_code_ptr, vp_code_len)?;
    let input_data = vp_read_bytes(env, input_data_ptr, input_data_len)?;
    let runner = env.eval_runner;
    let ghost c = env.ctx;
    assert(c.state.gas_meter.used == old(env).ctx.state.gas_meter.used + vp_code_len + input_data_len);
    assert(!c.state.gas_meter.exhausted);
    assert(c.iterators == old(env).ctx.iterators);
    let ok = runner.eval(&mut env.ctx, vp_code, input_data);
    assert(runner.verdict(c, old(env).memory.slice(vp_code_ptr, vp_code_len), old(env).memory.slice(input_data_ptr, input_data_len)) == ok);
    assert(env.ctx.state.meter_follows(&c.state));
    assert(vp_follows(env, old(env)));
    Ok(if ok { 1 } else { 0 })
}

/// A diagnostic message from validity-predicate code: the bytes at
/// `str_ptr`, for the host to log. Only their transfer is charged.
pub fn vp_log_string<EVAL: VpEvaluator>(env: &mut VpEnv<EVAL>, str_ptr: u64, str_len: u64) -> (r: Result<Vec<u8>, RuntimeError>)
    requires
        old(env).wf(),
    ensures
        final(env).wf(),
        vp_follows(final(env), old(env)),
        final(env).memory == old(env).memory,
        r matches Ok(b) ==> b@ == old(env).memory.slice(str_ptr, str_len),
        r matches Err(e) ==> (e is MemoryError && !in_bounds(old(env).memory.bytes@.len(), str_ptr, str_len))
            || (e is OutOfGas && final(env).ctx.state.gas_meter.exhausted),
        in_bounds(old(env).memory.bytes@.len(), str_ptr, str_len) ==> r is Ok || final(env).ctx.state.gas_meter.exhausted,
        in_bounds(old(env).memory.bytes@.len(), str_ptr, str_len) && old(env).ctx.state.gas_meter.can_pay(str_len as int) ==> r is Ok,
{
    vp_read_bytes(env, str_ptr, str_len)
}

} // verus!
