//! The context of native validity predicates: metered reads of the prior
//! (committed) and posterior (write-log overlaid) state.
use vstd::prelude::*;
use crate::codec::{append_len_prefixed, len_prefixed};
use crate::gas::{GasError, GasMeter};
use crate::key::Key;
use crate::storage::Storage;
use crate::write_log::{post_has_gas, post_read_gas, StorageModification, WriteLog};
use crate::storage::access_gas;
use crate::key::join;

verus! {

/// A transaction: its code and optional data.
#[derive(Debug, Clone)]
pub struct Tx {
    pub code: Vec<u8>,
    pub data: Option<Vec<u8>>,
}

/// The bytes that a transaction signature covers: the code preceded by its
/// length, then 0 where there is no data, or 1 and the data preceded by its
/// length.
pub open spec fn tx_signing_bytes(code: Seq<u8>, data: Option<Seq<u8>>) -> Seq<u8> {
    len_prefixed(code) + match data {
        None => seq![0u8],
        Some(d) => seq![1u8] + len_prefixed(d),
    }
}

impl Tx {
    pub open spec fn data_view(&self) -> Option<Seq<u8>> {
        match self.data {
            Some(d) => Some(d@),
            None => None,
        }
    }

    /// The bytes that a signature of this transaction covers; nothing where
    /// a part is too long for its four-byte length.
    pub fn signing_bytes(&self) -> (r: Option<Vec<u8>>)
        ensures
            r is Some <==> self.code@.len() <= u32::MAX && (self.data matches Some(d) ==> d@.len() <= u32::MAX),
            r matches Some(b) ==> b@ == tx_signing_bytes(self.code@, self.data_view()),
    {
        if self.code.len() as u64 > u32::MAX as u64 {
            return None;
        }
        let mut out: Vec<u8> = Vec::new();
        append_len_prefixed(&mut out, self.code.as_slice());
        match &self.data {
            None => {
                out.push(0u8);
            },
            Some(d) => {
                if d.len() as u64 > u32::MAX as u64 {
                    return None;
                }
                out.push(1u8);
                append_len_prefixed(&mut out, d.as_slice());
            },
        }
        assert(out@ =~= tx_signing_bytes(self.code@, self.data_view()));
        Some(out)
    }
}

/// Why a native validity predicate could not read the state.
#[derive(Debug, Clone, Copy, PartialEq, Eq, Structural)]
pub enum Error {
    /// The gas meter refused a charge.
    OutOfGas(GasError),
}

/// The host structures a native validity predicate reads.
pub struct Ctx<'a> {
    /// Committed storage: the prior state.
    pub storage: &'a Storage,
    /// The write log of the transaction under validation.
    pub write_log: &'a WriteLog,
    /// The transaction under validation.
    pub tx: &'a Tx,
    /// The gas meter of this validity predicate.
    pub gas_meter: GasMeter,
}

impl<'a> Ctx<'a> {
    pub open spec fn wf(&self) -> bool {
        self.storage.wf() && self.write_log.wf() && self.gas_meter.wf()
    }

    /// The prior value of `k`.
    pub open spec fn pre(&self, k: Seq<Seq<u8>>) -> Option<Seq<u8>> {
        self.storage.value_of(k)
    }

    /// The posterior value of `k`.
    pub open spec fn post(&self, k: Seq<Seq<u8>>) -> Option<Seq<u8>> {
        self.write_log.post_value(self.storage, k)
    }

    /// The meter stays well formed, its ceiling is kept, and an exhausted
    /// meter stays exhausted.
    pub open spec fn meter_follows(&self, old: &Ctx<'a>) -> bool {
        &&& self.storage == old.storage
        &&& self.write_log == old.write_log
        &&& self.tx == old.tx
        &&& self.gas_meter.wf()
        &&& self.gas_meter.limit == old.gas_meter.limit
        &&& self.gas_meter.used >= old.gas_meter.used
        &&& (old.gas_meter.exhausted ==> self.gas_meter.exhausted)
    }

    /// A context over the given state with a fresh meter of `limit`.
    pub fn new(storage: &'a Storage, write_log: &'a WriteLog, tx: &'a Tx, gas_meter: GasMeter) -> (r: Ctx<'a>)
        ensures
            r.storage == storage,
            r.write_log == write_log,
            r.tx == tx,
            r.gas_meter == gas_meter,
    {
        Ctx { storage, write_log, tx, gas_meter }
    }

    fn charge(&mut self, gas: u64) -> (r: Result<(), Error>)
        requires
            old(self).gas_meter.wf(),
        ensures
            final(self).meter_follows(old(self)),
            final(self).gas_meter == old(self).gas_meter.charged(gas),
            r is Ok <==> old(self).gas_meter.accepts(gas),
            r is Err ==> final(self).gas_meter.exhausted,
    {
        match self.gas_meter.add(gas) {
            Ok(()) => Ok(()),
            Err(e) => Err(Error::OutOfGas(e)),
        }
    }

    /// The prior value of `key`.
    pub fn read_pre(&mut self, key: &Key) -> (r: Result<Option<Vec<u8>>, Error>)
        requires
            old(self).wf(),
        ensures
            final(self).meter_follows(old(self)),
            r matches Ok(v) ==> match v {
                Some(b) => old(self).pre(key@) == Some(b@),
                None => old(self).pre(key@) is None,
            },
            r is Ok ==> !final(self).gas_meter.exhausted && old(self).gas_meter.exhausted == final(self).gas_meter.exhausted,
            r is Ok ==> final(self).gas_meter.used == old(self).gas_meter.used + access_gas(join(key@).len(), match old(self).pre(key@) {
                Some(v) => v.len(),
                None => 0,
            }),
            r is Err ==> final(self).gas_meter.exhausted,
            !old(self).gas_meter.exhausted && old(self).gas_meter.used + crate::storage::access_gas(
                crate::key::join(key@).len(),
                match old(self).pre(key@) { Some(v) => v.len(), None => 0 },
            ) <= old(self).gas_meter.limit ==> r is Ok,
            final(self).gas_meter.used <= old(self).gas_meter.used + crate::write_log::pre_read_gas(*old(self).storage, key@),
    {
        let (v, gas) = self.storage.read(key);
        self.charge(gas)?;
        Ok(v)
    }

    /// The posterior value of `key`.
    pub fn read_post(&mut self, key: &Key) -> (r: Result<Option<Vec<u8>>, Error>)
        requires
            old(self).wf(),
        ensures
            final(self).meter_follows(old(self)),
            r matches Ok(v) ==> match v {
                Some(b) => old(self).post(key@) == Some(b@),
                None => old(self).post(key@) is None,
            },
            r is Ok ==> !final(self).gas_meter.exhausted && old(self).gas_meter.exhausted == final(self).gas_meter.exhausted,
            r is Ok ==> final(self).gas_meter.used == old(self).gas_meter.used + post_read_gas(*old(self).write_log, *old(self).storage, key@),
            old(self).gas_meter.can_pay(post_read_gas(*old(self).write_log, *old(self).storage, key@)) ==> r is Ok,
            r is Err ==> final(self).gas_meter.exhausted,
            final(self).gas_meter.used <= old(self).gas_meter.used + post_read_gas(*old(self).write_log, *old(self).storage, key@),
    {
        let (log_val, gas) = self.write_log.read(key);
        self.charge(gas)?;
        match log_val {
            Some(StorageModification::Write { value }) => Ok(Some(value)),
            Some(StorageModification::Delete) => Ok(None),
            Some(StorageModification::InitAccount { vp }) => Ok(Some(vp)),
            None => self.read_pre(key),
        }
    }

    /// Whether `key` holds a prior value.
    pub fn has_key_pre(&mut self, key: &Key) -> (r: Result<bool, Error>)
        requires
            old(self).wf(),
        ensures
            final(self).meter_follows(old(self)),
            r matches Ok(b) ==> b == old(self).pre(key@) is Some,
            r is Ok ==> !final(self).gas_meter.exhausted && old(self).gas_meter.exhausted == final(self).gas_meter.exhausted,
            r is Ok ==> final(self).gas_meter.used == old(self).gas_meter.used + access_gas(join(key@).len(), 0),
            r is Err ==> final(self).gas_meter.exhausted,
            !old(self).gas_meter.exhausted && old(self).gas_meter.used + crate::storage::access_gas(
                crate::key::join(key@).len(),
                0,
            ) <= old(self).gas_meter.limit ==> r is Ok,
            final(self).gas_meter.used <= old(self).gas_meter.used + crate::write_log::pre_has_gas(key@),
    {
        let (present, gas) = self.storage.has_key(key);
        self.charge(gas)?;
        Ok(present)
    }

    /// Whether `key` holds a posterior value.
    pub fn has_key_post(&mut self, key: &Key) -> (r: Result<bool, Error>)
        requires
            old(self).wf(),
        ensures
            final(self).meter_follows(old(self)),
            r matches Ok(b) ==> b == old(self).post(key@) is Some,
            r is Ok ==> !final(self).gas_meter.exhausted && old(self).gas_meter.exhausted == final(self).gas_meter.exhausted,
            r is Ok ==> final(self).gas_meter.used == old(self).gas_meter.used + post_has_gas(*old(self).write_log, *old(self).storage, key@),
            old(self).gas_meter.can_pay(post_has_gas(*old(self).write_log, *old(self).storage, key@)) ==> r is Ok,
            r is Err ==> final(self).gas_meter.exhausted,
            final(self).gas_meter.used <= old(self).gas_meter.used + post_has_gas(*old(self).write_log, *old(self).storage, key@),
    {
        let (log_val, gas) = self.write_log.read(key);
        self.charge(gas)?;
        match log_val {
            Some(StorageModification::Write { .. }) => Ok(true),
            Some(StorageModification::Delete) => Ok(false),
            Some(StorageModification::InitAccount { .. }) => Ok(true),
            None => self.has_key_pre(key),
        }
    }
}

} // verus!
