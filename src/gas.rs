//! Gas metering: a monotone counter with a hard ceiling.
use vstd::prelude::*;

verus! {

/// Gas charged for the verification of a transaction signature.
pub const VERIFY_TX_SIG_GAS_COST: u64 = 1000;

/// Gas charged per byte of WASM code that is validated.
pub const WASM_VALIDATION_GAS_PER_BYTE: u64 = 1;

/// Gas charged per byte moved across the host/guest boundary.
pub const MEMORY_ACCESS_GAS_PER_BYTE: u64 = 1;

/// Gas charged per byte of a storage access.
pub const STORAGE_ACCESS_GAS_PER_BYTE: u64 = 1;

/// Gas charged for reading block metadata of fixed size.
pub const MIN_STORAGE_GAS: u64 = 1;

/// The gas ceiling of a block of transactions.
pub const BLOCK_GAS_LIMIT: u64 = 10_000_000_000;

/// The gas ceiling of one validity predicate run.
pub const VP_GAS_LIMIT: u64 = 1_000_000;

/// Why a gas charge was refused.
#[derive(Debug, Clone, Copy, PartialEq, Eq, Structural)]
pub enum GasError {
    /// The charge would take the meter past its ceiling.
    GasOverflow,
    /// The meter was exhausted by an earlier charge.
    Exhausted,
}

/// A gas meter: `used` never exceeds `limit` while the meter is live; the
/// first charge that would pass the ceiling exhausts it for good.
#[derive(Debug, Clone, Copy, PartialEq, Eq, Structural)]
pub struct GasMeter {
    pub used: u64,
    pub limit: u64,
    pub exhausted: bool,
}

impl GasMeter {
    pub open spec fn wf(self) -> bool {
        self.used <= self.limit
    }

    /// The meter after a charge of `n`, as a pure function.
    pub open spec fn charged(self, n: u64) -> GasMeter {
        if self.exhausted || self.used + n > self.limit {
            GasMeter { exhausted: true, ..self }
        } else {
            GasMeter { used: (self.used + n) as u64, ..self }
        }
    }

    /// Whether a charge of `n` succeeds on this meter.
    pub open spec fn accepts(self, n: u64) -> bool {
        !self.exhausted && self.used + n <= self.limit
    }

    /// Whether the meter can pay `n` more units, whether in one charge or in
    /// several.
    pub open spec fn can_pay(self, n: int) -> bool {
        !self.exhausted && self.used + n <= self.limit
    }

    /// A fresh meter with the given ceiling.
    pub fn new(limit: u64) -> (r: GasMeter)
        ensures
            r == (GasMeter { used: 0, limit, exhausted: false }),
            r.wf(),
    {
        GasMeter { used: 0, limit, exhausted: false }
    }

    /// A meter for a block of transactions.
    pub fn new_block() -> (r: GasMeter)
        ensures
            r == (GasMeter { used: 0, limit: BLOCK_GAS_LIMIT, exhausted: false }),
    {
        GasMeter::new(BLOCK_GAS_LIMIT)
    }

    /// A meter for one validity predicate run.
    pub fn new_vp() -> (r: GasMeter)
        ensures
            r == (GasMeter { used: 0, limit: VP_GAS_LIMIT, exhausted: false }),
    {
        GasMeter::new(VP_GAS_LIMIT)
    }

    /// Charge `n` units. Fails once the ceiling would be passed; after that
    /// every later charge fails too.
    pub fn add(&mut self, n: u64) -> (r: Result<(), GasError>)
        requires
            old(self).wf(),
        ensures
            *final(self) == old(self).charged(n),
            final(self).wf(),
            r is Ok <==> old(self).accepts(n),
            old(self).exhausted ==> r == Err::<(), GasError>(GasError::Exhausted),
            !old(self).exhausted && !old(self).accepts(n) ==> r == Err::<(), GasError>(
                GasError::GasOverflow,
            ),
    {
        if self.exhausted {
            return Err(GasError::Exhausted);
        }
        if n > self.limit - self.used {
            self.exhausted = true;
            return Err(GasError::GasOverflow);
        }
        self.used = self.used + n;
        Ok(())
    }

    /// Gas used so far.
    pub fn get_used(&self) -> (r: u64)
        ensures
            r == self.used,
    {
        self.used
    }
}

/// The meter after charging each amount of `cs` in order.
pub open spec fn run(m: GasMeter, cs: Seq<u64>) -> GasMeter
    decreases cs.len(),
{
    if cs.len() == 0 {
        m
    } else {
        run(m, cs.drop_last()).charged(cs.last())
    }
}

/// The sum of the amounts of `cs`.
pub open spec fn total(cs: Seq<u64>) -> int
    decreases cs.len(),
{
    if cs.len() == 0 {
        0
    } else {
        total(cs.drop_last()) + cs.last()
    }
}

proof fn lemma_run(limit: u64, cs: Seq<u64>)
    ensures
        run(GasMeter { used: 0, limit, exhausted: false }, cs).limit == limit,
        total(cs) <= limit ==> run(GasMeter { used: 0, limit, exhausted: false }, cs).used == total(cs)
            && !run(GasMeter { used: 0, limit, exhausted: false }, cs).exhausted,
        total(cs) > limit ==> run(GasMeter { used: 0, limit, exhausted: false }, cs).exhausted,
        total(cs) >= 0,
    decreases cs.len(),
{
    if cs.len() > 0 {
        lemma_run(limit, cs.drop_last());
    }
}

proof fn lemma_total_monotone(cs: Seq<u64>, i: int, j: int)
    requires
        0 <= i <= j <= cs.len(),
    ensures
        total(cs.take(i)) <= total(cs.take(j)),
    decreases j - i,
{
    if i < j {
        lemma_total_monotone(cs, i, j - 1);
        assert(cs.take(j).drop_last() =~= cs.take(j - 1));
    }
}

/// Charging amounts in order to a fresh meter: a charge succeeds exactly
/// when the running total including it stays within the ceiling; once a
/// charge has taken the total past the ceiling, no later charge succeeds.
pub proof fn law_gas_exhaustion(limit: u64, cs: Seq<u64>, i: int)
    requires
        0 <= i < cs.len(),
    ensures
        run(GasMeter { used: 0, limit, exhausted: false }, cs.take(i)).accepts(cs[i]) <==> total(cs.take(i + 1))
            <= limit,
        total(cs.take(i + 1)) > limit ==> forall|j: int|
            i < j < cs.len() ==> !(#[trigger] run(GasMeter { used: 0, limit, exhausted: false }, cs.take(j)).accepts(
                cs[j],
            )),
{
    let m0 = GasMeter { used: 0, limit, exhausted: false };
    lemma_run(limit, cs.take(i));
    assert(cs.take(i + 1).drop_last() =~= cs.take(i));
    assert(cs.take(i + 1).last() == cs[i]);
    if total(cs.take(i + 1)) > limit {
        assert forall|j: int| i < j < cs.len() implies !(#[trigger] run(m0, cs.take(j)).accepts(cs[j])) by {
            lemma_total_monotone(cs, i + 1, j);
            lemma_run(limit, cs.take(j));
        }
    }
}

} // verus!
