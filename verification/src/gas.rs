//! Gas accounting for a pipeline of stages: each stage reserves gas
//! speculatively, and a reservation is later committed or rolled back.

use vstd::prelude::*;

verus! {

/// Why a gas operation was refused.
#[derive(Debug, Clone, Copy, PartialEq, Eq, Structural)]
pub enum GasError {
    OutOfGas,
}

/// A gas balance with one speculative reservation per pipeline stage.
pub struct PipelinedGasMeter {
    gas_left: u64,
    gas_limit: u64,
    pipeline_stages: usize,
    speculative_gas: Vec<u64>,
}

/// What a meter holds: the committed balance, the limit it began with, and
/// the reservation of each stage.
pub struct GasView {
    pub gas_left: nat,
    pub gas_limit: nat,
    pub reserved: Seq<u64>,
}

impl GasView {
    /// The gas committed so far: what the balance has lost since the start.
    pub open spec fn committed(self) -> int {
        self.gas_limit - self.gas_left
    }
}

impl View for PipelinedGasMeter {
    type V = GasView;

    closed spec fn view(&self) -> GasView {
        GasView {
            gas_left: self.gas_left as nat,
            gas_limit: self.gas_limit as nat,
            reserved: self.speculative_gas@,
        }
    }
}

impl PipelinedGasMeter {
    /// There is one reservation per stage, and the balance never exceeds the
    /// limit.
    pub closed spec fn wf(&self) -> bool {
        &&& self.speculative_gas@.len() == self.pipeline_stages
        &&& self.gas_left <= self.gas_limit
    }

    /// What well-formedness says of the view: the balance is between zero
    /// and the limit, so the gas committed is never negative.
    pub proof fn lemma_wf_view(&self)
        requires
            self.wf(),
        ensures
            0 <= self@.gas_left <= self@.gas_limit <= u64::MAX,
            self@.committed() >= 0,
    {
    }

    /// A meter with the whole limit as its balance and nothing reserved in
    /// any of its stages.
    pub fn new(gas_limit: u64, pipeline_stages: usize) -> (r: Self)
        ensures
            r.wf(),
            r@.gas_left == gas_limit,
            r@.gas_limit == gas_limit,
            r@.reserved == Seq::new(pipeline_stages as nat, |i: int| 0u64),
    {
        let mut speculative_gas: Vec<u64> = Vec::new();
        let mut i: usize = 0;
        while i < pipeline_stages
            invariant
                i <= pipeline_stages,
                speculative_gas@ == Seq::new(i as nat, |k: int| 0u64),
            decreases pipeline_stages - i,
        {
            speculative_gas.push(0);
            assert(speculative_gas@ =~= Seq::new((i + 1) as nat, |k: int| 0u64));
            i += 1;
        }
        PipelinedGasMeter { gas_left: gas_limit, gas_limit, pipeline_stages, speculative_gas }
    }

    /// Adds `amount` to the reservation of `stage`. A reservation that would
    /// exceed what 64 bits hold could never be committed: it is refused and
    /// changes nothing.
    pub fn reserve_gas(&mut self, stage: usize, amount: u64) -> (r: Result<(), GasError>)
        requires
            old(self).wf(),
            stage < old(self)@.reserved.len(),
        ensures
            final(self).wf(),
            final(self)@.gas_left == old(self)@.gas_left,
            final(self)@.gas_limit == old(self)@.gas_limit,
            old(self)@.reserved[stage as int] + amount <= u64::MAX ==> r is Ok && final(self)@.reserved == old(self)@.reserved.update(
                stage as int,
                (old(self)@.reserved[stage as int] + amount) as u64,
            ),
            old(self)@.reserved[stage as int] + amount > u64::MAX ==> r == Err::<(), GasError>(
                GasError::OutOfGas,
            ) && final(self)@.reserved == old(self)@.reserved,
    {
        let current = self.speculative_gas[stage];
        if amount > u64::MAX - current {
            return Err(GasError::OutOfGas);
        }
        self.speculative_gas[stage] = current + amount;
        Ok(())
    }

    /// Draws the reservation of `stage` from the balance and clears it.
    /// Refused, with nothing changed, where the balance is too small.
    pub fn commit_gas(&mut self, stage: usize) -> (r: Result<(), GasError>)
        requires
            old(self).wf(),
            stage < old(self)@.reserved.len(),
        ensures
            final(self).wf(),
            final(self)@.gas_limit == old(self)@.gas_limit,
            old(self)@.reserved[stage as int] <= old(self)@.gas_left ==> {
                &&& r is Ok
                &&& final(self)@.gas_left == old(self)@.gas_left - old(self)@.reserved[stage as int]
                &&& final(self)@.committed() == old(self)@.committed() + old(self)@.reserved[stage as int]
                &&& final(self)@.reserved == old(self)@.reserved.update(stage as int, 0)
            },
            old(self)@.reserved[stage as int] > old(self)@.gas_left ==> {
                &&& r == Err::<(), GasError>(GasError::OutOfGas)
                &&& final(self)@ == old(self)@
            },
    {
        let gas_to_commit = self.speculative_gas[stage];
        if self.gas_left < gas_to_commit {
            return Err(GasError::OutOfGas);
        }
        self.gas_left -= gas_to_commit;
        self.speculative_gas[stage] = 0;
        Ok(())
    }

    /// Drops the reservation of `stage`; the balance stays.
    pub fn rollback_gas(&mut self, stage: usize)
        requires
            old(self).wf(),
            stage < old(self)@.reserved.len(),
        ensures
            final(self).wf(),
            final(self)@.gas_left == old(self)@.gas_left,
            final(self)@.gas_limit == old(self)@.gas_limit,
            final(self)@.reserved == old(self)@.reserved.update(stage as int, 0),
    {
        self.speculative_gas[stage] = 0;
    }

    /// The committed balance.
    pub fn gas_left(&self) -> (r: u64)
        ensures
            r == self@.gas_left,
    {
        self.gas_left
    }
}

} // verus!
