//! Witness generator: the three-pass pipeline that materializes the
//! witness columns, appends the zero-knowledge noise rows, and sanitizes
//! the `INVALID` sentinels.

use vstd::prelude::*;
use vstd::arithmetic::power2::{pow2, lemma2_to64, lemma_pow2_adds};
use crate::buffer::Buf;
use crate::circuit::{
    byte_cell_key, byte_cell_pair, ctrl_cell, exec_cell_combine, exec_cell_fetch, ram_cell_diff,
    ram_cell_key, voz, PreflightTrace, CTRL_SIZE, DATA_SIZE, MAX_ROU_PO2, MIN_PO2, ZK_CYCLES,
};
use crate::fp::{Fp, P, INVALID_REPR};
use crate::loader::Loader;
use crate::machine::{MachineContext, SortDomain, StepMode, WitgenError};
use crate::rng::fp_random;

verus! {

/// Every cell of a finished witness, outside the randomized masking rows,
/// pinned to its reference value; every cell a canonical field element.
pub open spec fn witness_data_ok(t: PreflightTrace, steps: int, d: Seq<Fp>) -> bool {
    let lc = t.last_cycle();
    let last = steps - ZK_CYCLES;
    &&& d.len() == DATA_SIZE * steps
    &&& forall|c: int| 0 <= c < lc ==> d[c] == exec_cell_fetch(t, c)
    &&& forall|c: int| 0 <= c < lc ==> d[steps + c] == exec_cell_combine(t, c)
    &&& forall|c: int|
        lc <= c < last ==> (#[trigger] d[c]) == (Fp { repr: 0u32 }) && d[steps + c] == (Fp {
            repr: 0u32,
        })
    &&& forall|c: int| 0 <= c < last ==> d[2 * steps + c] == ram_cell_key(t, c)
    &&& forall|c: int| 0 <= c < last ==> d[3 * steps + c] == ram_cell_diff(t, c)
    &&& forall|c: int| 0 <= c < last ==> d[4 * steps + c] == byte_cell_key(t, c)
    &&& forall|c: int| 0 <= c < last ==> d[5 * steps + c] == byte_cell_pair(t, c)
    &&& forall|i: int| 0 <= i < d.len() ==> d[i].is_valid()
}

/// The control columns of a finished witness, pinned to the loader's
/// output; the masking rows are zero because the boot prologue ends before
/// them.
pub open spec fn witness_ctrl_ok(t: PreflightTrace, steps: int, ctrl: Seq<Fp>) -> bool {
    &&& ctrl.len() == CTRL_SIZE * steps
    &&& forall|c: int| 0 <= c < steps ==> ctrl[c] == ctrl_cell(t.prog@, 0, c)
    &&& forall|c: int| 0 <= c < steps ==> ctrl[steps + c] == ctrl_cell(t.prog@, 1, c)
}

/// The execute-pass columns after reverse or forward stepping and
/// sanitization: the stepped rows pinned, everything else zero.
pub open spec fn exec_only_data_ok(t: PreflightTrace, steps: int, d: Seq<Fp>) -> bool {
    let lc = t.last_cycle();
    &&& d.len() == DATA_SIZE * steps
    &&& forall|c: int| 0 <= c < lc ==> d[c] == exec_cell_fetch(t, c)
    &&& forall|c: int| 0 <= c < lc ==> d[steps + c] == exec_cell_combine(t, c)
    &&& forall|i: int|
        0 <= i < d.len() && !(0 <= i < lc) && !(steps <= i < steps + lc) ==> d[i] == (Fp {
            repr: 0u32,
        })
}

/// The witness buffers of one proof attempt.
pub struct WitnessGenerator {
    pub steps: usize,
    pub ctrl: Buf<Fp>,
    pub data: Buf<Fp>,
    pub io: Buf<Fp>,
}

impl WitnessGenerator {
    /// Buffer sizes agree with the trace length, which covers the masking
    /// rows.
    pub open spec fn wf(self) -> bool {
        &&& self.ctrl@.len() == CTRL_SIZE * self.steps
        &&& self.data@.len() == DATA_SIZE * self.steps
        &&& self.steps >= 32
    }

    /// The buffers as the constructor leaves them: control zeroed, data
    /// all-`INVALID`.
    pub open spec fn fresh(self) -> bool {
        &&& forall|i: int| 0 <= i < self.ctrl@.len() ==> self.ctrl@[i] == (Fp { repr: 0u32 })
        &&& forall|i: int|
            0 <= i < self.data@.len() ==> self.data@[i] == (Fp { repr: INVALID_REPR })
    }

    /// Allocate the witness buffers for a trace of `2^po2` cycles: control
    /// zero-filled, data `INVALID`-filled, the I/O vector copied from the
    /// caller.
    pub fn new(po2: usize, io: &[Fp]) -> (r: WitnessGenerator)
        requires
            MIN_PO2 <= po2 < MAX_ROU_PO2,
        ensures
            r.steps == pow2(po2 as nat),
            r.wf(),
            r.fresh(),
            r.io@ == io@,
    {
        let mut steps: usize = 1;
        let mut k: usize = 0;
        proof {
            lemma2_to64();
        }
        while k < po2
            invariant
                k <= po2,
                po2 < MAX_ROU_PO2,
                steps == pow2(k as nat),
                steps <= 0x4000000,
            decreases po2 - k,
        {
            proof {
                lemma_pow2_adds(1, k as nat);
                lemma2_to64();
                vstd::arithmetic::power2::lemma_pow2_strictly_increases(k as nat, 26);
                assert(pow2(26) == 0x4000000) by {
                    lemma2_to64();
                };
            }
            steps = steps * 2;
            k += 1;
            proof {
                if (k as nat) < 26 {
                    vstd::arithmetic::power2::lemma_pow2_strictly_increases(k as nat, 26);
                }
                assert(pow2(26) == 0x4000000) by {
                    lemma2_to64();
                };
            }
        }
        proof {
            if 5 < po2 {
                vstd::arithmetic::power2::lemma_pow2_strictly_increases(5, po2 as nat);
            }
            lemma2_to64();
        }
        let ctrl = Buf::new_filled("ctrl", CTRL_SIZE * steps, Fp::zero());
        let data = Buf::new_filled("data", DATA_SIZE * steps, Fp::invalid());
        let io = Buf::copy_from("io", io);
        WitnessGenerator { steps, ctrl, data, io }
    }

    /// Run the three passes, append the noise rows, and sanitize. Succeeds
    /// exactly when the trace's words are canonical residues and both sort
    /// domains hold in-range keys.
    pub fn execute(
        &mut self,
        trace: PreflightTrace,
        rng: &mut rand::rngs::StdRng,
        mode: StepMode,
    ) -> (r: Result<(), WitgenError>)
        requires
            old(self).wf(),
            old(self).fresh(),
            trace.shaped(old(self).steps as int),
        ensures
            final(self).steps == old(self).steps,
            final(self).wf(),
            final(self).io@.len() == old(self).io@.len(),
            r is Ok <==> trace.words_ok() && trace.ram_ok() && trace.bytes_ok(),
            r == Err::<(), WitgenError>(WitgenError::TraceConstraintViolation)
                <==> !trace.words_ok(),
            r == Err::<(), WitgenError>(WitgenError::SortKeyMalformed) <==> trace.words_ok() && !(
            trace.ram_ok() && trace.bytes_ok()),
            r is Ok ==> witness_data_ok(trace, old(self).steps as int, final(self).data@),
            r is Ok ==> witness_ctrl_ok(trace, old(self).steps as int, final(self).ctrl@),
            r is Ok ==> forall|i: int|
                0 <= i < old(self).io@.len() ==> final(self).io@[i] == voz(old(self).io@[i]),
            r is Ok ==> forall|i: int|
                0 <= i < final(self).io@.len() ==> final(self).io@[i].is_valid(),
            r is Err ==> final(self).io@ == old(self).io@,
    {
        let ghost steps = self.steps as int;
        let ghost lc = trace.last_cycle();
        let ghost last = steps - ZK_CYCLES;
        let machine = MachineContext::new(self.steps, trace);
        let mut machine = machine;

        let r = self.compute_execute(&machine, mode);
        if let Err(e) = r {
            return Err(e);
        }
        let ghost d_exec = self.data@;
        let ghost ctrl_loaded = self.ctrl@;

        let r = self.compute_verify_ram(&mut machine, mode);
        if let Err(e) = r {
            return Err(e);
        }
        let ghost d_ram = self.data@;

        let r = self.compute_verify_bytes(&mut machine, mode);
        if let Err(e) = r {
            return Err(e);
        }
        let ghost d_bytes = self.data@;

        self.noise(rng);
        let ghost d_noise = self.data@;
        let ghost ctrl_noise = self.ctrl@;
        self.sanitize();

        proof {
            let t = trace;
            let dn = d_noise;
            let df = self.data@;
            // data cells, column by column: each pass leaves the earlier
            // passes' columns alone, the noise rows start at `last`, and
            // sanitization fixes only invalid cells
            assert forall|c: int| 0 <= c < lc implies df[c] == exec_cell_fetch(t, c) by {
                assert(d_ram[c] == d_exec[c]);
                assert(d_bytes[c] == d_ram[c]);
                assert(dn[c] == d_bytes[c]);
                assert(df[c] == voz(dn[c]));
                crate::fp::lemma_fpv_valid(crate::circuit::wval(t, c));
            };
            assert forall|c: int| 0 <= c < lc implies df[steps + c] == exec_cell_combine(t, c) by {
                assert(d_ram[steps + c] == d_exec[steps + c]);
                assert(d_bytes[steps + c] == d_ram[steps + c]);
                assert(dn[steps + c] == d_bytes[steps + c]);
                assert(df[steps + c] == voz(dn[steps + c]));
                crate::fp::lemma_fpv_valid(
                    crate::circuit::wval(t, c) * (ctrl_cell(t.prog@, 0, c).repr as int)
                        + crate::circuit::exec_back(t, c),
                );
            };
            assert forall|c: int| lc <= c < last implies (#[trigger] df[c]) == (Fp { repr: 0u32 })
                && df[steps + c] == (Fp { repr: 0u32 }) by {
                assert(d_exec[c] == (Fp { repr: INVALID_REPR }));
                assert(d_exec[steps + c] == (Fp { repr: INVALID_REPR }));
                assert(dn[c] == (Fp { repr: INVALID_REPR }));
                assert(dn[steps + c] == (Fp { repr: INVALID_REPR }));
                assert(df[c] == voz(dn[c]));
                assert(df[steps + c] == voz(dn[steps + c]));
            };
            assert forall|c: int| 0 <= c < last implies df[2 * steps + c] == ram_cell_key(t, c)
                && df[3 * steps + c] == ram_cell_diff(t, c) by {
                assert(d_ram[2 * steps + c] == ram_cell_key(t, c));
                assert(d_ram[3 * steps + c] == ram_cell_diff(t, c));
                assert(d_bytes[2 * steps + c] == d_ram[2 * steps + c]);
                assert(d_bytes[3 * steps + c] == d_ram[3 * steps + c]);
                assert(dn[2 * steps + c] == d_bytes[2 * steps + c]);
                assert(dn[3 * steps + c] == d_bytes[3 * steps + c]);
                assert(df[2 * steps + c] == voz(dn[2 * steps + c]));
                assert(df[3 * steps + c] == voz(dn[3 * steps + c]));
                crate::fp::lemma_fpv_valid(crate::circuit::ram_key(t, c));
                if c == 0 {
                    crate::fp::lemma_fpv_valid(crate::circuit::ram_key(t, 0));
                } else {
                    crate::fp::lemma_fpv_valid(
                        crate::circuit::ram_key(t, c) - crate::circuit::ram_key(t, c - 1),
                    );
                }
            };
            assert forall|c: int| 0 <= c < last implies df[4 * steps + c] == byte_cell_key(t, c)
                && df[5 * steps + c] == byte_cell_pair(t, c) by {
                assert(d_bytes[4 * steps + c] == byte_cell_key(t, c));
                assert(d_bytes[5 * steps + c] == byte_cell_pair(t, c));
                assert(dn[4 * steps + c] == d_bytes[4 * steps + c]);
                assert(dn[5 * steps + c] == d_bytes[5 * steps + c]);
                assert(df[4 * steps + c] == voz(dn[4 * steps + c]));
                assert(df[5 * steps + c] == voz(dn[5 * steps + c]));
                crate::fp::lemma_fpv_valid(crate::circuit::byte_key(t, c));
                if c == 0 {
                    crate::fp::lemma_fpv_valid(crate::circuit::byte_key(t, 0));
                } else {
                    crate::fp::lemma_fpv_valid(
                        crate::circuit::byte_key(t, c) + 256 * crate::circuit::byte_key(t, c - 1),
                    );
                }
            };
            assert forall|i: int| 0 <= i < df.len() implies df[i].is_valid() by {
                assert(df[i] == voz(dn[i]));
            };
            assert(witness_data_ok(t, steps, df));
            // control columns: loaded by the loader, masking rows re-zeroed
            assert forall|c: int| 0 <= c < steps implies self.ctrl@[c] == ctrl_cell(t.prog@, 0, c)
                && self.ctrl@[steps + c] == ctrl_cell(t.prog@, 1, c) by {
                if c < last {
                    assert(ctrl_noise[c] == ctrl_loaded[c]);
                    assert(ctrl_noise[steps + c] == ctrl_loaded[steps + c]);
                } else {
                    assert(ctrl_noise[c] == (Fp { repr: 0u32 }));
                    assert(ctrl_noise[steps + c] == (Fp { repr: 0u32 }));
                }
            };
        }
        Ok(())
    }

    /// Execute pass: load the control columns, then step `[0, last_cycle)`
    /// in the chosen mode.
    fn compute_execute(&mut self, machine: &MachineContext, mode: StepMode) -> (r: Result<
        (),
        WitgenError,
    >)
        requires
            old(self).wf(),
            machine.wf(),
            machine.steps == old(self).steps,
            forall|i: int|
                0 <= i < old(self).ctrl@.len() ==> old(self).ctrl@[i] == (Fp { repr: 0u32 }),
        ensures
            final(self).steps == old(self).steps,
            final(self).wf(),
            final(self).io == old(self).io,
            r is Ok <==> machine.trace.words_ok(),
            r is Err ==> r == Err::<(), WitgenError>(WitgenError::TraceConstraintViolation),
            forall|c: int|
                0 <= c < old(self).steps ==> final(self).ctrl@[c] == ctrl_cell(
                    machine.trace.prog@,
                    0,
                    c,
                ),
            forall|c: int|
                0 <= c < old(self).steps ==> final(self).ctrl@[old(self).steps + c] == ctrl_cell(
                    machine.trace.prog@,
                    1,
                    c,
                ),
            r is Ok ==> forall|c: int|
                0 <= c < machine.trace.last_cycle() ==> final(self).data@[c] == exec_cell_fetch(
                    machine.trace,
                    c,
                ) && final(self).data@[old(self).steps + c] == exec_cell_combine(machine.trace, c),
            forall|i: int|
                0 <= i < old(self).data@.len() && !(0 <= i < machine.trace.last_cycle()) && !(
                old(self).steps <= i < old(self).steps + machine.trace.last_cycle()) ==> final(self).data@[i] == old(self).data@[i],
    {
        let steps = self.steps;
        let loader = Loader::new(steps);
        let last_cycle = loader.load(&mut self.ctrl, &machine.trace.prog);
        let ghost d0 = self.data@;

        match mode {
            StepMode::Parallel => {
                let mut cycle: usize = 0;
                while cycle < last_cycle
                    invariant
                        cycle <= last_cycle,
                        steps == self.steps,
                        steps == old(self).steps,
                        self.wf(),
                        self.io == old(self).io,
                        self.ctrl == final(self).ctrl || self.ctrl@.len() == CTRL_SIZE * steps,
                        machine.wf(),
                        machine.steps == steps,
                        last_cycle == machine.trace.last_cycle(),
                        d0.len() == self.data@.len(),
                        d0 == old(self).data@,
                        forall|c: int|
                            0 <= c < steps ==> self.ctrl@[c] == ctrl_cell(
                                machine.trace.prog@,
                                0,
                                c,
                            ),
                        forall|c: int|
                            0 <= c < steps ==> self.ctrl@[steps + c] == ctrl_cell(
                                machine.trace.prog@,
                                1,
                                c,
                            ),
                        forall|k: int|
                            0 <= k < cycle - 1 ==> self.data@[k] == exec_cell_fetch(
                                machine.trace,
                                k,
                            ),
                        forall|i: int|
                            0 <= i < d0.len() && !(0 <= i < cycle - 1) ==> self.data@[i] == d0[i],
                    decreases last_cycle - cycle,
                {
                    machine.inject_exec_backs(steps, cycle, &mut self.data);
                    cycle += 1;
                }
                machine.par_step_exec(steps, last_cycle, &self.ctrl, &self.io, &mut self.data)
            },
            StepMode::Sequential => {
                let mut cycle: usize = 0;
                while cycle < last_cycle
                    invariant
                        cycle <= last_cycle,
                        steps == self.steps,
                        steps == old(self).steps,
                        self.wf(),
                        self.io == old(self).io,
                        machine.wf(),
                        machine.steps == steps,
                        last_cycle == machine.trace.last_cycle(),
                        d0.len() == self.data@.len(),
                        d0 == old(self).data@,
                        forall|c: int|
                            0 <= c < steps ==> self.ctrl@[c] == ctrl_cell(
                                machine.trace.prog@,
                                0,
                                c,
                            ),
                        forall|c: int|
                            0 <= c < steps ==> self.ctrl@[steps + c] == ctrl_cell(
                                machine.trace.prog@,
                                1,
                                c,
                            ),
                        forall|k: int|
                            0 <= k < cycle ==> self.data@[k] == exec_cell_fetch(machine.trace, k),
                        forall|k: int|
                            0 <= k < cycle ==> self.data@[steps + k] == exec_cell_combine(
                                machine.trace,
                                k,
                            ),
                        forall|k: int| 0 <= k < cycle ==> machine.trace.words@[k] < P,
                        forall|i: int|
                            0 <= i < d0.len() && !(0 <= i < cycle) && !(steps <= i < steps + cycle)
                                ==> self.data@[i] == d0[i],
                    decreases last_cycle - cycle,
                {
                    let r = machine.step_exec(steps, cycle, &self.ctrl, &self.io, &mut self.data);
                    if r.is_err() {
                        return Err(WitgenError::TraceConstraintViolation);
                    }
                    cycle += 1;
                }
                Ok(())
            },
        }
    }

    /// Verify-RAM pass: sort the RAM domain, then step `[0, steps -
    /// ZK_CYCLES)` in the chosen mode.
    fn compute_verify_ram(&mut self, machine: &mut MachineContext, mode: StepMode) -> (r: Result<
        (),
        WitgenError,
    >)
        requires
            old(self).wf(),
            old(machine).wf(),
            old(machine).steps == old(self).steps,
        ensures
            final(self).steps == old(self).steps,
            final(self).wf(),
            final(self).io == old(self).io,
            final(self).ctrl == old(self).ctrl,
            final(machine).steps == old(machine).steps,
            final(machine).trace == old(machine).trace,
            final(machine).bytes_sorted == old(machine).bytes_sorted,
            r is Ok <==> old(machine).trace.ram_ok(),
            r is Err ==> r == Err::<(), WitgenError>(WitgenError::SortKeyMalformed)
                && final(self).data@ == old(self).data@,
            r is Ok ==> forall|c: int|
                0 <= c < old(self).steps - ZK_CYCLES ==> final(self).data@[2 * old(self).steps + c]
                    == ram_cell_key(old(machine).trace, c) && final(self).data@[3 * old(self).steps
                    + c] == ram_cell_diff(old(machine).trace, c),
            forall|i: int|
                0 <= i < old(self).data@.len() && !(2 * old(self).steps <= i < 2 * old(self).steps
                    + (old(self).steps - ZK_CYCLES)) && !(3 * old(self).steps <= i < 3 * old(self).steps + (old(self).steps - ZK_CYCLES)) ==> final(self).data@[i] == old(self).data@[i],
    {
        let steps = self.steps;
        let r = machine.sort(SortDomain::Ram);
        if let Err(e) = r {
            return Err(e);
        }
        let last_cycle = steps - ZK_CYCLES;
        let ghost d0 = self.data@;

        match mode {
            StepMode::Parallel => {
                let mut cycle: usize = 0;
                while cycle < last_cycle
                    invariant
                        cycle <= last_cycle,
                        steps == self.steps,
                        steps == old(self).steps,
                        self.wf(),
                        self.io == old(self).io,
                        self.ctrl == old(self).ctrl,
                        machine.wf(),
                        machine.ram_ready(),
                        machine.steps == steps,
                        machine.trace == old(machine).trace,
                        machine.bytes_sorted == old(machine).bytes_sorted,
                        last_cycle == steps - ZK_CYCLES,
                        d0.len() == self.data@.len(),
                        d0 == old(self).data@,
                        forall|k: int|
                            0 <= k < cycle - 1 ==> self.data@[2 * steps + k] == ram_cell_key(
                                machine.trace,
                                k,
                            ),
                        forall|i: int|
                            0 <= i < d0.len() && !(2 * steps <= i < 2 * steps + cycle - 1)
                                ==> self.data@[i] == d0[i],
                    decreases last_cycle - cycle,
                {
                    let r = machine.inject_verify_mem_backs(steps, cycle, &mut self.data);
                    proof {
                        assert(r is Ok);
                    }
                    cycle += 1;
                }
                machine.par_step_verify_mem(steps, last_cycle, &self.ctrl, &self.io, &mut self.data)
            },
            StepMode::Sequential => {
                let mut cycle: usize = 0;
                while cycle < last_cycle
                    invariant
                        cycle <= last_cycle,
                        steps == self.steps,
                        steps == old(self).steps,
                        self.wf(),
                        self.io == old(self).io,
                        self.ctrl == old(self).ctrl,
                        machine.wf(),
                        machine.ram_ready(),
                        machine.steps == steps,
                        machine.trace == old(machine).trace,
                        machine.bytes_sorted == old(machine).bytes_sorted,
                        last_cycle == steps - ZK_CYCLES,
                        d0.len() == self.data@.len(),
                        d0 == old(self).data@,
                        forall|k: int|
                            0 <= k < cycle ==> self.data@[2 * steps + k] == ram_cell_key(
                                machine.trace,
                                k,
                            ),
                        forall|k: int|
                            0 <= k < cycle ==> self.data@[3 * steps + k] == ram_cell_diff(
                                machine.trace,
                                k,
                            ),
                        forall|i: int|
                            0 <= i < d0.len() && !(2 * steps <= i < 2 * steps + cycle) && !(3
                                * steps <= i < 3 * steps + cycle) ==> self.data@[i] == d0[i],
                    decreases last_cycle - cycle,
                {
                    let r = machine.step_verify_mem(
                        steps,
                        cycle,
                        &self.ctrl,
                        &self.io,
                        &mut self.data,
                    );
                    proof {
                        assert(r is Ok);
                    }
                    cycle += 1;
                }
                Ok(())
            },
        }
    }

    /// Verify-bytes pass: sort the byte domain, then step `[0, steps -
    /// ZK_CYCLES)`; back injection starts at cycle 1 because the byte
    /// kernel reads only `cycle - 1`.
    fn compute_verify_bytes(&mut self, machine: &mut MachineContext, mode: StepMode) -> (r: Result<
        (),
        WitgenError,
    >)
        requires
            old(self).wf(),
            old(machine).wf(),
            old(machine).steps == old(self).steps,
        ensures
            final(self).steps == old(self).steps,
            final(self).wf(),
            final(self).io == old(self).io,
            final(self).ctrl == old(self).ctrl,
            final(machine).steps == old(machine).steps,
            final(machine).trace == old(machine).trace,
            r is Ok <==> old(machine).trace.bytes_ok(),
            r is Err ==> r == Err::<(), WitgenError>(WitgenError::SortKeyMalformed)
                && final(self).data@ == old(self).data@,
            r is Ok ==> forall|c: int|
                0 <= c < old(self).steps - ZK_CYCLES ==> final(self).data@[4 * old(self).steps + c]
                    == byte_cell_key(old(machine).trace, c) && final(self).data@[5 * old(self).steps + c] == byte_cell_pair(old(machine).trace, c),
            forall|i: int|
                0 <= i < old(self).data@.len() && !(4 * old(self).steps <= i < 4 * old(self).steps
                    + (old(self).steps - ZK_CYCLES)) && !(5 * old(self).steps <= i < 5 * old(self).steps + (old(self).steps - ZK_CYCLES)) ==> final(self).data@[i] == old(self).data@[i],
    {
        let steps = self.steps;
        let r = machine.sort(SortDomain::Bytes);
        if let Err(e) = r {
            return Err(e);
        }
        let last_cycle = steps - ZK_CYCLES;
        let ghost d0 = self.data@;

        if let StepMode::Parallel = mode {
            let mut cycle: usize = 1;
            while cycle < last_cycle
                invariant
                    1 <= cycle <= last_cycle,
                    steps == self.steps,
                    steps == old(self).steps,
                    self.wf(),
                    self.io == old(self).io,
                    self.ctrl == old(self).ctrl,
                    machine.wf(),
                    machine.bytes_ready(),
                    machine.steps == steps,
                    machine.trace == old(machine).trace,
                    last_cycle == steps - ZK_CYCLES,
                    d0.len() == self.data@.len(),
                    d0 == old(self).data@,
                    forall|k: int|
                        0 <= k < cycle - 1 ==> self.data@[4 * steps + k] == byte_cell_key(
                            machine.trace,
                            k,
                        ),
                    forall|i: int|
                        0 <= i < d0.len() && !(4 * steps <= i < 4 * steps + cycle - 1)
                            ==> self.data@[i] == d0[i],
                decreases last_cycle - cycle,
            {
                let r = machine.inject_verify_bytes_backs(steps, cycle, &mut self.data);
                proof {
                    assert(r is Ok);
                }
                cycle += 1;
            }
        }
        let ghost d1 = self.data@;
        let mut cycle: usize = 0;
        while cycle < last_cycle
            invariant
                cycle <= last_cycle,
                steps == self.steps,
                steps == old(self).steps,
                self.wf(),
                self.io == old(self).io,
                self.ctrl == old(self).ctrl,
                machine.wf(),
                machine.bytes_ready(),
                machine.steps == steps,
                machine.trace == old(machine).trace,
                last_cycle == steps - ZK_CYCLES,
                d0.len() == self.data@.len(),
                d1.len() == self.data@.len(),
                d0 == old(self).data@,
                forall|i: int|
                    0 <= i < d0.len() && !(4 * steps <= i < 4 * steps + (last_cycle - 1)) ==> d1[i]
                        == d0[i],
                forall|k: int|
                    0 <= k < cycle ==> self.data@[4 * steps + k] == byte_cell_key(machine.trace, k),
                forall|k: int|
                    0 <= k < cycle ==> self.data@[5 * steps + k] == byte_cell_pair(
                        machine.trace,
                        k,
                    ),
                forall|i: int|
                    0 <= i < d0.len() && !(4 * steps <= i < 4 * steps + cycle) && !(5 * steps <= i
                        < 5 * steps + cycle) ==> self.data@[i] == d1[i],
            decreases last_cycle - cycle,
        {
            let r = machine.step_verify_bytes(steps, cycle, &self.ctrl, &self.io, &mut self.data);
            proof {
                assert(r is Ok);
            }
            cycle += 1;
        }
        Ok(())
    }

    /// Zero the control cells and randomize the data cells of the trailing
    /// `ZK_CYCLES` rows.
    #[verifier::rlimit(100)]
    fn noise(&mut self, rng: &mut rand::rngs::StdRng)
        requires
            old(self).wf(),
        ensures
            final(self).steps == old(self).steps,
            final(self).wf(),
            final(self).io == old(self).io,
            forall|c: int|
                old(self).steps - ZK_CYCLES <= c < old(self).steps
                    ==> (#[trigger] final(self).ctrl@[c]) == (Fp { repr: 0u32 })
                    && final(self).ctrl@[old(self).steps + c] == (Fp { repr: 0u32 }),
            forall|i: int|
                0 <= i < old(self).ctrl@.len() && !(old(self).steps - ZK_CYCLES <= i < old(
                    self,
                ).steps) && !(2 * old(self).steps - ZK_CYCLES <= i < 2 * old(self).steps)
                    ==> final(self).ctrl@[i] == old(self).ctrl@[i],
            forall|i: int|
                0 <= i < old(self).data@.len() && ((old(self).steps - ZK_CYCLES <= i < old(
                    self,
                ).steps) || (2 * old(self).steps - ZK_CYCLES <= i < 2 * old(self).steps) || (3
                    * old(self).steps - ZK_CYCLES <= i < 3 * old(self).steps) || (4 * old(
                    self,
                ).steps - ZK_CYCLES <= i < 4 * old(self).steps) || (5 * old(self).steps
                    - ZK_CYCLES <= i < 5 * old(self).steps) || (6 * old(self).steps - ZK_CYCLES
                    <= i < 6 * old(self).steps)) ==> (#[trigger] final(self).data@[i]).is_valid(),
            forall|i: int|
                0 <= i < old(self).data@.len() && !(old(self).steps - ZK_CYCLES <= i < old(
                    self,
                ).steps) && !(2 * old(self).steps - ZK_CYCLES <= i < 2 * old(self).steps) && !(3
                    * old(self).steps - ZK_CYCLES <= i < 3 * old(self).steps) && !(4 * old(
                    self,
                ).steps - ZK_CYCLES <= i < 4 * old(self).steps) && !(5 * old(self).steps
                    - ZK_CYCLES <= i < 5 * old(self).steps) && !(6 * old(self).steps - ZK_CYCLES
                    <= i < 6 * old(self).steps) ==> final(self).data@[i] == old(self).data@[i],
    {
        let steps = self.steps;
        let nd: usize = self.data.size();
        let nc: usize = self.ctrl.size();
        let mut i: usize = 0;
        while i < ZK_CYCLES
            invariant
                i <= ZK_CYCLES,
                steps == self.steps,
                steps == old(self).steps,
                nd == DATA_SIZE * steps,
                nc == CTRL_SIZE * steps,
                self.wf(),
                self.io == old(self).io,
                forall|c: int|
                    steps - ZK_CYCLES <= c < steps - ZK_CYCLES + i
                        ==> (#[trigger] self.ctrl@[c]) == (Fp { repr: 0u32 })
                        && self.ctrl@[steps + c] == (Fp { repr: 0u32 }),
                forall|j: int|
                    0 <= j < nc && !(steps - ZK_CYCLES <= j < steps - ZK_CYCLES + i) && !(2 * steps
                        - ZK_CYCLES <= j < 2 * steps - ZK_CYCLES + i) ==> self.ctrl@[j] == old(
                        self,
                    ).ctrl@[j],
                forall|j: int|
                    0 <= j < nd && ((steps - ZK_CYCLES <= j < steps - ZK_CYCLES + i) || (2 * steps
                        - ZK_CYCLES <= j < 2 * steps - ZK_CYCLES + i) || (3 * steps - ZK_CYCLES
                        <= j < 3 * steps - ZK_CYCLES + i) || (4 * steps - ZK_CYCLES <= j < 4
                        * steps - ZK_CYCLES + i) || (5 * steps - ZK_CYCLES <= j < 5 * steps
                        - ZK_CYCLES + i) || (6 * steps - ZK_CYCLES <= j < 6 * steps - ZK_CYCLES
                        + i)) ==> (#[trigger] self.data@[j]).is_valid(),
                forall|j: int|
                    0 <= j < nd && !(steps - ZK_CYCLES <= j < steps - ZK_CYCLES + i) && !(2 * steps
                        - ZK_CYCLES <= j < 2 * steps - ZK_CYCLES + i) && !(3 * steps - ZK_CYCLES
                        <= j < 3 * steps - ZK_CYCLES + i) && !(4 * steps - ZK_CYCLES <= j < 4
                        * steps - ZK_CYCLES + i) && !(5 * steps - ZK_CYCLES <= j < 5 * steps
                        - ZK_CYCLES + i) && !(6 * steps - ZK_CYCLES <= j < 6 * steps - ZK_CYCLES
                        + i) ==> self.data@[j] == old(self).data@[j],
            decreases ZK_CYCLES - i,
        {
            let cycle = steps - ZK_CYCLES + i;
            self.ctrl.set_at(cycle, Fp::zero());
            self.ctrl.set_at(steps + cycle, Fp::zero());
            self.data.set_at(cycle, fp_random(rng));
            self.data.set_at(steps + cycle, fp_random(rng));
            self.data.set_at(2 * steps + cycle, fp_random(rng));
            self.data.set_at(3 * steps + cycle, fp_random(rng));
            self.data.set_at(4 * steps + cycle, fp_random(rng));
            self.data.set_at(5 * steps + cycle, fp_random(rng));
            i += 1;
        }
    }

    /// Replace every `INVALID` sentinel in the data and I/O buffers by zero.
    fn sanitize(&mut self)
        requires
            old(self).wf(),
        ensures
            final(self).steps == old(self).steps,
            final(self).wf(),
            final(self).ctrl == old(self).ctrl,
            final(self).io@.len() == old(self).io@.len(),
            forall|i: int|
                0 <= i < old(self).data@.len() ==> final(self).data@[i] == voz(old(self).data@[i]),
            forall|i: int|
                0 <= i < old(self).io@.len() ==> final(self).io@[i] == voz(old(self).io@[i]),
    {
        let n = self.data.size();
        let mut i: usize = 0;
        while i < n
            invariant
                i <= n,
                n == self.data@.len(),
                self.steps == old(self).steps,
                self.ctrl == old(self).ctrl,
                self.io == old(self).io,
                self.data@.len() == old(self).data@.len(),
                forall|k: int| 0 <= k < i ==> self.data@[k] == voz(old(self).data@[k]),
                forall|k: int| i <= k < n ==> self.data@[k] == old(self).data@[k],
            decreases n - i,
        {
            let v = self.data.get_at(i);
            self.data.set_at(i, v.valid_or_zero());
            i += 1;
        }
        let m = self.io.size();
        let mut i: usize = 0;
        while i < m
            invariant
                i <= m,
                m == self.io@.len(),
                self.steps == old(self).steps,
                self.ctrl == old(self).ctrl,
                self.data@.len() == old(self).data@.len(),
                forall|k: int| 0 <= k < self.data@.len() ==> self.data@[k] == voz(old(self).data@[k]),
                forall|k: int| 0 <= k < i ==> self.io@[k] == voz(old(self).io@[k]),
                forall|k: int| i <= k < m ==> self.io@[k] == old(self).io@[k],
            decreases m - i,
        {
            let v = self.io.get_at(i);
            self.io.set_at(i, v.valid_or_zero());
            i += 1;
        }
    }
}


impl WitnessGenerator {
    /// Test oracle for the execute pass: run it forward sequentially, or
    /// with injected backs in reverse order, then sanitize; both orders
    /// leave exactly the same data.
    pub fn test_step_execute(&mut self, trace: PreflightTrace, is_fwd: bool) -> (r: Vec<Fp>)
        requires
            old(self).wf(),
            old(self).fresh(),
            trace.shaped(old(self).steps as int),
            trace.words_ok(),
        ensures
            exec_only_data_ok(trace, old(self).steps as int, r@),
    {
        let steps = self.steps;
        let machine = MachineContext::new(steps, trace);
        let loader = Loader::new(steps);
        let last_cycle = loader.load(&mut self.ctrl, &machine.trace.prog);
        let ghost d0 = self.data@;
        let ghost lc = machine.trace.last_cycle();

        if !is_fwd {
            let mut cycle: usize = 0;
            while cycle < last_cycle
                invariant
                    cycle <= last_cycle,
                    steps == self.steps,
                    steps == old(self).steps,
                    self.wf(),
                    machine.wf(),
                    machine.steps == steps,
                    last_cycle == machine.trace.last_cycle(),
                    d0.len() == self.data@.len(),
                    forall|c: int|
                        0 <= c < steps ==> self.ctrl@[c] == ctrl_cell(machine.trace.prog@, 0, c),
                    forall|c: int|
                        0 <= c < steps ==> self.ctrl@[steps + c] == ctrl_cell(
                            machine.trace.prog@,
                            1,
                            c,
                        ),
                    forall|k: int|
                        0 <= k < cycle - 1 ==> self.data@[k] == exec_cell_fetch(machine.trace, k),
                    forall|i: int|
                        0 <= i < d0.len() && !(0 <= i < cycle - 1) ==> self.data@[i] == d0[i],
                decreases last_cycle - cycle,
            {
                machine.inject_exec_backs(steps, cycle, &mut self.data);
                cycle += 1;
            }
        }
        let ghost d1 = self.data@;
        if is_fwd {
            let mut cycle: usize = 0;
            while cycle < last_cycle
                invariant
                    cycle <= last_cycle,
                    steps == self.steps,
                    steps == old(self).steps,
                    self.wf(),
                    machine.wf(),
                    machine.trace.words_ok(),
                    machine.steps == steps,
                    last_cycle == machine.trace.last_cycle(),
                    d0.len() == self.data@.len(),
                    forall|c: int|
                        0 <= c < steps ==> self.ctrl@[c] == ctrl_cell(machine.trace.prog@, 0, c),
                    forall|k: int|
                        0 <= k < cycle ==> self.data@[k] == exec_cell_fetch(machine.trace, k),
                    forall|k: int|
                        0 <= k < cycle ==> self.data@[steps + k] == exec_cell_combine(
                            machine.trace,
                            k,
                        ),
                    forall|i: int|
                        0 <= i < d0.len() && !(0 <= i < cycle) && !(steps <= i < steps + cycle)
                            ==> self.data@[i] == d0[i],
                decreases last_cycle - cycle,
            {
                let r = machine.step_exec(steps, cycle, &self.ctrl, &self.io, &mut self.data);
                proof {
                    assert(r is Ok);
                }
                cycle += 1;
            }
        } else {
            let r = machine.rev_step_exec(steps, last_cycle, &self.ctrl, &self.io, &mut self.data);
            proof {
                assert(r is Ok);
            }
        }
        let ghost d2 = self.data@;
        self.sanitize();
        proof {
            let t = machine.trace;
            let st = steps as int;
            let df = self.data@;
            assert forall|c: int| 0 <= c < lc implies df[c] == exec_cell_fetch(t, c) by {
                assert(d2[c] == exec_cell_fetch(t, c));
                assert(df[c] == voz(d2[c]));
                crate::fp::lemma_fpv_valid(crate::circuit::wval(t, c));
            };
            assert forall|c: int| 0 <= c < lc implies df[st + c] == exec_cell_combine(t, c) by {
                assert(d2[st + c] == exec_cell_combine(t, c));
                assert(df[st + c] == voz(d2[st + c]));
                crate::fp::lemma_fpv_valid(
                    crate::circuit::wval(t, c) * (ctrl_cell(t.prog@, 0, c).repr as int)
                        + crate::circuit::exec_back(t, c),
                );
            };
            assert forall|i: int|
                0 <= i < df.len() && !(0 <= i < lc) && !(st <= i < st + lc) implies df[i] == (Fp {
                repr: 0u32 }) by {
                assert(d1[i] == d0[i]);
                assert(d2[i] == d0[i]);
                assert(d0[i] == (Fp { repr: INVALID_REPR }));
                assert(df[i] == voz(d2[i]));
            };
        }
        self.data.host_view()
    }
}

/// Sequential and parallel execution leave identical cells everywhere
/// outside the randomized masking rows.
pub proof fn lemma_mode_agreement(t: PreflightTrace, steps: int, d1: Seq<Fp>, d2: Seq<Fp>)
    requires
        steps >= 32,
        t.shaped(steps),
        witness_data_ok(t, steps, d1),
        witness_data_ok(t, steps, d2),
    ensures
        forall|i: int|
            0 <= i < DATA_SIZE * steps && i % steps < steps - ZK_CYCLES ==> #[trigger] d1[i]
                == d2[i],
{
    let lc = t.last_cycle();
    let last = steps - ZK_CYCLES;
    assert forall|i: int| 0 <= i < DATA_SIZE * steps && i % steps < last implies #[trigger] d1[i]
        == d2[i] by {
        vstd::arithmetic::div_mod::lemma_fundamental_div_mod(i, steps);
        vstd::arithmetic::div_mod::lemma_multiply_divide_lt(i, steps, 6);
        vstd::arithmetic::div_mod::lemma_div_pos_is_pos(i, steps);
        vstd::arithmetic::div_mod::lemma_mod_bound(i, steps);
        let col = i / steps;
        let c = i % steps;
        assert(i == steps * col + c);
        assert(0 <= col < 6);
        assert(i == col * steps + c) by (nonlinear_arith)
            requires
                i == steps * col + c,
        ;
        if col == 0 {
            assert(i == c) by (nonlinear_arith)
                requires
                    i == steps * col + c,
                    col == 0,
            ;
            if c < lc {
                assert(d1[c] == exec_cell_fetch(t, c) && d2[c] == exec_cell_fetch(t, c));
            } else {
                assert(d1[c] == (Fp { repr: 0u32 }) && d2[c] == (Fp { repr: 0u32 }));
            }
            assert(d1[i] == d2[i]);
        } else if col == 1 {
            assert(i == steps + c) by (nonlinear_arith)
                requires
                    i == steps * col + c,
                    col == 1,
            ;
            if c < lc {
                assert(d1[steps + c] == exec_cell_combine(t, c) && d2[steps + c]
                    == exec_cell_combine(t, c));
            } else {
                assert(d1[c] == (Fp { repr: 0u32 }) && d2[c] == (Fp { repr: 0u32 }));
                assert(d1[steps + c] == (Fp { repr: 0u32 }) && d2[steps + c] == (Fp {
                    repr: 0u32 }));
            }
            assert(d1[i] == d2[i]);
        } else if col == 2 {
            assert(i == 2 * steps + c) by (nonlinear_arith)
                requires
                    i == steps * col + c,
                    col == 2,
            ;
            assert(d1[2 * steps + c] == ram_cell_key(t, c) && d2[2 * steps + c] == ram_cell_key(
                t,
                c,
            ));
            assert(i == 2 * steps + c);
            assert(d1[i] == d2[i]);
        } else if col == 3 {
            assert(i == 3 * steps + c) by (nonlinear_arith)
                requires
                    i == steps * col + c,
                    col == 3,
            ;
            assert(d1[3 * steps + c] == ram_cell_diff(t, c) && d2[3 * steps + c] == ram_cell_diff(
                t,
                c,
            ));
            assert(i == 3 * steps + c);
            assert(d1[i] == d2[i]);
        } else if col == 4 {
            assert(i == 4 * steps + c) by (nonlinear_arith)
                requires
                    i == steps * col + c,
                    col == 4,
            ;
            assert(d1[4 * steps + c] == byte_cell_key(t, c) && d2[4 * steps + c] == byte_cell_key(
                t,
                c,
            ));
            assert(i == 4 * steps + c);
            assert(d1[i] == d2[i]);
        } else {
            assert(i == 5 * steps + c) by (nonlinear_arith)
                requires
                    i == steps * col + c,
                    col == 5,
            ;
            assert(d1[5 * steps + c] == byte_cell_pair(t, c) && d2[5 * steps + c]
                == byte_cell_pair(t, c));
            assert(i == 5 * steps + c);
            assert(d1[i] == d2[i]);
        }
        assert(d1[i] == d2[i]);
    };
}

/// Every control cell of the trailing masking rows is zero after
/// `execute`: the boot prologue ends before them and the noise pass
/// re-zeroes them.
pub proof fn lemma_ctrl_masking_rows_zero(t: PreflightTrace, steps: int, ctrl: Seq<Fp>)
    requires
        steps >= 32,
        t.shaped(steps),
        witness_ctrl_ok(t, steps, ctrl),
    ensures
        forall|i: int|
            (steps - ZK_CYCLES <= i < steps) || (2 * steps - ZK_CYCLES <= i < 2 * steps)
                ==> (#[trigger] ctrl[i]) == (Fp { repr: 0u32 }),
{
    assert forall|i: int|
        (steps - ZK_CYCLES <= i < steps) || (2 * steps - ZK_CYCLES <= i < 2 * steps) implies (
    #[trigger] ctrl[i]) == (Fp { repr: 0u32 }) by {
        if steps - ZK_CYCLES <= i < steps {
            assert(ctrl[i] == ctrl_cell(t.prog@, 0, i));
            assert(i >= t.last_cycle());
        } else {
            assert(ctrl[steps + (i - steps)] == ctrl_cell(t.prog@, 1, i - steps));
            assert(i - steps >= t.last_cycle());
        }
    };
}

/// Reverse stepping over the injected back cells, then sanitizing, yields
/// exactly the forward sequential result.
pub proof fn lemma_exec_order_independent(t: PreflightTrace, steps: int, d1: Seq<Fp>, d2: Seq<Fp>)
    requires
        steps >= 32,
        t.shaped(steps),
        exec_only_data_ok(t, steps, d1),
        exec_only_data_ok(t, steps, d2),
    ensures
        d1 == d2,
{
    let lc = t.last_cycle();
    assert forall|i: int| 0 <= i < d1.len() implies d1[i] == d2[i] by {
        if 0 <= i < lc {
            assert(d1[i] == exec_cell_fetch(t, i) && d2[i] == exec_cell_fetch(t, i));
        } else if steps <= i < steps + lc {
            assert(d1[steps + (i - steps)] == exec_cell_combine(t, i - steps));
            assert(d2[steps + (i - steps)] == exec_cell_combine(t, i - steps));
        } else {
            assert(d1[i] == (Fp { repr: 0u32 }) && d2[i] == (Fp { repr: 0u32 }));
        }
    };
    assert(d1 =~= d2);
}

} // verus!
