//! Machine context: the per-cycle step kernels, back-value injection, and
//! key-column sorting of the three witness passes.
//!
//! Each pass owns two data columns and obeys one discipline: a step at
//! `cycle` writes only row `cycle` of its own columns, and reads only the
//! pass's back cell at `cycle - 1`. The `inject_*_backs` pre-pass writes
//! every back cell with its final value, after which the steps of a pass may
//! run in any order and still produce the same columns.

use vstd::prelude::*;
use crate::buffer::Buf;
use crate::circuit::{
    byte_cell_key, byte_cell_pair, byte_key, ctrl_cell, exec_cell_combine, exec_cell_fetch,
    ram_cell_diff, ram_cell_key, ram_key, sorted_bytes, sorted_ram, wval, PreflightTrace,
    BYTE_KEY_SPACE, CTRL_SIZE, DATA_SIZE, RAM_KEY_SPACE, ZK_CYCLES,
};
use crate::fp::{Fp, P};
use crate::sort::{lemma_sort_preserves_bound, sort_keys};

verus! {

/// The two sort domains of the verify passes.
#[derive(Clone, Copy, Debug, PartialEq, Eq, Structural)]
pub enum SortDomain {
    Ram,
    Bytes,
}

/// Whether the passes step sequentially or with the inject-then-fan-out
/// pattern used for parallel dispatch.
#[derive(Clone, Copy, Debug, PartialEq, Eq, Structural)]
pub enum StepMode {
    Sequential,
    Parallel,
}

/// Failures of the witness pipeline; both are fatal for the proof attempt.
#[derive(Clone, Copy, Debug, PartialEq, Eq, Structural)]
pub enum WitgenError {
    /// A step kernel found the pre-flight trace inconsistent with the circuit.
    TraceConstraintViolation,
    /// A sort domain held keys outside its domain.
    SortKeyMalformed,
}

/// Per-proof stepping state: the pre-flight trace and the sorted key column
/// of each sort domain.
pub struct MachineContext {
    pub steps: usize,
    pub trace: PreflightTrace,
    pub ram_sorted: Vec<u32>,
    pub bytes_sorted: Vec<u32>,
}

impl MachineContext {
    /// The trace agrees with the trace length, which is large enough for
    /// the boot prologue and the masking rows.
    pub open spec fn wf(self) -> bool {
        &&& self.trace.shaped(self.steps as int)
        &&& self.steps >= 32
    }

    /// The RAM domain has been sorted and its keys are in range.
    pub open spec fn ram_ready(self) -> bool {
        &&& self.trace.ram_ok()
        &&& self.ram_sorted@ == sorted_ram(self.trace)
    }

    /// The byte domain has been sorted and its keys are in range.
    pub open spec fn bytes_ready(self) -> bool {
        &&& self.trace.bytes_ok()
        &&& self.bytes_sorted@ == sorted_bytes(self.trace)
    }

    pub fn new(steps: usize, trace: PreflightTrace) -> (r: MachineContext)
        ensures
            r.steps == steps,
            r.trace == trace,
            r.ram_sorted@.len() == 0,
            r.bytes_sorted@.len() == 0,
    {
        MachineContext { steps, trace, ram_sorted: Vec::new(), bytes_sorted: Vec::new() }
    }

    /// Sort one key domain, rejecting keys outside its value space.
    pub fn sort(&mut self, domain: SortDomain) -> (r: Result<(), WitgenError>)
        ensures
            final(self).steps == old(self).steps,
            final(self).trace == old(self).trace,
            domain is Ram ==> {
                &&& (r is Ok <==> old(self).trace.ram_ok())
                &&& (r is Ok ==> final(self).ram_ready())
                &&& final(self).bytes_sorted == old(self).bytes_sorted
                &&& (r is Err ==> r == Err::<(), WitgenError>(WitgenError::SortKeyMalformed)
                    && final(self).ram_sorted == old(self).ram_sorted)
            },
            domain is Bytes ==> {
                &&& (r is Ok <==> old(self).trace.bytes_ok())
                &&& (r is Ok ==> final(self).bytes_ready())
                &&& final(self).ram_sorted == old(self).ram_sorted
                &&& (r is Err ==> r == Err::<(), WitgenError>(WitgenError::SortKeyMalformed)
                    && final(self).bytes_sorted == old(self).bytes_sorted)
            },
    {
        match domain {
            SortDomain::Ram => {
                let mut keys: Vec<u32> = Vec::new();
                let mut i: usize = 0;
                let n: usize = self.trace.ram.len();
                while i < n
                    invariant
                        i <= n,
                        n == self.trace.ram@.len(),
                        self == old(self),
                        domain is Ram,
                        keys@ == self.trace.ram@.subrange(0, i as int),
                        forall|k: int| 0 <= k < i ==> self.trace.ram@[k] < RAM_KEY_SPACE,
                    decreases n - i,
                {
                    let key = self.trace.ram[i];
                    if key >= RAM_KEY_SPACE {
                        return Err(WitgenError::SortKeyMalformed);
                    }
                    keys.push(key);
                    proof {
                        assert(keys@ =~= self.trace.ram@.subrange(0, i + 1));
                    }
                    i += 1;
                }
                proof {
                    assert(keys@ =~= self.trace.ram@);
                }
                sort_keys(&mut keys);
                self.ram_sorted = keys;
                Ok(())
            },
            SortDomain::Bytes => {
                let mut keys: Vec<u32> = Vec::new();
                let mut i: usize = 0;
                let n: usize = self.trace.bytes.len();
                while i < n
                    invariant
                        i <= n,
                        n == self.trace.bytes@.len(),
                        self == old(self),
                        domain is Bytes,
                        keys@ == self.trace.bytes@.subrange(0, i as int),
                        forall|k: int| 0 <= k < i ==> self.trace.bytes@[k] < BYTE_KEY_SPACE,
                    decreases n - i,
                {
                    let key = self.trace.bytes[i];
                    if key >= BYTE_KEY_SPACE {
                        return Err(WitgenError::SortKeyMalformed);
                    }
                    keys.push(key);
                    proof {
                        assert(keys@ =~= self.trace.bytes@.subrange(0, i + 1));
                    }
                    i += 1;
                }
                proof {
                    assert(keys@ =~= self.trace.bytes@);
                }
                sort_keys(&mut keys);
                self.bytes_sorted = keys;
                Ok(())
            },
        }
    }

    /// Execute-pass kernel: writes the fetch and combine cells of one row.
    /// Fails when the cycle's execution word is not a canonical residue.
    #[allow(unused_variables)]
    pub fn step_exec(
        &self,
        steps: usize,
        cycle: usize,
        ctrl: &Buf<Fp>,
        io: &Buf<Fp>,
        data: &mut Buf<Fp>,
    ) -> (r: Result<(), WitgenError>)
        requires
            steps == self.steps,
            self.wf(),
            old(data)@.len() == DATA_SIZE * steps,
            ctrl@.len() == CTRL_SIZE * steps,
            cycle < self.trace.last_cycle(),
            ctrl@[cycle as int] == ctrl_cell(self.trace.prog@, 0, cycle as int),
            cycle > 0 ==> old(data)@[cycle - 1] == exec_cell_fetch(self.trace, cycle as int - 1),
        ensures
            r is Ok <==> self.trace.words@[cycle as int] < P,
            r is Ok ==> final(data)@ == old(data)@.update(
                cycle as int,
                exec_cell_fetch(self.trace, cycle as int),
            ).update(steps + cycle, exec_cell_combine(self.trace, cycle as int)),
            r is Err ==> final(data)@ == old(data)@ && r == Err::<(), WitgenError>(
                WitgenError::TraceConstraintViolation,
            ),
    {
        let n: usize = data.size();
        let w = self.trace.words[cycle];
        if w >= P {
            return Err(WitgenError::TraceConstraintViolation);
        }
        let wf = Fp::new(w);
        let c0 = ctrl.get_at(cycle);
        proof {
            vstd::arithmetic::div_mod::lemma_mod_bound(
                self.trace.prog@[cycle - 1] as int,
                P as int,
            );
        }
        let back = if cycle == 0 {
            Fp::zero()
        } else {
            data.get_at(cycle - 1)
        };
        proof {
            vstd::arithmetic::div_mod::lemma_mod_bound(wval(self.trace, cycle as int - 1), P as int);
        }
        let combine = wf.mul(c0).add(back);
        proof {
            let p = P as int;
            let a = (w as int) * (c0.repr as int);
            let b = back.repr as int;
            vstd::arithmetic::div_mod::lemma_add_mod_noop_right(b, a, p);
            assert((b + a % p) % p == (b + a) % p);
            assert(combine == exec_cell_combine(self.trace, cycle as int));
        }
        data.set_at(cycle, wf);
        data.set_at(steps + cycle, combine);
        proof {
            vstd::arithmetic::div_mod::lemma_small_mod(w as nat, P as nat);
        }
        Ok(())
    }

    /// Pre-populate the back cell that `step_exec` at `cycle` reads with its
    /// final value, straight from the trace.
    pub fn inject_exec_backs(&self, steps: usize, cycle: usize, data: &mut Buf<Fp>)
        requires
            steps == self.steps,
            self.wf(),
            old(data)@.len() == DATA_SIZE * steps,
            cycle < self.trace.last_cycle(),
        ensures
            cycle > 0 ==> final(data)@ == old(data)@.update(
                cycle - 1,
                exec_cell_fetch(self.trace, cycle as int - 1),
            ),
            cycle == 0 ==> final(data)@ == old(data)@,
    {
        let n: usize = data.size();
        if cycle > 0 {
            let w = self.trace.words[cycle - 1] % P;
            data.set_at(cycle - 1, Fp::new(w));
        }
    }

    /// Fan-out of `step_exec` over `[0, last_cycle)`: with the back cells
    /// injected, it yields exactly the columns of the sequential loop.
    #[allow(unused_variables)]
    pub fn par_step_exec(
        &self,
        steps: usize,
        last_cycle: usize,
        ctrl: &Buf<Fp>,
        io: &Buf<Fp>,
        data: &mut Buf<Fp>,
    ) -> (r: Result<(), WitgenError>)
        requires
            steps == self.steps,
            self.wf(),
            last_cycle == self.trace.last_cycle(),
            old(data)@.len() == DATA_SIZE * steps,
            ctrl@.len() == CTRL_SIZE * steps,
            forall|c: int| 0 <= c < steps ==> ctrl@[c] == ctrl_cell(self.trace.prog@, 0, c),
            forall|c: int|
                0 <= c < last_cycle - 1 ==> old(data)@[c] == exec_cell_fetch(self.trace, c),
        ensures
            final(data)@.len() == old(data)@.len(),
            r is Ok <==> self.trace.words_ok(),
            r is Err ==> r == Err::<(), WitgenError>(WitgenError::TraceConstraintViolation),
            r is Ok ==> forall|c: int|
                0 <= c < last_cycle ==> final(data)@[c] == exec_cell_fetch(self.trace, c)
                    && final(data)@[steps + c] == exec_cell_combine(self.trace, c),
            forall|i: int|
                0 <= i < old(data)@.len() && !(0 <= i < last_cycle) && !(steps <= i < steps
                    + last_cycle) ==> final(data)@[i] == old(data)@[i],
    {
        let n: usize = data.size();
        let ghost d0 = data@;
        let mut cycle: usize = 0;
        while cycle < last_cycle
            invariant
                cycle <= last_cycle,
                steps == self.steps,
                self.wf(),
                last_cycle == self.trace.last_cycle(),
                data@.len() == DATA_SIZE * steps,
                d0.len() == data@.len(),
                d0 == old(data)@,
                ctrl@.len() == CTRL_SIZE * steps,
                forall|c: int| 0 <= c < steps ==> ctrl@[c] == ctrl_cell(self.trace.prog@, 0, c),
                forall|c: int|
                    0 <= c < last_cycle - 1 ==> data@[c] == exec_cell_fetch(self.trace, c),
                forall|c: int| 0 <= c < cycle ==> data@[c] == exec_cell_fetch(self.trace, c),
                forall|c: int|
                    0 <= c < cycle ==> data@[steps + c] == exec_cell_combine(self.trace, c),
                forall|c: int| 0 <= c < cycle ==> self.trace.words@[c] < P,
                forall|i: int|
                    0 <= i < d0.len() && !(0 <= i < last_cycle) && !(steps <= i < steps + cycle)
                        ==> data@[i] == d0[i],
            decreases last_cycle - cycle,
        {
            let r = self.step_exec(steps, cycle, ctrl, io, data);
            if r.is_err() {
                return Err(WitgenError::TraceConstraintViolation);
            }
            cycle += 1;
        }
        Ok(())
    }

    /// Reverse-order stepping over `[0, last_cycle)`; the oracle that shows
    /// the injected back cells decouple the rows.
    #[allow(unused_variables)]
    pub fn rev_step_exec(
        &self,
        steps: usize,
        last_cycle: usize,
        ctrl: &Buf<Fp>,
        io: &Buf<Fp>,
        data: &mut Buf<Fp>,
    ) -> (r: Result<(), WitgenError>)
        requires
            steps == self.steps,
            self.wf(),
            last_cycle == self.trace.last_cycle(),
            old(data)@.len() == DATA_SIZE * steps,
            ctrl@.len() == CTRL_SIZE * steps,
            forall|c: int| 0 <= c < steps ==> ctrl@[c] == ctrl_cell(self.trace.prog@, 0, c),
            forall|c: int|
                0 <= c < last_cycle - 1 ==> old(data)@[c] == exec_cell_fetch(self.trace, c),
        ensures
            final(data)@.len() == old(data)@.len(),
            r is Ok <==> self.trace.words_ok(),
            r is Err ==> r == Err::<(), WitgenError>(WitgenError::TraceConstraintViolation),
            r is Ok ==> forall|c: int|
                0 <= c < last_cycle ==> final(data)@[c] == exec_cell_fetch(self.trace, c)
                    && final(data)@[steps + c] == exec_cell_combine(self.trace, c),
            forall|i: int|
                0 <= i < old(data)@.len() && !(0 <= i < last_cycle) && !(steps <= i < steps
                    + last_cycle) ==> final(data)@[i] == old(data)@[i],
    {
        let n: usize = data.size();
        let ghost d0 = data@;
        let mut remaining: usize = last_cycle;
        while remaining > 0
            invariant
                remaining <= last_cycle,
                steps == self.steps,
                self.wf(),
                last_cycle == self.trace.last_cycle(),
                data@.len() == DATA_SIZE * steps,
                d0.len() == data@.len(),
                d0 == old(data)@,
                ctrl@.len() == CTRL_SIZE * steps,
                forall|c: int| 0 <= c < steps ==> ctrl@[c] == ctrl_cell(self.trace.prog@, 0, c),
                forall|c: int|
                    0 <= c < last_cycle - 1 ==> data@[c] == exec_cell_fetch(self.trace, c),
                forall|c: int|
                    remaining <= c < last_cycle ==> data@[c] == exec_cell_fetch(self.trace, c),
                forall|c: int|
                    remaining <= c < last_cycle ==> data@[steps + c] == exec_cell_combine(
                        self.trace,
                        c,
                    ),
                forall|c: int| remaining <= c < last_cycle ==> self.trace.words@[c] < P,
                forall|i: int|
                    0 <= i < d0.len() && !(0 <= i < last_cycle) && !(steps + remaining <= i < steps
                        + last_cycle) ==> data@[i] == d0[i],
            decreases remaining,
        {
            let cycle = remaining - 1;
            let r = self.step_exec(steps, cycle, ctrl, io, data);
            if r.is_err() {
                return Err(WitgenError::TraceConstraintViolation);
            }
            remaining = cycle;
        }
        Ok(())
    }

    /// Verify-RAM kernel: writes the sorted key and its difference to the
    /// previous key, read from the back cell.
    #[allow(unused_variables)]
    pub fn step_verify_mem(
        &self,
        steps: usize,
        cycle: usize,
        ctrl: &Buf<Fp>,
        io: &Buf<Fp>,
        data: &mut Buf<Fp>,
    ) -> (r: Result<(), WitgenError>)
        requires
            steps == self.steps,
            self.wf(),
            self.ram_ready(),
            old(data)@.len() == DATA_SIZE * steps,
            cycle < steps - ZK_CYCLES,
            cycle > 0 ==> old(data)@[2 * steps + cycle - 1] == ram_cell_key(
                self.trace,
                cycle as int - 1,
            ),
        ensures
            r is Ok,
            final(data)@ == old(data)@.update(
                2 * steps + cycle,
                ram_cell_key(self.trace, cycle as int),
            ).update(3 * steps + cycle, ram_cell_diff(self.trace, cycle as int)),
    {
        let n: usize = data.size();
        proof {
            lemma_sort_preserves_bound(self.trace.ram@, RAM_KEY_SPACE);
            vstd::arithmetic::div_mod::lemma_small_mod(
                ram_key(self.trace, cycle as int) as nat,
                P as nat,
            );
            if cycle > 0 {
                vstd::arithmetic::div_mod::lemma_small_mod(
                    ram_key(self.trace, cycle as int - 1) as nat,
                    P as nat,
                );
            }
        }
        let key = Fp::new(self.ram_sorted[cycle]);
        let diff = if cycle == 0 {
            key
        } else {
            let back = data.get_at(2 * steps + cycle - 1);
            key.sub(back)
        };
        data.set_at(2 * steps + cycle, key);
        data.set_at(3 * steps + cycle, diff);
        Ok(())
    }

    /// Pre-populate the back cell that `step_verify_mem` at `cycle` reads.
    pub fn inject_verify_mem_backs(&self, steps: usize, cycle: usize, data: &mut Buf<Fp>) -> (r:
        Result<(), WitgenError>)
        requires
            steps == self.steps,
            self.wf(),
            self.ram_ready(),
            old(data)@.len() == DATA_SIZE * steps,
            cycle < steps - ZK_CYCLES,
        ensures
            r is Ok,
            cycle > 0 ==> final(data)@ == old(data)@.update(
                2 * steps + cycle - 1,
                ram_cell_key(self.trace, cycle as int - 1),
            ),
            cycle == 0 ==> final(data)@ == old(data)@,
    {
        let n: usize = data.size();
        if cycle > 0 {
            proof {
                lemma_sort_preserves_bound(self.trace.ram@, RAM_KEY_SPACE);
                vstd::arithmetic::div_mod::lemma_small_mod(
                    ram_key(self.trace, cycle as int - 1) as nat,
                    P as nat,
                );
            }
            let key = Fp::new(self.ram_sorted[cycle - 1]);
            data.set_at(2 * steps + cycle - 1, key);
        }
        Ok(())
    }

    /// Fan-out of `step_verify_mem` over `[0, last_cycle)` after injection.
    #[allow(unused_variables)]
    pub fn par_step_verify_mem(
        &self,
        steps: usize,
        last_cycle: usize,
        ctrl: &Buf<Fp>,
        io: &Buf<Fp>,
        data: &mut Buf<Fp>,
    ) -> (r: Result<(), WitgenError>)
        requires
            steps == self.steps,
            self.wf(),
            self.ram_ready(),
            last_cycle == steps - ZK_CYCLES,
            old(data)@.len() == DATA_SIZE * steps,
            forall|c: int|
                0 <= c < last_cycle - 1 ==> old(data)@[2 * steps + c] == ram_cell_key(
                    self.trace,
                    c,
                ),
        ensures
            r is Ok,
            final(data)@.len() == old(data)@.len(),
            forall|c: int|
                0 <= c < last_cycle ==> final(data)@[2 * steps + c] == ram_cell_key(self.trace, c)
                    && final(data)@[3 * steps + c] == ram_cell_diff(self.trace, c),
            forall|i: int|
                0 <= i < old(data)@.len() && !(2 * steps <= i < 2 * steps + last_cycle) && !(3
                    * steps <= i < 3 * steps + last_cycle) ==> final(data)@[i] == old(data)@[i],
    {
        let n: usize = data.size();
        let ghost d0 = data@;
        let mut cycle: usize = 0;
        while cycle < last_cycle
            invariant
                cycle <= last_cycle,
                steps == self.steps,
                self.wf(),
                self.ram_ready(),
                last_cycle == steps - ZK_CYCLES,
                data@.len() == DATA_SIZE * steps,
                d0.len() == data@.len(),
                d0 == old(data)@,
                forall|c: int|
                    0 <= c < last_cycle - 1 ==> data@[2 * steps + c] == ram_cell_key(self.trace, c),
                forall|c: int|
                    0 <= c < cycle ==> data@[2 * steps + c] == ram_cell_key(self.trace, c),
                forall|c: int|
                    0 <= c < cycle ==> data@[3 * steps + c] == ram_cell_diff(self.trace, c),
                forall|i: int|
                    0 <= i < d0.len() && !(2 * steps <= i < 2 * steps + last_cycle) && !(3 * steps
                        <= i < 3 * steps + cycle) ==> data@[i] == d0[i],
            decreases last_cycle - cycle,
        {
            let r = self.step_verify_mem(steps, cycle, ctrl, io, data);
            if r.is_err() {
                return Err(WitgenError::TraceConstraintViolation);
            }
            cycle += 1;
        }
        Ok(())
    }

    /// Verify-bytes kernel: writes the sorted byte key and the pair cell
    /// packing it with its predecessor, read from the back cell.
    #[allow(unused_variables)]
    pub fn step_verify_bytes(
        &self,
        steps: usize,
        cycle: usize,
        ctrl: &Buf<Fp>,
        io: &Buf<Fp>,
        data: &mut Buf<Fp>,
    ) -> (r: Result<(), WitgenError>)
        requires
            steps == self.steps,
            self.wf(),
            self.bytes_ready(),
            old(data)@.len() == DATA_SIZE * steps,
            cycle < steps - ZK_CYCLES,
            cycle > 0 ==> old(data)@[4 * steps + cycle - 1] == byte_cell_key(
                self.trace,
                cycle as int - 1,
            ),
        ensures
            r is Ok,
            final(data)@ == old(data)@.update(
                4 * steps + cycle,
                byte_cell_key(self.trace, cycle as int),
            ).update(5 * steps + cycle, byte_cell_pair(self.trace, cycle as int)),
    {
        let n: usize = data.size();
        proof {
            lemma_sort_preserves_bound(self.trace.bytes@, BYTE_KEY_SPACE);
            vstd::arithmetic::div_mod::lemma_small_mod(
                byte_key(self.trace, cycle as int) as nat,
                P as nat,
            );
            if cycle > 0 {
                vstd::arithmetic::div_mod::lemma_small_mod(
                    byte_key(self.trace, cycle as int - 1) as nat,
                    P as nat,
                );
                vstd::arithmetic::div_mod::lemma_small_mod(
                    (byte_key(self.trace, cycle as int) + 256 * byte_key(
                        self.trace,
                        cycle as int - 1,
                    )) as nat,
                    P as nat,
                );
            }
        }
        let key = Fp::new(self.bytes_sorted[cycle]);
        let pair = if cycle == 0 {
            key
        } else {
            let back = data.get_at(4 * steps + cycle - 1);
            Fp::new(key.repr + 256 * back.repr)
        };
        data.set_at(4 * steps + cycle, key);
        data.set_at(5 * steps + cycle, pair);
        Ok(())
    }

    /// Pre-populate the back cell that `step_verify_bytes` at `cycle` reads.
    pub fn inject_verify_bytes_backs(&self, steps: usize, cycle: usize, data: &mut Buf<Fp>) -> (r:
        Result<(), WitgenError>)
        requires
            steps == self.steps,
            self.wf(),
            self.bytes_ready(),
            old(data)@.len() == DATA_SIZE * steps,
            cycle < steps - ZK_CYCLES,
        ensures
            r is Ok,
            cycle > 0 ==> final(data)@ == old(data)@.update(
                4 * steps + cycle - 1,
                byte_cell_key(self.trace, cycle as int - 1),
            ),
            cycle == 0 ==> final(data)@ == old(data)@,
    {
        let n: usize = data.size();
        if cycle > 0 {
            proof {
                lemma_sort_preserves_bound(self.trace.bytes@, BYTE_KEY_SPACE);
                vstd::arithmetic::div_mod::lemma_small_mod(
                    byte_key(self.trace, cycle as int - 1) as nat,
                    P as nat,
                );
            }
            let key = Fp::new(self.bytes_sorted[cycle - 1]);
            data.set_at(4 * steps + cycle - 1, key);
        }
        Ok(())
    }
}

} // verus!
