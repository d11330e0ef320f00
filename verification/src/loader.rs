//! Loader: stamps the bootstrap program into the control columns.

use vstd::prelude::*;
use crate::buffer::Buf;
use crate::circuit::{ctrl_cell, CTRL_SIZE, ZK_CYCLES};
use crate::fp::{Fp, P};

verus! {

/// Writes the boot prologue — the reset vector at cycle 0 and the
/// memory-init sequence after it — and reports where it ends.
pub struct Loader {
    pub steps: usize,
}

impl Loader {
    /// A loader for a trace of `steps` cycles.
    pub fn new(steps: usize) -> (r: Loader)
        ensures
            r.steps == steps,
    {
        Loader { steps }
    }

    /// Stamp `ctrl` with the boot program and return the first cycle that is
    /// not part of the boot prologue.
    pub fn load(&self, ctrl: &mut Buf<Fp>, prog: &Vec<u32>) -> (last_cycle: usize)
        requires
            old(ctrl)@.len() == CTRL_SIZE * self.steps,
            1 + prog@.len() <= self.steps - ZK_CYCLES,
            ZK_CYCLES <= self.steps,
            forall|i: int| 0 <= i < old(ctrl)@.len() ==> old(ctrl)@[i] == (Fp { repr: 0u32 }),
        ensures
            last_cycle == 1 + prog@.len(),
            final(ctrl)@.len() == CTRL_SIZE * self.steps,
            forall|c: int|
                0 <= c < self.steps ==> final(ctrl)@[c] == ctrl_cell(prog@, 0, c),
            forall|c: int|
                0 <= c < self.steps ==> final(ctrl)@[self.steps + c] == ctrl_cell(prog@, 1, c),
    {
        let steps = self.steps;
        let n: usize = ctrl.size();
        ctrl.set_at(0, Fp::one());
        let mut c: usize = 1;
        let last_cycle: usize = 1 + prog.len();
        while c < last_cycle
            invariant
                1 <= c <= last_cycle,
                last_cycle == 1 + prog@.len(),
                last_cycle <= steps - ZK_CYCLES,
                ZK_CYCLES <= steps,
                n == CTRL_SIZE * steps,
                ctrl@.len() == CTRL_SIZE * steps,
                forall|k: int| 0 <= k < c ==> ctrl@[k] == ctrl_cell(prog@, 0, k),
                forall|k: int| steps + 1 <= k < steps + c ==> ctrl@[k] == ctrl_cell(
                    prog@,
                    1,
                    k - steps,
                ),
                forall|i: int|
                    0 <= i < ctrl@.len() && c <= i && !(steps + 1 <= i < steps + c) ==> ctrl@[i]
                        == (Fp { repr: 0u32 }),
            decreases last_cycle - c,
        {
            let w = prog[c - 1] % P;
            ctrl.set_at(c, Fp::new(w));
            ctrl.set_at(steps + c, Fp::one());
            c += 1;
        }
        proof {
            assert forall|k: int| 0 <= k < steps implies ctrl@[steps + k] == ctrl_cell(
                prog@,
                1,
                k,
            ) by {
                if k == 0 {
                } else if k < last_cycle {
                } else {
                    assert(ctrl@[steps + k] == (Fp { repr: 0u32 }));
                }
            };
        }
        last_cycle
    }
}

} // verus!
