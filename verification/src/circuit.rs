//! Circuit descriptor: column counts, key domains, and the per-cell
//! reference semantics of the witness.
//!
//! The witness is laid out column-major: cell `(j, c)` of a column group
//! lives at flat index `j * steps + c`. The control group has `CTRL_SIZE`
//! columns, the data group `DATA_SIZE`. The three passes own disjoint data
//! columns: execute writes the fetch and combine columns, verify-RAM the two
//! RAM columns, verify-bytes the two byte columns.

use vstd::prelude::*;
use crate::fp::{Fp, fpv, P};

verus! {

/// Trailing cycles reserved for zero-knowledge masking.
pub const ZK_CYCLES: usize = 4;

/// Number of control columns.
pub const CTRL_SIZE: usize = 2;

/// Number of data columns.
pub const DATA_SIZE: usize = 6;

/// Smallest supported log2 of the trace length.
pub const MIN_PO2: usize = 5;

/// 2-adicity of the field: every NTT size must stay below this.
pub const MAX_ROU_PO2: usize = 27;

/// RAM sort keys live in `[0, RAM_KEY_SPACE)`.
pub const RAM_KEY_SPACE: u32 = 0x0400_0000;

/// Byte-lookup sort keys live in `[0, BYTE_KEY_SPACE)`.
pub const BYTE_KEY_SPACE: u32 = 256;

/// Data column indices.
pub const COL_FETCH: usize = 0;

/// Data column written by the execute pass from the fetch column's back cell.
pub const COL_COMBINE: usize = 1;

/// Data column holding the sorted RAM keys.
pub const COL_RAM_KEY: usize = 2;

/// Data column holding consecutive RAM key differences.
pub const COL_RAM_DIFF: usize = 3;

/// Data column holding the sorted byte keys.
pub const COL_BYTE_KEY: usize = 4;

/// Data column pairing each byte key with its predecessor.
pub const COL_BYTE_PAIR: usize = 5;

/// A read-only record of the guest's concrete execution, sufficient to
/// derive every row of the witness deterministically.
pub struct PreflightTrace {
    /// Boot image stamped into the control columns by the loader.
    pub prog: Vec<u32>,
    /// Per-cycle execution record for the execute pass.
    pub words: Vec<u32>,
    /// Memory-access keys, one per witness cycle, for the verify-RAM pass.
    pub ram: Vec<u32>,
    /// Byte-lookup keys, one per witness cycle, for the verify-bytes pass.
    pub bytes: Vec<u32>,
}

impl PreflightTrace {
    /// First cycle that is not part of the boot prologue.
    pub open spec fn last_cycle(self) -> int {
        1 + self.prog@.len() as int
    }

    /// The trace agrees with the chosen trace length.
    pub open spec fn shaped(self, steps: int) -> bool {
        &&& self.words@.len() == self.last_cycle()
        &&& self.last_cycle() <= steps - ZK_CYCLES
        &&& self.ram@.len() == steps - ZK_CYCLES
        &&& self.bytes@.len() == steps - ZK_CYCLES
    }

    /// Every boot word is a canonical field residue.
    pub open spec fn prog_ok(self) -> bool {
        forall|i: int| 0 <= i < self.prog@.len() ==> self.prog@[i] < P
    }

    /// Every execution word is a canonical field residue.
    pub open spec fn words_ok(self) -> bool {
        forall|i: int| 0 <= i < self.words@.len() ==> self.words@[i] < P
    }

    /// Every RAM key lies in its domain.
    pub open spec fn ram_ok(self) -> bool {
        forall|i: int| 0 <= i < self.ram@.len() ==> self.ram@[i] < RAM_KEY_SPACE
    }

    /// Every byte key lies in its domain.
    pub open spec fn bytes_ok(self) -> bool {
        forall|i: int| 0 <= i < self.bytes@.len() ==> self.bytes@[i] < BYTE_KEY_SPACE
    }
}

/// `valid_or_zero` at the specification level.
pub open spec fn voz(f: Fp) -> Fp {
    if f.is_valid() {
        f
    } else {
        Fp { repr: 0u32 }
    }
}

/// The ordering the sort domains are sorted by.
pub open spec fn key_le() -> spec_fn(u32, u32) -> bool {
    |x: u32, y: u32| x <= y
}

/// `key_le` is a total ordering, as the sort lemmas require.
pub proof fn lemma_key_le_total()
    ensures
        vstd::relations::total_ordering(key_le()),
{
}

/// The RAM keys in sorted order.
pub open spec fn sorted_ram(t: PreflightTrace) -> Seq<u32> {
    t.ram@.sort_by(key_le())
}

/// The byte keys in sorted order.
pub open spec fn sorted_bytes(t: PreflightTrace) -> Seq<u32> {
    t.bytes@.sort_by(key_le())
}

/// Control cell `(j, c)`: cycle 0 is the reset vector, cycles
/// `[1, 1 + prog.len())` the memory-init sequence, everything later zero.
pub open spec fn ctrl_cell(prog: Seq<u32>, j: int, c: int) -> Fp {
    if c == 0 {
        if j == 0 {
            Fp { repr: 1u32 }
        } else {
            Fp { repr: 0u32 }
        }
    } else if 1 <= c && c < 1 + prog.len() {
        if j == 0 {
            fpv(prog[c - 1] as int)
        } else {
            Fp { repr: 1u32 }
        }
    } else {
        Fp { repr: 0u32 }
    }
}

/// The execution word of cycle `c`.
pub open spec fn wval(t: PreflightTrace, c: int) -> int {
    t.words@[c] as int
}

/// Fetch cell of cycle `c`: the cycle's execution word as a field element.
pub open spec fn exec_cell_fetch(t: PreflightTrace, c: int) -> Fp {
    fpv(wval(t, c))
}

/// The back value the combine cell reads: the previous fetch cell, or zero
/// at cycle 0.
pub open spec fn exec_back(t: PreflightTrace, c: int) -> int {
    if c == 0 {
        0
    } else {
        exec_cell_fetch(t, c - 1).repr as int
    }
}

/// Combine cell of cycle `c`: the word scaled by the first control column,
/// plus the back value.
pub open spec fn exec_cell_combine(t: PreflightTrace, c: int) -> Fp {
    fpv(wval(t, c) * (ctrl_cell(t.prog@, 0, c).repr as int) + exec_back(t, c))
}

/// Sorted RAM key of witness cycle `c`.
pub open spec fn ram_key(t: PreflightTrace, c: int) -> int {
    sorted_ram(t)[c] as int
}

/// RAM key cell.
pub open spec fn ram_cell_key(t: PreflightTrace, c: int) -> Fp {
    fpv(ram_key(t, c))
}

/// RAM difference cell: the key at cycle 0, afterwards the difference to the
/// previous key (non-negative because the keys are sorted).
pub open spec fn ram_cell_diff(t: PreflightTrace, c: int) -> Fp {
    if c == 0 {
        fpv(ram_key(t, 0))
    } else {
        fpv(ram_key(t, c) - ram_key(t, c - 1))
    }
}

/// Sorted byte key of witness cycle `c`.
pub open spec fn byte_key(t: PreflightTrace, c: int) -> int {
    sorted_bytes(t)[c] as int
}

/// Byte key cell.
pub open spec fn byte_cell_key(t: PreflightTrace, c: int) -> Fp {
    fpv(byte_key(t, c))
}

/// Byte pair cell: the key at cycle 0, afterwards the key packed with its
/// predecessor (which the kernel reads from the back cell).
pub open spec fn byte_cell_pair(t: PreflightTrace, c: int) -> Fp {
    if c == 0 {
        fpv(byte_key(t, 0))
    } else {
        fpv(byte_key(t, c) + 256 * byte_key(t, c - 1))
    }
}

} // verus!
