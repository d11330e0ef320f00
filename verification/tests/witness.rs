//! Witness-generator scenarios: the three-pass pipeline, sequential versus
//! parallel stepping, reverse stepping, sorting, and the error cases.

use rand::rngs::StdRng;
use rand::SeedableRng;
use witcore::buffer::Buf;
use witcore::circuit::{PreflightTrace, BYTE_KEY_SPACE, RAM_KEY_SPACE, ZK_CYCLES};
use witcore::fp::{Fp, INVALID_REPR, P};
use witcore::loader::Loader;
use witcore::machine::{MachineContext, SortDomain, StepMode, WitgenError};
use witcore::witgen::WitnessGenerator;

fn fp(x: u32) -> Fp {
    Fp::new(x)
}

fn rng(seed: u64) -> StdRng {
    StdRng::seed_from_u64(seed)
}

/// A small consistent trace for `steps = 32`.
fn small_trace() -> PreflightTrace {
    let last = 32 - ZK_CYCLES;
    PreflightTrace {
        prog: vec![],
        words: vec![5],
        ram: (0..last as u32).rev().collect(),
        bytes: (0..last as u32).map(|i| (7 * i) % 256).collect(),
    }
}

#[test]
fn constructor_state() {
    let io = [Fp::invalid(), fp(3)];
    let w = WitnessGenerator::new(5, &io);
    assert_eq!(w.steps, 32);
    assert_eq!(w.ctrl.size(), 2 * 32);
    assert_eq!(w.data.size(), 6 * 32);
    for v in w.ctrl.host_view() {
        assert_eq!(v.repr, 0);
    }
    for v in w.data.host_view() {
        assert_eq!(v.repr, INVALID_REPR);
    }
    let iov = w.io.host_view();
    assert_eq!(iov[0].repr, INVALID_REPR);
    assert_eq!(iov[1], fp(3));
}

#[test]
fn loader_stamps_boot_prologue() {
    let steps = 32usize;
    let mut ctrl: Buf<Fp> = Buf::new_filled("ctrl", 2 * steps, Fp::new(0));
    let loader = Loader::new(steps);
    let prog: Vec<u32> = vec![7, 9];
    let last_cycle = loader.load(&mut ctrl, &prog);
    assert_eq!(last_cycle, 3);
    let v = ctrl.host_view();
    assert_eq!(v[0], fp(1));
    assert_eq!(v[1], fp(7));
    assert_eq!(v[2], fp(9));
    assert_eq!(v[3], fp(0));
    assert_eq!(v[steps], fp(0));
    assert_eq!(v[steps + 1], fp(1));
    assert_eq!(v[steps + 2], fp(1));
    assert_eq!(v[steps + 3], fp(0));
}

#[test]
fn sort_orders_keys() {
    let mut m = MachineContext::new(32, small_trace());
    assert!(m.sort(SortDomain::Ram).is_ok());
    assert!(m.sort(SortDomain::Bytes).is_ok());
    for i in 1..m.ram_sorted.len() {
        assert!(m.ram_sorted[i - 1] <= m.ram_sorted[i]);
    }
    let mut expect: Vec<u32> = small_trace().ram;
    expect.sort();
    assert_eq!(m.ram_sorted, expect);
    let mut eb: Vec<u32> = small_trace().bytes;
    eb.sort();
    assert_eq!(m.bytes_sorted, eb);
}

#[test]
fn execute_small_trace() {
    let steps = 32usize;
    let last = steps - ZK_CYCLES;
    let io = [Fp::invalid(), fp(3)];
    let mut w = WitnessGenerator::new(5, &io);
    let mut r = rng(42);
    let res = w.execute(small_trace(), &mut r, StepMode::Parallel);
    assert!(res.is_ok());

    let data = w.data.host_view();
    let ctrl = w.ctrl.host_view();
    let iov = w.io.host_view();

    // no invalid cell remains anywhere
    for v in data.iter() {
        assert!(v.repr < P);
    }
    for v in iov.iter() {
        assert!(v.repr < P);
    }
    // sanitized outputs
    assert_eq!(iov[0], fp(0));
    assert_eq!(iov[1], fp(3));
    // masking rows of the control columns are zero
    for c in last..steps {
        assert_eq!(ctrl[c], fp(0));
        assert_eq!(ctrl[steps + c], fp(0));
    }
    // the halt row carries the executed word, later exec rows are padding
    assert_eq!(data[0], fp(5));
    assert_eq!(data[steps], fp(5));
    for c in 1..last {
        assert_eq!(data[c], fp(0));
        assert_eq!(data[steps + c], fp(0));
    }
    // RAM columns: sorted keys and their differences
    let mut sorted_ram = small_trace().ram;
    sorted_ram.sort();
    for c in 0..last {
        assert_eq!(data[2 * steps + c], fp(sorted_ram[c]));
        let expect_diff = if c == 0 {
            sorted_ram[0]
        } else {
            sorted_ram[c] - sorted_ram[c - 1]
        };
        assert_eq!(data[3 * steps + c], fp(expect_diff));
    }
    // byte columns: sorted keys and predecessor pairs
    let mut sorted_bytes = small_trace().bytes;
    sorted_bytes.sort();
    for c in 0..last {
        assert_eq!(data[4 * steps + c], fp(sorted_bytes[c]));
        let expect_pair = if c == 0 {
            sorted_bytes[0]
        } else {
            sorted_bytes[c] + 256 * sorted_bytes[c - 1]
        };
        assert_eq!(data[5 * steps + c], fp(expect_pair));
    }
}

#[test]
fn sequential_and_parallel_agree() {
    let steps = 32usize;
    let last = steps - ZK_CYCLES;
    let io = [fp(1), fp(2)];
    let mut ws = WitnessGenerator::new(5, &io);
    let mut wp = WitnessGenerator::new(5, &io);
    let mut rs = rng(7);
    let mut rp = rng(7);
    assert!(ws.execute(small_trace(), &mut rs, StepMode::Sequential).is_ok());
    assert!(wp.execute(small_trace(), &mut rp, StepMode::Parallel).is_ok());
    let ds = ws.data.host_view();
    let dp = wp.data.host_view();
    for col in 0..6 {
        for c in 0..last {
            assert_eq!(ds[col * steps + c], dp[col * steps + c]);
        }
    }
    assert_eq!(ws.ctrl.host_view(), wp.ctrl.host_view());
    assert_eq!(ws.io.host_view(), wp.io.host_view());
}

#[test]
fn reverse_stepping_matches_forward() {
    let io = [fp(1)];
    let trace = PreflightTrace {
        prog: vec![11, 13, 17],
        words: vec![5, 6, 7, 8],
        ram: (0..28u32).collect(),
        bytes: (0..28u32).collect(),
    };
    let mut wf = WitnessGenerator::new(5, &io);
    let mut wr = WitnessGenerator::new(5, &io);
    let fwd = wf.test_step_execute(trace, true);
    let trace2 = PreflightTrace {
        prog: vec![11, 13, 17],
        words: vec![5, 6, 7, 8],
        ram: (0..28u32).collect(),
        bytes: (0..28u32).collect(),
    };
    let rev = wr.test_step_execute(trace2, false);
    assert_eq!(fwd, rev);
    // fetch column carries the words, combine column mixes in the back value
    assert_eq!(fwd[0], fp(5));
    assert_eq!(fwd[1], fp(6));
    assert_eq!(fwd[2], fp(7));
    assert_eq!(fwd[3], fp(8));
    // cycle 1: word·ctrl0 + back = 6·11 + 5
    assert_eq!(fwd[32 + 1], fp(6 * 11 + 5));
}

#[test]
fn bad_word_is_constraint_violation() {
    let mut t = small_trace();
    t.words = vec![P];
    let io = [fp(0)];
    let mut w = WitnessGenerator::new(5, &io);
    let mut r = rng(1);
    let res = w.execute(t, &mut r, StepMode::Sequential);
    assert_eq!(res, Err(WitgenError::TraceConstraintViolation));
}

#[test]
fn bad_ram_key_is_sort_error() {
    let mut t = small_trace();
    t.ram[3] = RAM_KEY_SPACE;
    let io = [fp(0)];
    let mut w = WitnessGenerator::new(5, &io);
    let mut r = rng(1);
    let res = w.execute(t, &mut r, StepMode::Parallel);
    assert_eq!(res, Err(WitgenError::SortKeyMalformed));
}

#[test]
fn bad_byte_key_is_sort_error() {
    let mut t = small_trace();
    t.bytes[0] = BYTE_KEY_SPACE;
    let io = [fp(0)];
    let mut w = WitnessGenerator::new(5, &io);
    let mut r = rng(1);
    let res = w.execute(t, &mut r, StepMode::Sequential);
    assert_eq!(res, Err(WitgenError::SortKeyMalformed));
}

#[test]
fn masking_rows_are_valid_field_elements() {
    // the trailing rows are randomized but always canonical residues,
    // across a range of trace sizes
    for po2 in 5..8usize {
        let steps = 1usize << po2;
        let last = steps - ZK_CYCLES;
        let t = PreflightTrace {
            prog: vec![],
            words: vec![1],
            ram: vec![0; last],
            bytes: vec![0; last],
        };
        let io = [fp(9)];
        let mut w = WitnessGenerator::new(po2, &io);
        let mut r = rng(po2 as u64);
        assert!(w.execute(t, &mut r, StepMode::Parallel).is_ok());
        let data = w.data.host_view();
        for col in 0..6 {
            for c in last..steps {
                assert!(data[col * steps + c].repr < P);
            }
        }
    }
}
