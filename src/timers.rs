//! One function per catalogued pass, starting the timing of that pass.

use crate::pass::Pass;
use crate::timing::{started, Timing, TimingToken};
use vstd::prelude::*;

verus! {

/// Starts timing the pass "Processing test file" at timestamp `now`.
pub fn process_file(acc: &mut Timing, now: u64) -> (tok: TimingToken)
    requires
        old(acc).wf(),
    ensures
        final(acc).wf(),
        started(*old(acc), *final(acc), tok, Pass::process_file, now),
        old(acc).balanced() ==> final(acc).balanced(),
{
    acc.start_pass(Pass::process_file, now)
}

/// Starts timing the pass "Parsing textual Cretonne IR" at timestamp `now`.
pub fn parse_text(acc: &mut Timing, now: u64) -> (tok: TimingToken)
    requires
        old(acc).wf(),
    ensures
        final(acc).wf(),
        started(*old(acc), *final(acc), tok, Pass::parse_text, now),
        old(acc).balanced() ==> final(acc).balanced(),
{
    acc.start_pass(Pass::parse_text, now)
}

/// Starts timing the pass "Translate WASM module" at timestamp `now`.
pub fn wasm_translate_module(acc: &mut Timing, now: u64) -> (tok: TimingToken)
    requires
        old(acc).wf(),
    ensures
        final(acc).wf(),
        started(*old(acc), *final(acc), tok, Pass::wasm_translate_module, now),
        old(acc).balanced() ==> final(acc).balanced(),
{
    acc.start_pass(Pass::wasm_translate_module, now)
}

/// Starts timing the pass "Translate WASM function" at timestamp `now`.
pub fn wasm_translate_function(acc: &mut Timing, now: u64) -> (tok: TimingToken)
    requires
        old(acc).wf(),
    ensures
        final(acc).wf(),
        started(*old(acc), *final(acc), tok, Pass::wasm_translate_function, now),
        old(acc).balanced() ==> final(acc).balanced(),
{
    acc.start_pass(Pass::wasm_translate_function, now)
}

/// Starts timing the pass "Verify Cretonne IR" at timestamp `now`.
pub fn verify_ir(acc: &mut Timing, now: u64) -> (tok: TimingToken)
    requires
        old(acc).wf(),
    ensures
        final(acc).wf(),
        started(*old(acc), *final(acc), tok, Pass::verify_ir, now),
        old(acc).balanced() ==> final(acc).balanced(),
{
    acc.start_pass(Pass::verify_ir, now)
}

/// Starts timing the pass "Verify CSSA" at timestamp `now`.
pub fn verify_cssa(acc: &mut Timing, now: u64) -> (tok: TimingToken)
    requires
        old(acc).wf(),
    ensures
        final(acc).wf(),
        started(*old(acc), *final(acc), tok, Pass::verify_cssa, now),
        old(acc).balanced() ==> final(acc).balanced(),
{
    acc.start_pass(Pass::verify_cssa, now)
}

/// Starts timing the pass "Verify live ranges" at timestamp `now`.
pub fn verify_liveness(acc: &mut Timing, now: u64) -> (tok: TimingToken)
    requires
        old(acc).wf(),
    ensures
        final(acc).wf(),
        started(*old(acc), *final(acc), tok, Pass::verify_liveness, now),
        old(acc).balanced() ==> final(acc).balanced(),
{
    acc.start_pass(Pass::verify_liveness, now)
}

/// Starts timing the pass "Verify value locations" at timestamp `now`.
pub fn verify_locations(acc: &mut Timing, now: u64) -> (tok: TimingToken)
    requires
        old(acc).wf(),
    ensures
        final(acc).wf(),
        started(*old(acc), *final(acc), tok, Pass::verify_locations, now),
        old(acc).balanced() ==> final(acc).balanced(),
{
    acc.start_pass(Pass::verify_locations, now)
}

/// Starts timing the pass "Verify CPU flags" at timestamp `now`.
pub fn verify_flags(acc: &mut Timing, now: u64) -> (tok: TimingToken)
    requires
        old(acc).wf(),
    ensures
        final(acc).wf(),
        started(*old(acc), *final(acc), tok, Pass::verify_flags, now),
        old(acc).balanced() ==> final(acc).balanced(),
{
    acc.start_pass(Pass::verify_flags, now)
}

/// Starts timing the pass "Compilation passes" at timestamp `now`.
pub fn compile(acc: &mut Timing, now: u64) -> (tok: TimingToken)
    requires
        old(acc).wf(),
    ensures
        final(acc).wf(),
        started(*old(acc), *final(acc), tok, Pass::compile, now),
        old(acc).balanced() ==> final(acc).balanced(),
{
    acc.start_pass(Pass::compile, now)
}

/// Starts timing the pass "Control flow graph" at timestamp `now`.
pub fn flowgraph(acc: &mut Timing, now: u64) -> (tok: TimingToken)
    requires
        old(acc).wf(),
    ensures
        final(acc).wf(),
        started(*old(acc), *final(acc), tok, Pass::flowgraph, now),
        old(acc).balanced() ==> final(acc).balanced(),
{
    acc.start_pass(Pass::flowgraph, now)
}

/// Starts timing the pass "Dominator tree" at timestamp `now`.
pub fn domtree(acc: &mut Timing, now: u64) -> (tok: TimingToken)
    requires
        old(acc).wf(),
    ensures
        final(acc).wf(),
        started(*old(acc), *final(acc), tok, Pass::domtree, now),
        old(acc).balanced() ==> final(acc).balanced(),
{
    acc.start_pass(Pass::domtree, now)
}

/// Starts timing the pass "Loop analysis" at timestamp `now`.
pub fn loop_analysis(acc: &mut Timing, now: u64) -> (tok: TimingToken)
    requires
        old(acc).wf(),
    ensures
        final(acc).wf(),
        started(*old(acc), *final(acc), tok, Pass::loop_analysis, now),
        old(acc).balanced() ==> final(acc).balanced(),
{
    acc.start_pass(Pass::loop_analysis, now)
}

/// Starts timing the pass "Post-legalization rewriting" at timestamp `now`.
pub fn postopt(acc: &mut Timing, now: u64) -> (tok: TimingToken)
    requires
        old(acc).wf(),
    ensures
        final(acc).wf(),
        started(*old(acc), *final(acc), tok, Pass::postopt, now),
        old(acc).balanced() ==> final(acc).balanced(),
{
    acc.start_pass(Pass::postopt, now)
}

/// Starts timing the pass "Pre-legalization rewriting" at timestamp `now`.
pub fn preopt(acc: &mut Timing, now: u64) -> (tok: TimingToken)
    requires
        old(acc).wf(),
    ensures
        final(acc).wf(),
        started(*old(acc), *final(acc), tok, Pass::preopt, now),
        old(acc).balanced() ==> final(acc).balanced(),
{
    acc.start_pass(Pass::preopt, now)
}

/// Starts timing the pass "Dead code elimination" at timestamp `now`.
pub fn dce(acc: &mut Timing, now: u64) -> (tok: TimingToken)
    requires
        old(acc).wf(),
    ensures
        final(acc).wf(),
        started(*old(acc), *final(acc), tok, Pass::dce, now),
        old(acc).balanced() ==> final(acc).balanced(),
{
    acc.start_pass(Pass::dce, now)
}

/// Starts timing the pass "Legalization" at timestamp `now`.
pub fn legalize(acc: &mut Timing, now: u64) -> (tok: TimingToken)
    requires
        old(acc).wf(),
    ensures
        final(acc).wf(),
        started(*old(acc), *final(acc), tok, Pass::legalize, now),
        old(acc).balanced() ==> final(acc).balanced(),
{
    acc.start_pass(Pass::legalize, now)
}

/// Starts timing the pass "Global value numbering" at timestamp `now`.
pub fn gvn(acc: &mut Timing, now: u64) -> (tok: TimingToken)
    requires
        old(acc).wf(),
    ensures
        final(acc).wf(),
        started(*old(acc), *final(acc), tok, Pass::gvn, now),
        old(acc).balanced() ==> final(acc).balanced(),
{
    acc.start_pass(Pass::gvn, now)
}

/// Starts timing the pass "Loop invariant code motion" at timestamp `now`.
pub fn licm(acc: &mut Timing, now: u64) -> (tok: TimingToken)
    requires
        old(acc).wf(),
    ensures
        final(acc).wf(),
        started(*old(acc), *final(acc), tok, Pass::licm, now),
        old(acc).balanced() ==> final(acc).balanced(),
{
    acc.start_pass(Pass::licm, now)
}

/// Starts timing the pass "Remove unreachable blocks" at timestamp `now`.
pub fn unreachable_code(acc: &mut Timing, now: u64) -> (tok: TimingToken)
    requires
        old(acc).wf(),
    ensures
        final(acc).wf(),
        started(*old(acc), *final(acc), tok, Pass::unreachable_code, now),
        old(acc).balanced() ==> final(acc).balanced(),
{
    acc.start_pass(Pass::unreachable_code, now)
}

/// Starts timing the pass "Register allocation" at timestamp `now`.
pub fn regalloc(acc: &mut Timing, now: u64) -> (tok: TimingToken)
    requires
        old(acc).wf(),
    ensures
        final(acc).wf(),
        started(*old(acc), *final(acc), tok, Pass::regalloc, now),
        old(acc).balanced() ==> final(acc).balanced(),
{
    acc.start_pass(Pass::regalloc, now)
}

/// Starts timing the pass "RA liveness analysis" at timestamp `now`.
pub fn ra_liveness(acc: &mut Timing, now: u64) -> (tok: TimingToken)
    requires
        old(acc).wf(),
    ensures
        final(acc).wf(),
        started(*old(acc), *final(acc), tok, Pass::ra_liveness, now),
        old(acc).balanced() ==> final(acc).balanced(),
{
    acc.start_pass(Pass::ra_liveness, now)
}

/// Starts timing the pass "RA coalescing CSSA" at timestamp `now`.
pub fn ra_cssa(acc: &mut Timing, now: u64) -> (tok: TimingToken)
    requires
        old(acc).wf(),
    ensures
        final(acc).wf(),
        started(*old(acc), *final(acc), tok, Pass::ra_cssa, now),
        old(acc).balanced() ==> final(acc).balanced(),
{
    acc.start_pass(Pass::ra_cssa, now)
}

/// Starts timing the pass "RA spilling" at timestamp `now`.
pub fn ra_spilling(acc: &mut Timing, now: u64) -> (tok: TimingToken)
    requires
        old(acc).wf(),
    ensures
        final(acc).wf(),
        started(*old(acc), *final(acc), tok, Pass::ra_spilling, now),
        old(acc).balanced() ==> final(acc).balanced(),
{
    acc.start_pass(Pass::ra_spilling, now)
}

/// Starts timing the pass "RA reloading" at timestamp `now`.
pub fn ra_reload(acc: &mut Timing, now: u64) -> (tok: TimingToken)
    requires
        old(acc).wf(),
    ensures
        final(acc).wf(),
        started(*old(acc), *final(acc), tok, Pass::ra_reload, now),
        old(acc).balanced() ==> final(acc).balanced(),
{
    acc.start_pass(Pass::ra_reload, now)
}

/// Starts timing the pass "RA coloring" at timestamp `now`.
pub fn ra_coloring(acc: &mut Timing, now: u64) -> (tok: TimingToken)
    requires
        old(acc).wf(),
    ensures
        final(acc).wf(),
        started(*old(acc), *final(acc), tok, Pass::ra_coloring, now),
        old(acc).balanced() ==> final(acc).balanced(),
{
    acc.start_pass(Pass::ra_coloring, now)
}

/// Starts timing the pass "Prologue/epilogue insertion" at timestamp `now`.
pub fn prologue_epilogue(acc: &mut Timing, now: u64) -> (tok: TimingToken)
    requires
        old(acc).wf(),
    ensures
        final(acc).wf(),
        started(*old(acc), *final(acc), tok, Pass::prologue_epilogue, now),
        old(acc).balanced() ==> final(acc).balanced(),
{
    acc.start_pass(Pass::prologue_epilogue, now)
}

/// Starts timing the pass "Binary machine code emission" at timestamp `now`.
pub fn binemit(acc: &mut Timing, now: u64) -> (tok: TimingToken)
    requires
        old(acc).wf(),
    ensures
        final(acc).wf(),
        started(*old(acc), *final(acc), tok, Pass::binemit, now),
        old(acc).balanced() ==> final(acc).balanced(),
{
    acc.start_pass(Pass::binemit, now)
}

/// Starts timing the pass "Layout full renumbering" at timestamp `now`.
pub fn layout_renumber(acc: &mut Timing, now: u64) -> (tok: TimingToken)
    requires
        old(acc).wf(),
    ensures
        final(acc).wf(),
        started(*old(acc), *final(acc), tok, Pass::layout_renumber, now),
        old(acc).balanced() ==> final(acc).balanced(),
{
    acc.start_pass(Pass::layout_renumber, now)
}

} // verus!
