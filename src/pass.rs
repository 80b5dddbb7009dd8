//! The catalogue of timed compilation passes.

use vstd::prelude::*;

verus! {

/// Number of passes in the catalogue (the sentinel `Pass::NoPass` excluded).
pub const NUM_PASSES: usize = 29;

/// A compilation pass whose running time can be measured, or `NoPass` when no pass is active.
#[allow(non_camel_case_types)]
#[derive(Clone, Copy, Debug, PartialEq, Eq, Structural)]
pub enum Pass {
    /// Processing test file
    process_file,
    /// Parsing textual Cretonne IR
    parse_text,
    /// Translate WASM module
    wasm_translate_module,
    /// Translate WASM function
    wasm_translate_function,
    /// Verify Cretonne IR
    verify_ir,
    /// Verify CSSA
    verify_cssa,
    /// Verify live ranges
    verify_liveness,
    /// Verify value locations
    verify_locations,
    /// Verify CPU flags
    verify_flags,
    /// Compilation passes
    compile,
    /// Control flow graph
    flowgraph,
    /// Dominator tree
    domtree,
    /// Loop analysis
    loop_analysis,
    /// Post-legalization rewriting
    postopt,
    /// Pre-legalization rewriting
    preopt,
    /// Dead code elimination
    dce,
    /// Legalization
    legalize,
    /// Global value numbering
    gvn,
    /// Loop invariant code motion
    licm,
    /// Remove unreachable blocks
    unreachable_code,
    /// Register allocation
    regalloc,
    /// RA liveness analysis
    ra_liveness,
    /// RA coalescing CSSA
    ra_cssa,
    /// RA spilling
    ra_spilling,
    /// RA reloading
    ra_reload,
    /// RA coloring
    ra_coloring,
    /// Prologue/epilogue insertion
    prologue_epilogue,
    /// Binary machine code emission
    binemit,
    /// Layout full renumbering
    layout_renumber,
    /// No pass is active.
    NoPass,
}

/// Description shown for an index outside the catalogue.
pub open spec fn no_pass_description() -> Seq<char> {
    "<no pass>"@
}

/// The description of the pass at position `i` of the catalogue.
#[verifier::opaque]
pub open spec fn pass_description(i: nat) -> Seq<char> {
    if i == 0 {
        "Processing test file"@
    }
    else if i == 1 {
        "Parsing textual Cretonne IR"@
    }
    else if i == 2 {
        "Translate WASM module"@
    }
    else if i == 3 {
        "Translate WASM function"@
    }
    else if i == 4 {
        "Verify Cretonne IR"@
    }
    else if i == 5 {
        "Verify CSSA"@
    }
    else if i == 6 {
        "Verify live ranges"@
    }
    else if i == 7 {
        "Verify value locations"@
    }
    else if i == 8 {
        "Verify CPU flags"@
    }
    else if i == 9 {
        "Compilation passes"@
    }
    else if i == 10 {
        "Control flow graph"@
    }
    else if i == 11 {
        "Dominator tree"@
    }
    else if i == 12 {
        "Loop analysis"@
    }
    else if i == 13 {
        "Post-legalization rewriting"@
    }
    else if i == 14 {
        "Pre-legalization rewriting"@
    }
    else if i == 15 {
        "Dead code elimination"@
    }
    else if i == 16 {
        "Legalization"@
    }
    else if i == 17 {
        "Global value numbering"@
    }
    else if i == 18 {
        "Loop invariant code motion"@
    }
    else if i == 19 {
        "Remove unreachable blocks"@
    }
    else if i == 20 {
        "Register allocation"@
    }
    else if i == 21 {
        "RA liveness analysis"@
    }
    else if i == 22 {
        "RA coalescing CSSA"@
    }
    else if i == 23 {
        "RA spilling"@
    }
    else if i == 24 {
        "RA reloading"@
    }
    else if i == 25 {
        "RA coloring"@
    }
    else if i == 26 {
        "Prologue/epilogue insertion"@
    }
    else if i == 27 {
        "Binary machine code emission"@
    }
    else if i == 28 {
        "Layout full renumbering"@
    }
    else {
        no_pass_description()
    }
}

impl Pass {
    /// Position of the pass in the catalogue; `NoPass` comes after every real pass.
    pub open spec fn index(self) -> nat {
        match self {
            Pass::process_file => 0,
            Pass::parse_text => 1,
            Pass::wasm_translate_module => 2,
            Pass::wasm_translate_function => 3,
            Pass::verify_ir => 4,
            Pass::verify_cssa => 5,
            Pass::verify_liveness => 6,
            Pass::verify_locations => 7,
            Pass::verify_flags => 8,
            Pass::compile => 9,
            Pass::flowgraph => 10,
            Pass::domtree => 11,
            Pass::loop_analysis => 12,
            Pass::postopt => 13,
            Pass::preopt => 14,
            Pass::dce => 15,
            Pass::legalize => 16,
            Pass::gvn => 17,
            Pass::licm => 18,
            Pass::unreachable_code => 19,
            Pass::regalloc => 20,
            Pass::ra_liveness => 21,
            Pass::ra_cssa => 22,
            Pass::ra_spilling => 23,
            Pass::ra_reload => 24,
            Pass::ra_coloring => 25,
            Pass::prologue_epilogue => 26,
            Pass::binemit => 27,
            Pass::layout_renumber => 28,
            Pass::NoPass => 29,
        }
    }

    /// True for every pass of the catalogue, false for the sentinel.
    pub open spec fn is_real(self) -> bool {
        self.index() < NUM_PASSES
    }

    /// The catalogue index of this pass (`NUM_PASSES` for `Pass::NoPass`).
    pub fn idx(self) -> (r: usize)
        ensures
            r == self.index(),
    {
        match self {
            Pass::process_file => 0,
            Pass::parse_text => 1,
            Pass::wasm_translate_module => 2,
            Pass::wasm_translate_function => 3,
            Pass::verify_ir => 4,
            Pass::verify_cssa => 5,
            Pass::verify_liveness => 6,
            Pass::verify_locations => 7,
            Pass::verify_flags => 8,
            Pass::compile => 9,
            Pass::flowgraph => 10,
            Pass::domtree => 11,
            Pass::loop_analysis => 12,
            Pass::postopt => 13,
            Pass::preopt => 14,
            Pass::dce => 15,
            Pass::legalize => 16,
            Pass::gvn => 17,
            Pass::licm => 18,
            Pass::unreachable_code => 19,
            Pass::regalloc => 20,
            Pass::ra_liveness => 21,
            Pass::ra_cssa => 22,
            Pass::ra_spilling => 23,
            Pass::ra_reload => 24,
            Pass::ra_coloring => 25,
            Pass::prologue_epilogue => 26,
            Pass::binemit => 27,
            Pass::layout_renumber => 28,
            Pass::NoPass => 29,
        }
    }

    /// The human-readable description of this pass.
    pub fn description(self) -> (r: &'static str)
        ensures
            r@ == pass_description(self.index()),
    {
        description_of(self.idx())
    }

    /// The description of this pass as an owned string; `"<no pass>"` for `Pass::NoPass`.
    pub fn to_string(self) -> (r: String)
        ensures
            r@ == pass_description(self.index()),
    {
        String::from_str(self.description())
    }
}

/// Looks up the description of the pass at `index`, or `"<no pass>"` when `index` is out of range.
pub fn description_of(index: usize) -> (r: &'static str)
    ensures
        r@ == pass_description(index as nat),
{
    proof {
        reveal(pass_description);
    }
    match index {
        0 => "Processing test file",
        1 => "Parsing textual Cretonne IR",
        2 => "Translate WASM module",
        3 => "Translate WASM function",
        4 => "Verify Cretonne IR",
        5 => "Verify CSSA",
        6 => "Verify live ranges",
        7 => "Verify value locations",
        8 => "Verify CPU flags",
        9 => "Compilation passes",
        10 => "Control flow graph",
        11 => "Dominator tree",
        12 => "Loop analysis",
        13 => "Post-legalization rewriting",
        14 => "Pre-legalization rewriting",
        15 => "Dead code elimination",
        16 => "Legalization",
        17 => "Global value numbering",
        18 => "Loop invariant code motion",
        19 => "Remove unreachable blocks",
        20 => "Register allocation",
        21 => "RA liveness analysis",
        22 => "RA coalescing CSSA",
        23 => "RA spilling",
        24 => "RA reloading",
        25 => "RA coloring",
        26 => "Prologue/epilogue insertion",
        27 => "Binary machine code emission",
        28 => "Layout full renumbering",
        _ => "<no pass>",
    }
}

} // verus!
