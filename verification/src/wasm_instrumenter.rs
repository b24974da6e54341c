//! Analysis of WASM binaries for coverage tracking.
//!
//! The sections of a binary are walked to estimate its basic blocks and what
//! tracking them costs. The binary itself is passed through unchanged, and
//! executions are simulated by a walk over the blocks.
use crate::coverage_map::{
    all_counted, counted, no_counts, slot_of, slots_are_finite, EdgeId, ExecutionCoverage,
    COVERAGE_MAP_SIZE,
};
use crate::ratio::{Ratio, FRACTION_UNIT};
use crate::text::append_chars;
use crate::text::chars_of;
use vstd::prelude::*;
use vstd::slice::*;
use vstd::string::*;

verus! {

/// The value of a little-endian base-128 numeral: seven bits of each byte.
pub open spec fn leb_value(numeral: Seq<u8>) -> nat
    decreases numeral.len(),
{
    if numeral.len() == 0 {
        0
    } else {
        leb_value(numeral.drop_last()) + (numeral.last() as nat % 128) * place_value(
            (numeral.len() - 1) as nat,
        )
    }
}

/// The worth of a digit at a place of a base-128 numeral.
pub open spec fn place_value(place: nat) -> nat
    decreases place,
{
    if place == 0 {
        1
    } else {
        128 * place_value((place - 1) as nat)
    }
}

/// The number of bytes up to the first without a continuation bit, counted from
/// `from` on. There are five at the most.
pub open spec fn leb_len(bytes: Seq<u8>, from: nat) -> Option<nat>
    decreases 5 - from,
{
    if from >= 5 || from >= bytes.len() {
        None
    } else if bytes[from as int] < 128 {
        Some(from + 1)
    } else {
        leb_len(bytes, from + 1)
    }
}

/// The number that some bytes begin with, of which 32 bits are kept, and its
/// length.
pub open spec fn leb128(bytes: Seq<u8>) -> Option<(u32, nat)> {
    match leb_len(bytes, 0) {
        Some(n) => Some(((leb_value(bytes.take(n as int)) % 0x1_0000_0000) as u32, n)),
        None => None,
    }
}

/// Reads an unsigned LEB128 number of 32 bits and tells its length.
pub fn read_leb128_u32(bytes: &[u8]) -> (read: Option<(u32, usize)>)
    ensures
        match read {
            Some((value, len)) => leb128(bytes@) == Some((value, len as nat)) && 1 <= len
                <= bytes@.len() && len <= 5,
            None => leb128(bytes@) is None,
        },
{
    let mut value: u64 = 0;
    let mut scale: u64 = 1;
    let mut i: usize = 0;
    while i < bytes.len() && i < 5
        invariant
            i <= bytes@.len(),
            i <= 5,
            scale == place_value(i as nat),
            value == leb_value(bytes@.take(i as int)),
            value < scale,
            scale <= 0x8_0000_0000,
            i < 5 ==> scale <= 0x1000_0000,
            leb_len(bytes@, 0) == leb_len(bytes@, i as nat),
        decreases 5 - i,
    {
        let byte: u8 = bytes[i];
        let digit: u64 = (byte % 128) as u64;
        proof {
            let now = bytes@.take(i + 1);
            assert(now.drop_last() =~= bytes@.take(i as int));
            assert(now.last() == byte);
            assert(digit * scale <= 127 * scale) by (nonlinear_arith)
                requires
                    digit <= 127,
                    scale >= 0,
            ;
            assert(place_value((i + 1) as nat) == 128 * place_value(i as nat));
            reveal_with_fuel(place_value, 6);
        }
        value = value + digit * scale;
        scale = scale * 128;
        i = i + 1;
        if byte < 128 {
            return Some(((value % 0x1_0000_0000) as u32, i));
        }
    }
    None
}

/// A section of a binary: its number and what it holds.
#[derive(Debug, Clone, Copy)]
pub struct WasmSection<'a> {
    /// The section's number.
    pub id: u8,
    /// What it holds.
    pub payload: &'a [u8],
}

/// The contents of some sections.
pub open spec fn section_views(sections: Seq<WasmSection<'_>>) -> Seq<(u8, Seq<u8>)> {
    sections.map_values(|s: WasmSection<'_>| (s.id, s.payload@))
}

/// The sections from an offset on: a number, the length of the payload, and the
/// payload; `None` if one of them is cut off.
pub open spec fn sections_from(bytes: Seq<u8>, offset: nat) -> Option<Seq<(u8, Seq<u8>)>>
    decreases bytes.len() - offset,
{
    if offset >= bytes.len() {
        Some(Seq::empty())
    } else {
        match leb128(bytes.skip(offset as int + 1)) {
            None => None,
            Some((len, used)) => {
                let start = offset + 1 + used;
                let end = start + len as nat;
                if end > bytes.len() {
                    None
                } else {
                    preceded(
                        seq![(bytes[offset as int], bytes.subrange(start as int, end as int))],
                        sections_from(bytes, end),
                    )
                }
            },
        }
    }
}

/// Sections put before others, if there are others.
pub open spec fn preceded(
    head: Seq<(u8, Seq<u8>)>,
    tail: Option<Seq<(u8, Seq<u8>)>>,
) -> Option<Seq<(u8, Seq<u8>)>> {
    match tail {
        Some(t) => Some(head + t),
        None => None,
    }
}

/// The sections of a binary, which follow its eight-byte preamble; none if it
/// is malformed.
pub open spec fn sections_of(bytes: Seq<u8>) -> Seq<(u8, Seq<u8>)> {
    match sections_from(bytes, 8) {
        Some(list) => list,
        None => Seq::empty(),
    }
}

/// The size of all code sections together.
pub open spec fn code_size(sections: Seq<(u8, Seq<u8>)>) -> nat
    decreases sections.len(),
{
    if sections.len() == 0 {
        0
    } else {
        code_size(sections.drop_last()) + (if sections.last().0 == 10 {
            sections.last().1.len()
        } else {
            0
        })
    }
}

/// The estimated number of basic blocks: one for twenty bytes of code, and one
/// at the least.
pub open spec fn block_count(code: nat) -> nat {
    if code / 20 == 0 {
        1
    } else {
        code / 20
    }
}

proof fn code_size_joined(a: Seq<(u8, Seq<u8>)>, b: Seq<(u8, Seq<u8>)>)
    ensures
        code_size(a + b) == code_size(a) + code_size(b),
    decreases b.len(),
{
    if b.len() == 0 {
        assert(a + b =~= a);
    } else {
        assert((a + b).drop_last() =~= a + b.drop_last());
        code_size_joined(a, b.drop_last());
    }
}

/// The code of a binary is no larger than the binary.
pub proof fn code_fits(bytes: Seq<u8>, offset: nat)
    ensures
        sections_from(bytes, offset) matches Some(list) ==> code_size(list) + offset <= bytes.len()
            || list.len() == 0,
    decreases bytes.len() - offset,
{
    if offset < bytes.len() {
        match leb128(bytes.skip(offset as int + 1)) {
            None => {},
            Some((len, used)) => {
                let start = offset + 1 + used;
                let end = start + len as nat;
                if end <= bytes.len() {
                    code_fits(bytes, end);
                    if let Some(rest) = sections_from(bytes, end) {
                        let head = seq![
                            (bytes[offset as int], bytes.subrange(start as int, end as int)),
                        ];
                        code_size_joined(head, rest);
                        assert(head.drop_last() =~= Seq::empty());
                        assert(code_size(head) <= len) by {
                            reveal_with_fuel(code_size, 2);
                        }
                    }
                }
            },
        }
    }
}

/// Figures of an instrumentation.
#[derive(Debug, Clone, Copy)]
pub struct InstrumentationStats {
    /// Number of basic blocks.
    pub blocks_instrumented: usize,
    /// Number of edges between them.
    pub edges_identified: usize,
    /// Added instructions, as a percentage of the original ones.
    pub overhead_pct: Ratio,
    /// Size of the original binary.
    pub original_size: usize,
    /// Size of the instrumented binary.
    pub instrumented_size: usize,
}

impl Default for InstrumentationStats {
    fn default() -> (stats: Self)
        ensures
            stats.blocks_instrumented == 0,
            stats.edges_identified == 0,
            stats.overhead_pct == (Ratio { numerator: 0, denominator: 1 }),
            stats.original_size == 0,
            stats.instrumented_size == 0,
    {
        InstrumentationStats {
            blocks_instrumented: 0,
            edges_identified: 0,
            overhead_pct: Ratio::zero(),
            original_size: 0,
            instrumented_size: 0,
        }
    }
}

/// Why a binary could not be instrumented.
#[derive(Debug, PartialEq, Eq)]
pub enum WasmInstrumentError {
    /// It is shorter than the preamble.
    TooShort,
    /// It does not begin as a WASM binary does.
    NotWasm,
    /// A section is cut off.
    MalformedSection,
    /// Anything else, in words.
    InstrumentationFailed(String),
}

impl WasmInstrumentError {
    /// The error in words.
    pub open spec fn message(self) -> Seq<char> {
        match self {
            WasmInstrumentError::TooShort => "WASM binary too short"@,
            WasmInstrumentError::NotWasm => "not a WASM binary (missing magic)"@,
            WasmInstrumentError::MalformedSection => "malformed WASM section"@,
            WasmInstrumentError::InstrumentationFailed(text) => "instrumentation failed: "@ + text@,
        }
    }

    /// The error in words.
    pub fn to_text(&self) -> (text: String)
        ensures
            text@ == self.message(),
    {
        match self {
            WasmInstrumentError::TooShort => String::from_str("WASM binary too short"),
            WasmInstrumentError::NotWasm => String::from_str("not a WASM binary (missing magic)"),
            WasmInstrumentError::MalformedSection => String::from_str("malformed WASM section"),
            WasmInstrumentError::InstrumentationFailed(detail) => {
                let mut text: String = String::from_str("instrumentation failed: ");
                append_chars(&mut text, chars_of(detail.as_str()).as_slice());
                text
            },
        }
    }
}

impl Clone for WasmInstrumentError {
    fn clone(&self) -> (copy: Self)
        ensures
            copy.message() == self.message(),
            copy is TooShort <==> self is TooShort,
            copy is NotWasm <==> self is NotWasm,
            copy is MalformedSection <==> self is MalformedSection,
    {
        match self {
            WasmInstrumentError::TooShort => WasmInstrumentError::TooShort,
            WasmInstrumentError::NotWasm => WasmInstrumentError::NotWasm,
            WasmInstrumentError::MalformedSection => WasmInstrumentError::MalformedSection,
            WasmInstrumentError::InstrumentationFailed(detail) => {
                WasmInstrumentError::InstrumentationFailed(detail.clone())
            },
        }
    }
}

/// The next state of the generator that drives the walk over the blocks.
pub open spec fn walk_step(state: u64) -> u64 {
    ((state * 6364136223846793005 + 1442695040888963407) % 0x1_0000_0000_0000_0000) as u64
}

/// The block that a state leads to: the high bits, modulo the number of blocks.
pub open spec fn walk_block(state: u64, blocks: u32) -> u32 {
    ((state as int / 0x2_0000_0000) % blocks as int) as u32
}

/// The block reached after so many steps; the walk begins in block zero.
pub open spec fn block_after(seed: u64, blocks: u32, steps: nat) -> u32 {
    if steps == 0 {
        0
    } else {
        walk_block(state_after(seed, steps), blocks)
    }
}

/// The state after so many steps.
pub open spec fn state_after(seed: u64, steps: nat) -> u64
    decreases steps,
{
    if steps == 0 {
        seed
    } else {
        walk_step(state_after(seed, (steps - 1) as nat))
    }
}

/// The edges of a walk: the exclusive or of each two consecutive blocks.
pub open spec fn walk_edges(seed: u64, blocks: u32, steps: nat) -> Seq<EdgeId> {
    Seq::new(
        steps,
        |i: int|
            block_after(seed, blocks, i as nat) ^ block_after(seed, blocks, (i + 1) as nat),
    )
}

/// Number of steps in a walk over so many blocks: half as many, and one at the
/// least.
pub open spec fn walk_length(blocks: nat) -> nat {
    if blocks / 2 == 0 {
        1
    } else {
        blocks / 2
    }
}

/// Steps the generator that drives the walk over the blocks.
fn step_walk(state: u64) -> (next: u64)
    ensures
        next == walk_step(state),
{
    proof {
        vstd::arithmetic::div_mod::lemma_add_mod_noop(
            state * 6364136223846793005,
            1442695040888963407,
            0x1_0000_0000_0000_0000,
        );
    }
    state.wrapping_mul(6364136223846793005).wrapping_add(1442695040888963407)
}

/// Walks over the blocks and counts the edges.
fn walk_blocks(seed: u64, blocks: u32, visits: usize) -> (coverage: ExecutionCoverage)
    requires
        blocks > 0,
        visits > 0,
    ensures
        coverage.wf(),
        coverage.edge_counts@ == all_counted(
            no_counts(),
            walk_edges(seed, blocks, visits as nat),
        ),
        coverage.edges_hit > 0,
{
    let mut coverage: ExecutionCoverage = ExecutionCoverage::new();
    let mut state: u64 = seed;
    let mut prev: u32 = 0;
    let mut step: usize = 0;
    let ghost mut edges: Seq<EdgeId> = Seq::empty();
    assert(walk_edges(seed, blocks, 0) =~= edges);
    while step < visits
        invariant
            step <= visits,
            blocks > 0,
            coverage.wf(),
            edges == walk_edges(seed, blocks, step as nat),
            coverage.edge_counts@ == all_counted(no_counts(), edges),
            state == state_after(seed, step as nat),
            prev == block_after(seed, blocks, step as nat),
            step > 0 ==> coverage.edges_hit > 0,
        decreases visits - step,
    {
        state = step_walk(state);
        assert(state == state_after(seed, (step + 1) as nat));
        let high: u32 = (state / 0x2_0000_0000) as u32;
        let cur: u32 = high % blocks;
        assert(cur == block_after(seed, blocks, (step + 1) as nat));
        let edge: EdgeId = prev ^ cur;
        coverage.record_edge(edge);
        proof {
            slots_are_finite(coverage.hits(), COVERAGE_MAP_SIZE as int);
            assert(coverage.hits().contains(slot_of(edge)));
            if coverage.hits().len() == 0 {
                assert(coverage.hits() =~= Set::empty());
            }
            let now = edges.push(edge);
            assert(now.drop_last() =~= edges);
            assert(now =~= walk_edges(seed, blocks, (step + 1) as nat));
            edges = now;
        }
        prev = cur;
        step = step + 1;
    }
    coverage
}

/// The instrumentation pass.
#[derive(Debug, Clone, Copy)]
pub struct WasmInstrumenter {
    /// Whether edges are tracked too, not only blocks.
    pub track_edges: bool,
    /// The overhead above which to warn, in percent, in parts of one by
    /// [`FRACTION_UNIT`].
    pub max_overhead_pct: u64,
}

impl Default for WasmInstrumenter {
    fn default() -> (pass: Self)
        ensures
            pass.track_edges,
            pass.max_overhead_pct == 20 * FRACTION_UNIT,
    {
        WasmInstrumenter { track_edges: true, max_overhead_pct: 20 * FRACTION_UNIT }
    }
}

impl WasmInstrumenter {
    /// What an instrumentation of the binary finds.
    pub open spec fn finds(self, bytes: Seq<u8>, stats: InstrumentationStats) -> bool {
        let code = code_size(sections_of(bytes));
        let blocks = block_count(code);
        &&& stats.blocks_instrumented == blocks
        &&& stats.edges_identified == (if self.track_edges {
            2 * blocks
        } else {
            0
        })
        &&& code / 4 > 0 ==> stats.overhead_pct.numerator == 400 * blocks
            && stats.overhead_pct.denominator == code / 4
        &&& code / 4 == 0 ==> stats.overhead_pct == (Ratio { numerator: 0, denominator: 1 })
        &&& stats.original_size == bytes.len()
        &&& stats.instrumented_size == bytes.len() + 16 * blocks
    }

    /// What becomes of an instrumentation: a binary must have a preamble that
    /// begins with the magic number; malformed sections are no error.
    pub open spec fn judges(
        self,
        bytes: Seq<u8>,
        result: Result<InstrumentationStats, WasmInstrumentError>,
    ) -> bool {
        if bytes.len() < 8 {
            result matches Err(error) && error is TooShort
        } else if bytes.take(4) != seq![0u8, 97, 115, 109] {
            result matches Err(error) && error is NotWasm
        } else {
            result matches Ok(stats) && self.finds(bytes, stats)
        }
    }

    /// The pass with its usual settings.
    pub fn new() -> (pass: Self)
        ensures
            pass.track_edges,
            pass.max_overhead_pct == 20 * FRACTION_UNIT,
    {
        Self::default()
    }

    /// Walks the sections of a binary.
    pub fn parse_sections<'a>(&self, bytes: &'a [u8]) -> (result: Result<
        Vec<WasmSection<'a>>,
        WasmInstrumentError,
    >)
        ensures
            match result {
                Ok(list) => sections_from(bytes@, 8) == Some(section_views(list@)),
                Err(e) => e is MalformedSection && sections_from(bytes@, 8) is None,
            },
    {
        let mut sections: Vec<WasmSection<'a>> = Vec::new();
        let mut offset: usize = 8;
        assert(sections_from(bytes@, 8) == preceded(
            section_views(sections@),
            sections_from(bytes@, offset as nat),
        )) by {
            if let Some(t) = sections_from(bytes@, 8) {
                assert(section_views(sections@) + t =~= t);
            }
        }
        while offset < bytes.len()
            invariant
                sections_from(bytes@, 8) == preceded(
                    section_views(sections@),
                    sections_from(bytes@, offset as nat),
                ),
            decreases bytes@.len() - offset,
        {
            let id: u8 = bytes[offset];
            let rest: &[u8] = slice_subrange(bytes, offset + 1, bytes.len());
            assert(rest@ =~= bytes@.skip(offset + 1));
            match read_leb128_u32(rest) {
                None => {
                    return Err(WasmInstrumentError::MalformedSection);
                },
                Some((len, used)) => {
                    let start: usize = offset + 1 + used;
                    if len as u64 > (bytes.len() - start) as u64 {
                        return Err(WasmInstrumentError::MalformedSection);
                    }
                    let end: usize = start + len as usize;
                    let section: WasmSection<'a> = WasmSection {
                        id,
                        payload: slice_subrange(bytes, start, end),
                    };
                    let ghost before = section_views(sections@);
                    sections.push(section);
                    proof {
                        let head = seq![(id, bytes@.subrange(start as int, end as int))];
                        assert(section_views(sections@) =~= before + head);
                        if let Some(t) = sections_from(bytes@, end as nat) {
                            assert(before + (head + t) =~= (before + head) + t);
                        }
                    }
                    offset = end;
                },
            }
        }
        assert(section_views(sections@) + Seq::<(u8, Seq<u8>)>::empty() =~= section_views(
            sections@,
        ));
        Ok(sections)
    }

    /// The sections of a binary, none if it is malformed.
    fn sections_or_none<'a>(&self, bytes: &'a [u8]) -> (sections: Vec<WasmSection<'a>>)
        ensures
            section_views(sections@) == sections_of(bytes@),
            code_size(sections_of(bytes@)) <= bytes@.len() <= usize::MAX,
    {
        let _size: usize = bytes.len();
        proof {
            code_fits(bytes@, 8);
        }
        match self.parse_sections(bytes) {
            Ok(list) => list,
            Err(_) => {
                let none: Vec<WasmSection<'a>> = Vec::new();
                assert(section_views(none@) =~= Seq::empty());
                none
            },
        }
    }

    /// The size of all code sections together.
    fn code_bytes(&self, sections: &Vec<WasmSection<'_>>) -> (size: usize)
        requires
            code_size(section_views(sections@)) <= usize::MAX,
        ensures
            size == code_size(section_views(sections@)),
    {
        let mut size: usize = 0;
        let mut i: usize = 0;
        let ghost all = section_views(sections@);
        while i < sections.len()
            invariant
                all == section_views(sections@),
                i <= sections@.len(),
                size == code_size(all.take(i as int)),
                code_size(all) <= usize::MAX,
            decreases sections@.len() - i,
        {
            proof {
                let now = all.take(i + 1);
                assert(now.drop_last() =~= all.take(i as int));
                assert(now + all.skip(i + 1) =~= all);
                code_size_joined(now, all.skip(i + 1));
            }
            if sections[i].id == 10 {
                size = size + sections[i].payload.len();
            }
            i = i + 1;
        }
        assert(all.take(i as int) =~= all);
        size
    }

    /// Estimates the number of basic blocks and of edges between them.
    pub fn estimate_blocks_and_edges(&self, sections: &Vec<WasmSection<'_>>) -> (estimate: (
        usize,
        usize,
    ))
        requires
            code_size(section_views(sections@)) <= usize::MAX,
        ensures
            estimate.0 == block_count(code_size(section_views(sections@))),
            estimate.1 == (if self.track_edges {
                2 * block_count(code_size(section_views(sections@)))
            } else {
                0
            }),
    {
        let twentieth: usize = self.code_bytes(sections) / 20;
        let blocks: usize = if twentieth == 0 {
            1
        } else {
            twentieth
        };
        let edges: usize = if self.track_edges {
            blocks * 2
        } else {
            0
        };
        (blocks, edges)
    }

    /// Estimates the number of instructions: one for four bytes of code.
    pub fn estimate_instruction_count(&self, sections: &Vec<WasmSection<'_>>) -> (count: usize)
        requires
            code_size(section_views(sections@)) <= usize::MAX,
        ensures
            count == code_size(section_views(sections@)) / 4,
    {
        self.code_bytes(sections) / 4
    }

    /// Instruments a binary: the binary, passed through, and what was found.
    pub fn instrument(&self, wasm_bytes: &[u8]) -> (result: Result<
        (Vec<u8>, InstrumentationStats),
        WasmInstrumentError,
    >)
        requires
            wasm_bytes@.len() <= isize::MAX,
        ensures
            match result {
                Ok((bytes, stats)) => bytes@ == wasm_bytes@ && self.judges(
                    wasm_bytes@,
                    Ok(stats),
                ),
                Err(error) => self.judges(wasm_bytes@, Err(error)),
            },
    {
        if wasm_bytes.len() < 8 {
            return Err(WasmInstrumentError::TooShort);
        }
        let ghost magic = seq![0u8, 97, 115, 109];
        if wasm_bytes[0] != 0 || wasm_bytes[1] != 97 || wasm_bytes[2] != 115 || wasm_bytes[3]
            != 109 {
            assert(magic[0] == 0 && magic[1] == 97 && magic[2] == 115 && magic[3] == 109);
            assert(wasm_bytes@.take(4)[0] == wasm_bytes@[0]);
            assert(wasm_bytes@.take(4)[1] == wasm_bytes@[1]);
            assert(wasm_bytes@.take(4)[2] == wasm_bytes@[2]);
            assert(wasm_bytes@.take(4)[3] == wasm_bytes@[3]);
            return Err(WasmInstrumentError::NotWasm);
        }
        assert(wasm_bytes@.take(4) =~= magic);
        let sections: Vec<WasmSection<'_>> = self.sections_or_none(wasm_bytes);
        let (blocks, edges): (usize, usize) = self.estimate_blocks_and_edges(&sections);
        let instructions: usize = self.estimate_instruction_count(&sections);
        let added: usize = blocks * 4;
        let overhead: Ratio = if instructions > 0 {
            Ratio { numerator: added as u128 * 100, denominator: instructions as u128 }
        } else {
            Ratio::zero()
        };
        let stats: InstrumentationStats = InstrumentationStats {
            blocks_instrumented: blocks,
            edges_identified: edges,
            overhead_pct: overhead,
            original_size: wasm_bytes.len(),
            instrumented_size: wasm_bytes.len() + blocks * 16,
        };
        Ok((slice_to_vec(wasm_bytes), stats))
    }

    /// Whether an overhead, in percent, is above what is accepted.
    pub fn exceeds_budget(&self, overhead_pct: Ratio) -> (over: bool)
        requires
            overhead_pct.numerator <= u64::MAX * 400,
            overhead_pct.denominator <= u64::MAX,
        ensures
            over == (overhead_pct.numerator * FRACTION_UNIT > self.max_overhead_pct
                * overhead_pct.denominator),
    {
        proof {
            let m = self.max_overhead_pct as int;
            let d = overhead_pct.denominator as int;
            assert(0 <= m * d <= 0xffff_ffff_ffff_ffff * 0xffff_ffff_ffff_ffff)
                by (nonlinear_arith)
                requires
                    0 <= m <= 0xffff_ffff_ffff_ffff,
                    0 <= d <= 0xffff_ffff_ffff_ffff,
            ;
        }
        overhead_pct.numerator * FRACTION_UNIT as u128 > self.max_overhead_pct as u128
            * overhead_pct.denominator
    }

    /// Simulates an execution: a walk over the blocks of the binary, driven by
    /// `seed`.
    pub fn simulate_coverage(&self, wasm_bytes: &[u8], seed: u64) -> (coverage: ExecutionCoverage)
        requires
            block_count(code_size(sections_of(wasm_bytes@))) % 0x1_0000_0000 != 0,
        ensures
            coverage.wf(),
            ({
                let blocks = block_count(code_size(sections_of(wasm_bytes@)));
                coverage.edge_counts@ == all_counted(
                    no_counts(),
                    walk_edges(
                        seed,
                        (blocks % 0x1_0000_0000) as u32,
                        walk_length(blocks),
                    ),
                )
            }),
            coverage.edges_hit > 0,
    {
        let sections: Vec<WasmSection<'_>> = self.sections_or_none(wasm_bytes);
        let blocks: usize = self.estimate_blocks_and_edges(&sections).0;
        let half: usize = blocks / 2;
        let visits: usize = if half == 0 {
            1
        } else {
            half
        };
        walk_blocks(seed, (blocks as u64 % 0x1_0000_0000) as u32, visits)
    }
}

proof fn leb_len_of_prefix(bytes: Seq<u8>, more: Seq<u8>, from: nat)
    requires
        leb_len(bytes, from) is Some,
    ensures
        leb_len(bytes + more, from) == leb_len(bytes, from),
        from < leb_len(bytes, from)->0 <= bytes.len(),
    decreases 5 - from,
{
    if bytes[from as int] >= 128 {
        leb_len_of_prefix(bytes, more, from + 1);
    }
}

/// What follows a number does not change how it is read.
pub proof fn leb128_of_prefix(bytes: Seq<u8>, more: Seq<u8>)
    requires
        leb128(bytes) is Some,
    ensures
        leb128(bytes + more) == leb128(bytes),
{
    leb_len_of_prefix(bytes, more, 0);
    let n = leb_len(bytes, 0)->0;
    assert((bytes + more).take(n as int) =~= bytes.take(n as int));
}

/// A byte without a continuation bit is a number of its own.
pub proof fn single_byte_number(bytes: Seq<u8>)
    requires
        bytes.len() > 0,
        bytes[0] < 128,
    ensures
        leb128(bytes) == Some((bytes[0] as u32, 1nat)),
{
    reveal_with_fuel(leb_len, 2);
    let numeral = bytes.take(1);
    assert(numeral.drop_last() =~= Seq::empty());
    reveal_with_fuel(leb_value, 2);
    let digit = numeral.last() as nat % 128;
    let place = place_value(0);
    assert(digit * place == digit) by (nonlinear_arith)
        requires
            place == 1,
    ;
    assert(leb_value(numeral) == digit);
}

proof fn section_behind_others(bytes: Seq<u8>, offset: nat, id: u8, payload: Seq<u8>)
    requires
        payload.len() < 128,
        offset <= bytes.len(),
        sections_from(bytes, offset) is Some,
    ensures
        sections_from(bytes + seq![id, payload.len() as u8] + payload, offset) == Some(
            sections_from(bytes, offset)->0.push((id, payload)),
        ),
    decreases bytes.len() - offset,
{
    let head = seq![id, payload.len() as u8];
    let all = bytes + head + payload;
    if offset == bytes.len() {
        let rest = all.skip(offset as int + 1);
        assert(rest[0] == payload.len() as u8);
        single_byte_number(rest);
        let start = offset + 2;
        let end = start + payload.len();
        assert(all.len() == end);
        assert(all.subrange(start as int, end as int) =~= payload);
        assert(sections_from(all, end) == Some(Seq::<(u8, Seq<u8>)>::empty()));
        assert(seq![(id, payload)] + Seq::<(u8, Seq<u8>)>::empty() =~= Seq::<
            (u8, Seq<u8>),
        >::empty().push((id, payload)));
    } else {
        let rest = bytes.skip(offset as int + 1);
        assert(all.skip(offset as int + 1) =~= rest + (head + payload));
        leb128_of_prefix(rest, head + payload);
        let (len, used) = leb128(rest)->0;
        let start = offset + 1 + used;
        let end = start + len as nat;
        section_behind_others(bytes, end, id, payload);
        assert(all.subrange(start as int, end as int) =~= bytes.subrange(start as int, end as int));
        let first = seq![(bytes[offset as int], bytes.subrange(start as int, end as int))];
        let tail = sections_from(bytes, end)->0;
        assert(first + tail.push((id, payload)) =~= (first + tail).push((id, payload)));
    }
}

/// A section written behind a well-formed binary is read back, behind the
/// others: its number, its length in one byte, and its payload.
pub proof fn written_section_is_read(bytes: Seq<u8>, id: u8, payload: Seq<u8>)
    requires
        payload.len() < 128,
        bytes.len() >= 8,
        sections_from(bytes, 8) is Some,
    ensures
        sections_of(bytes + seq![id, payload.len() as u8] + payload) == sections_of(bytes).push(
            (id, payload),
        ),
{
    section_behind_others(bytes, 8, id, payload);
}

}
