//! The shader description parser: names the asset, finds its passes and, in
//! each pass body, the stage blocks and their entry-point markers.
//!
//! Lines are numbered from 1. Directives and markers are matched on the line
//! with surrounding ASCII whitespace removed, ignoring ASCII case.

use vstd::prelude::*;
use vstd::string::StringSliceAdditionalSpecFns;
use crate::text::{
    copy_range, find_byte, find_from, lemma_find_from_bounds, NEWLINE, RETURN, ends_ci, ends_with_ci, is_directive, line_end, next_line, quoted_text,
    quoted_value, starts_ci, text_view, starts_with_ci, trim, trim_bounds, SPACE,
};

verus! {

/// `NAME`
pub open spec fn word_name() -> Seq<u8> {
    seq![78, 65, 77, 69]
}

/// `PASS`
pub open spec fn word_pass() -> Seq<u8> {
    seq![80, 65, 83, 83]
}

/// `VARIANTS`
pub open spec fn word_variants() -> Seq<u8> {
    seq![86, 65, 82, 73, 65, 78, 84, 83]
}

/// `[VERT]`
pub open spec fn mark_vert() -> Seq<u8> {
    seq![91, 86, 69, 82, 84, 93]
}

/// `[VERTEX]`
pub open spec fn mark_vertex() -> Seq<u8> {
    seq![91, 86, 69, 82, 84, 69, 88, 93]
}

/// `[FRAG]`
pub open spec fn mark_frag() -> Seq<u8> {
    seq![91, 70, 82, 65, 71, 93]
}

/// `[FRAGMENT]`
pub open spec fn mark_fragment() -> Seq<u8> {
    seq![91, 70, 82, 65, 71, 77, 69, 78, 84, 93]
}

/// `ENTRY`
pub open spec fn mark_entry() -> Seq<u8> {
    seq![69, 78, 84, 82, 89]
}

/// `{` and `}`
pub const OPEN_BRACE: u8 = 123;
pub const CLOSE_BRACE: u8 = 125;

/// The pipeline stage a block of a pass holds.
#[derive(Debug, Clone, Copy, PartialEq, Eq)]
pub enum StageKind {
    Vertex,
    Fragment,
}

/// A stage block: its kind, its first and last line, and the line of its
/// entry-point marker, if one was seen.
#[derive(Debug, Clone, Copy, PartialEq, Eq)]
pub struct StageBlock {
    pub kind: StageKind,
    pub start: usize,
    pub end: usize,
    pub entry: Option<usize>,
}

/// The stage blocks of one pass, in the order they were opened.
#[derive(Debug, Clone)]
pub struct PassStages {
    pub blocks: Vec<StageBlock>,
}

impl PassStages {
    /// No stage block.
    pub fn new() -> (r: PassStages)
        ensures
            r.blocks@ == Seq::<StageBlock>::empty(),
    {
        PassStages { blocks: Vec::new() }
    }
}

/// A pass: its name, the line of its first `{` (the `PASS` line while none
/// was seen), the line where its nesting returned to zero (the last line when
/// it never did), its stage blocks, and whether it was closed.
#[derive(Debug, Clone)]
pub struct Pass {
    pub name: String,
    pub start: usize,
    pub end: usize,
    pub stages: PassStages,
    pub terminated: bool,
}

/// What a pass is, as values.
pub struct PassModel {
    pub name: Seq<char>,
    pub start: usize,
    pub end: usize,
    pub stages: Seq<StageBlock>,
    pub terminated: bool,
}

impl View for Pass {
    type V = PassModel;

    open spec fn view(&self) -> PassModel {
        PassModel {
            name: self.name@,
            start: self.start,
            end: self.end,
            stages: self.stages.blocks@,
            terminated: self.terminated,
        }
    }
}

/// A finding on input that does not follow the description format; parsing
/// goes on past each.
#[derive(Debug, Clone, Copy, PartialEq, Eq)]
pub enum Diagnostic {
    /// A `PASS` line without a quoted name (or one that is not UTF-8).
    MissingPassName { line: usize },
    /// A `VARIANTS` directive: recognised, but its contents are not supported.
    UnsupportedVariants { line: usize },
    /// The input ended before the nesting of this pass (index into the
    /// passes) returned to zero.
    UnterminatedPass { pass: usize },
}

/// A pass whose body is still being read.
pub struct OpenPass {
    pub name: Seq<char>,
    pub start: usize,
    pub opened: bool,
    pub depth: nat,
    pub stages: Seq<StageBlock>,
    pub stage_open: bool,
}

/// The state of the pass scan between two lines.
pub struct PassScan {
    pub passes: Seq<PassModel>,
    pub open: Option<OpenPass>,
    pub diags: Seq<Diagnostic>,
}

/// An open stage block is the last of the blocks.
pub open spec fn open_wf(p: OpenPass) -> bool {
    p.stage_open ==> p.stages.len() > 0
}

/// The last stage block, closed at line `end`.
pub open spec fn close_last(stages: Seq<StageBlock>, end: usize) -> Seq<StageBlock> {
    let i = stages.len() - 1;
    stages.update(i, StageBlock { end: end, ..stages[i] })
}

/// The braces of `line` from byte `i` on; true when the nesting of the pass
/// returns to zero there, in which case the rest of the line is not read.
pub open spec fn braces(p: OpenPass, line: Seq<u8>, i: int, n: usize) -> (OpenPass, bool)
    decreases line.len() - i,
{
    if i < 0 || i >= line.len() {
        (p, false)
    } else if line[i] == OPEN_BRACE {
        let q = OpenPass {
            start: if p.opened { p.start } else { n },
            opened: true,
            depth: p.depth + 1,
            ..p
        };
        braces(q, line, i + 1, n)
    } else if line[i] == CLOSE_BRACE && p.depth > 0 {
        let q = OpenPass { depth: (p.depth - 1) as nat, ..p };
        if q.depth == 0 {
            (q, true)
        } else {
            braces(q, line, i + 1, n)
        }
    } else {
        braces(p, line, i + 1, n)
    }
}

/// A stage block of `kind` opens after line `n`; an open block closes at `n`.
pub open spec fn open_block(p: OpenPass, kind: StageKind, n: usize) -> OpenPass {
    let stages = if p.stage_open { close_last(p.stages, n) } else { p.stages };
    OpenPass {
        stages: stages.push(StageBlock { kind, start: (n + 1) as usize, end: (n + 1) as usize, entry: None }),
        stage_open: true,
        ..p
    }
}

/// The stage and entry markers of line `n`, inside a pass.
pub open spec fn markers(p: OpenPass, line: Seq<u8>, n: usize) -> OpenPass {
    let t = trim(line);
    if ends_ci(t, mark_vert()) || ends_ci(t, mark_vertex()) {
        open_block(p, StageKind::Vertex, n)
    } else if ends_ci(t, mark_frag()) || ends_ci(t, mark_fragment()) {
        open_block(p, StageKind::Fragment, n)
    } else if ends_ci(t, mark_entry()) && p.stage_open {
        let i = p.stages.len() - 1;
        OpenPass { stages: p.stages.update(i, StageBlock { entry: Some(n), ..p.stages[i] }), ..p }
    } else {
        p
    }
}

/// The pass, closed at line `n`.
pub open spec fn close_pass(p: OpenPass, n: usize) -> PassModel {
    PassModel {
        name: p.name,
        start: p.start,
        end: n,
        stages: if p.stage_open { close_last(p.stages, (n - 1) as usize) } else { p.stages },
        terminated: true,
    }
}

/// After the braces of a line: the pass closes or stays open.
pub open spec fn after_braces(st: PassScan, r: (OpenPass, bool), n: usize) -> PassScan {
    if r.1 {
        PassScan { passes: st.passes.push(close_pass(r.0, n)), open: None, ..st }
    } else {
        PassScan { open: Some(r.0), ..st }
    }
}

/// The scan after line `n`.
pub open spec fn scan_line(st: PassScan, line: Seq<u8>, n: usize) -> PassScan {
    match st.open {
        None => if is_directive(line, word_pass()) {
            match quoted_text(line) {
                Some(name) => {
                    let p = OpenPass {
                        name,
                        start: n,
                        opened: false,
                        depth: 0,
                        stages: seq![],
                        stage_open: false,
                    };
                    after_braces(st, braces(p, line, 0, n), n)
                },
                None => PassScan {
                    diags: st.diags.push(Diagnostic::MissingPassName { line: n }),
                    ..st
                },
            }
        } else {
            st
        },
        Some(p) => {
            let st1 = if starts_ci(trim(line), word_variants()) {
                PassScan { diags: st.diags.push(Diagnostic::UnsupportedVariants { line: n }), ..st }
            } else {
                st
            };
            after_braces(st1, braces(markers(p, line, n), line, 0, n), n)
        },
    }
}

/// The scan of the lines from byte `pos` on, the first of them numbered `n`;
/// with the number of the last line read.
pub open spec fn scan_from(st: PassScan, s: Seq<u8>, pos: int, n: usize) -> (PassScan, usize)
    decreases s.len() + 1 - pos,
{
    if pos < 0 || pos >= s.len() || next_line(s, pos) <= pos || next_line(s, pos) > s.len() + 1 {
        (st, (n - 1) as usize)
    } else {
        let line = s.subrange(pos, line_end(s, pos));
        scan_from(scan_line(st, line, n), s, next_line(s, pos), (n + 1) as usize)
    }
}

/// A pass still open at the end of input ends at the last line.
pub open spec fn finish(st: PassScan, last: usize) -> PassScan {
    match st.open {
        None => st,
        Some(p) => PassScan {
            passes: st.passes.push(
                PassModel {
                    name: p.name,
                    start: p.start,
                    end: last,
                    stages: if p.stage_open { close_last(p.stages, last) } else { p.stages },
                    terminated: false,
                },
            ),
            open: None,
            diags: st.diags.push(Diagnostic::UnterminatedPass { pass: st.passes.len() as usize }),
        },
    }
}

pub open spec fn initial_scan() -> PassScan {
    PassScan { passes: seq![], open: None, diags: seq![] }
}

/// The passes of a description, with the diagnostics met on the way.
pub open spec fn parse_passes(s: Seq<u8>) -> PassScan {
    let r = scan_from(initial_scan(), s, 0, 1);
    finish(r.0, r.1)
}

/// The quoted value of the first `NAME` line from byte `pos` on that has one.
pub open spec fn name_from(s: Seq<u8>, pos: int) -> Option<Seq<char>>
    decreases s.len() + 1 - pos,
{
    if pos < 0 || pos >= s.len() || next_line(s, pos) <= pos || next_line(s, pos) > s.len() + 1 {
        None
    } else {
        let line = s.subrange(pos, line_end(s, pos));
        if is_directive(line, word_name()) && quoted_text(line) is Some {
            quoted_text(line)
        } else {
            name_from(s, next_line(s, pos))
        }
    }
}

/// The byte where line `k` (counting from 0) begins, or the input length.
pub open spec fn line_start(s: Seq<u8>, pos: int, k: nat) -> int
    decreases k,
{
    if k == 0 || pos >= s.len() {
        if pos >= s.len() { s.len() as int } else { pos }
    } else {
        line_start(s, next_line(s, pos), (k - 1) as nat)
    }
}

} // verus!

verus! {

/// A pass being read, as the scan holds it.
struct OpenPassState {
    name: String,
    start: usize,
    opened: bool,
    depth: usize,
    stages: Vec<StageBlock>,
    stage_open: bool,
}

impl View for OpenPassState {
    type V = OpenPass;

    closed spec fn view(&self) -> OpenPass {
        OpenPass {
            name: self.name@,
            start: self.start,
            opened: self.opened,
            depth: self.depth as nat,
            stages: self.stages@,
            stage_open: self.stage_open,
        }
    }
}

/// The pass scan, as the parser holds it.
struct ScanState {
    passes: Vec<Pass>,
    open: Option<OpenPassState>,
    diags: Vec<Diagnostic>,
}

impl View for ScanState {
    type V = PassScan;

    closed spec fn view(&self) -> PassScan {
        PassScan {
            passes: pass_models(self.passes@),
            open: match self.open {
                Some(p) => Some(p@),
                None => None,
            },
            diags: self.diags@,
        }
    }
}

fn close_last_block(stages: &mut Vec<StageBlock>, end: usize)
    requires
        old(stages)@.len() > 0,
    ensures
        final(stages)@ == close_last(old(stages)@, end),
{
    let i = stages.len() - 1;
    let b = stages[i];
    stages.set(i, StageBlock { end: end, ..b });
}

fn braces_of(p: &mut OpenPassState, line: &[u8], n: usize) -> (closed: bool)
    requires
        old(p).depth + line@.len() <= usize::MAX,
    ensures
        final(p)@.stages == old(p)@.stages,
        final(p)@.stage_open == old(p)@.stage_open,
        (final(p)@, closed) == braces(old(p)@, line@, 0, n),
        final(p).depth <= old(p).depth + line@.len(),
{
    let ghost p0 = p@;
    let ghost d0 = p.depth;
    let mut i: usize = 0;
    while i < line.len()
        invariant
            i <= line@.len(),
            p.depth <= d0 + i,
            p0 == old(p)@,
            d0 == old(p).depth,
            p@.stages == p0.stages,
            p@.stage_open == p0.stage_open,
            d0 + line@.len() <= usize::MAX,
            braces(p0, line@, 0, n) == braces(p@, line@, i as int, n),
        decreases line@.len() - i,
    {
        if line[i] == OPEN_BRACE {
            if !p.opened {
                p.start = n;
                p.opened = true;
            }
            p.depth = p.depth + 1;
        } else if line[i] == CLOSE_BRACE && p.depth > 0 {
            let ghost before = p@;
            p.depth = p.depth - 1;
            assert(p@ == OpenPass { depth: (before.depth - 1) as nat, ..before });
            if p.depth == 0 {
                assert(braces(before, line@, i as int, n) == (p@, true));
                assert(p@.stages == p0.stages);
                assert(p@.stage_open == p0.stage_open);
                return true;
            }
        }
        i = i + 1;
    }
    false
}

fn open_stage_block(p: &mut OpenPassState, kind: StageKind, n: usize)
    requires
        n < usize::MAX,
        open_wf(old(p)@),
    ensures
        open_wf(final(p)@),
        final(p)@ == open_block(old(p)@, kind, n),
        final(p).depth == old(p).depth,
{
    if p.stage_open {
        close_last_block(&mut p.stages, n);
    }
    p.stages.push(StageBlock { kind, start: n + 1, end: n + 1, entry: None });
    p.stage_open = true;
}

fn markers_of(p: &mut OpenPassState, line: &[u8], n: usize)
    requires
        n < usize::MAX,
        open_wf(old(p)@),
    ensures
        open_wf(final(p)@),
        final(p)@ == markers(old(p)@, line@, n),
        final(p).depth == old(p).depth,
{
    let (lo, hi) = trim_bounds(line);
    let t = copy_range(line, lo, hi);
    let vert: [u8; 6] = [91, 86, 69, 82, 84, 93];
    let vertex: [u8; 8] = [91, 86, 69, 82, 84, 69, 88, 93];
    let frag: [u8; 6] = [91, 70, 82, 65, 71, 93];
    let fragment: [u8; 10] = [91, 70, 82, 65, 71, 77, 69, 78, 84, 93];
    let entry: [u8; 5] = [69, 78, 84, 82, 89];
    assert(vert@ =~= mark_vert());
    assert(vertex@ =~= mark_vertex());
    assert(frag@ =~= mark_frag());
    assert(fragment@ =~= mark_fragment());
    assert(entry@ =~= mark_entry());
    if ends_with_ci(t.as_slice(), &vert) || ends_with_ci(t.as_slice(), &vertex) {
        open_stage_block(p, StageKind::Vertex, n);
    } else if ends_with_ci(t.as_slice(), &frag) || ends_with_ci(t.as_slice(), &fragment) {
        open_stage_block(p, StageKind::Fragment, n);
    } else if ends_with_ci(t.as_slice(), &entry) && p.stage_open {
        let i = p.stages.len() - 1;
        let b = p.stages[i];
        p.stages.set(i, StageBlock { entry: Some(n), ..b });
    }
}

fn push_pass(passes: &mut Vec<Pass>, p: Pass)
    ensures
        pass_models(final(passes)@) == pass_models(old(passes)@).push(p@),
{
    passes.push(p);
    assert(pass_models(passes@) =~= pass_models(old(passes)@).push(p@));
}

fn close_open_pass(p: OpenPassState, n: usize) -> (r: Pass)
    requires
        p.stage_open ==> n >= 1,
        open_wf(p@),
    ensures
        r@ == close_pass(p@, n),
{
    let mut stages = p.stages;
    if p.stage_open {
        close_last_block(&mut stages, n - 1);
    }
    Pass {
        name: p.name,
        start: p.start,
        end: n,
        stages: PassStages { blocks: stages },
        terminated: true,
    }
}

fn scan_one_line(st: &mut ScanState, line: &[u8], n: usize, bound: usize)
    requires
        1 <= n < usize::MAX,
        match old(st).open {
            Some(p) => p.depth <= bound && open_wf(p@),
            None => true,
        },
        bound + line@.len() <= usize::MAX,
    ensures
        final(st)@ == scan_line(old(st)@, line@, n),
        match final(st).open {
            Some(p) => p.depth <= bound + line@.len() && open_wf(p@),
            None => true,
        },
{
    let words_pass: [u8; 4] = [80, 65, 83, 83];
    let words_variants: [u8; 8] = [86, 65, 82, 73, 65, 78, 84, 83];
    assert(words_pass@ =~= word_pass());
    assert(words_variants@ =~= word_variants());
    let (lo, hi) = trim_bounds(line);
    let t = copy_range(line, lo, hi);
    let open = st.open.take();
    match open {
        None => {
            if directive_is(line, &words_pass) {
                match quoted_value(line) {
                    Some(name) => {
                        let mut p = OpenPassState {
                            name,
                            start: n,
                            opened: false,
                            depth: 0,
                            stages: Vec::new(),
                            stage_open: false,
                        };
                        let closed = braces_of(&mut p, line, n);
                        if closed {
                            let done = close_open_pass(p, n);
                            push_pass(&mut st.passes, done);
                        } else {
                            st.open = Some(p);
                        }
                    },
                    None => {
                        st.diags.push(Diagnostic::MissingPassName { line: n });
                    },
                }
            }
        },
        Some(p0) => {
            let mut p = p0;
            if starts_with_ci(t.as_slice(), &words_variants) {
                st.diags.push(Diagnostic::UnsupportedVariants { line: n });
            }
            markers_of(&mut p, line, n);
            let closed = braces_of(&mut p, line, n);
            if closed {
                let done = close_open_pass(p, n);
                push_pass(&mut st.passes, done);
            } else {
                st.open = Some(p);
            }
        },
    }
}

/// Whether the first space-separated token of the trimmed line is `word`, in any case.
pub fn directive_is(line: &[u8], word: &[u8]) -> (r: bool)
    ensures
        r == is_directive(line@, word@),
{
    let (lo, hi) = trim_bounds(line);
    let t = copy_range(line, lo, hi);
    if !starts_with_ci(t.as_slice(), word) {
        return false;
    }
    t.len() == word.len() || t[word.len()] == SPACE
}

} // verus!

verus! {

/// The models of a list of passes.
pub open spec fn pass_models(ps: Seq<Pass>) -> Seq<PassModel> {
    ps.map_values(|p: Pass| p@)
}

fn line_bounds(s: &[u8], pos: usize) -> (r: (usize, usize))
    requires
        pos < s@.len(),
    ensures
        pos <= r.0 <= r.1 <= s@.len(),
        r.0 as int == line_end(s@, pos as int),
        r.1 as int == find_from(s@, NEWLINE, pos as int),
{
    let nl = find_byte(s, NEWLINE, pos);
    proof {
        lemma_find_from_bounds(s@, NEWLINE, pos as int);
    }
    if nl < s.len() && nl > pos && s[nl - 1] == RETURN {
        (nl - 1, nl)
    } else {
        (nl, nl)
    }
}

fn scan_passes(s: &[u8]) -> (r: ScanState)
    requires
        s@.len() < usize::MAX,
    ensures
        r@ == parse_passes(s@),
{
    let mut st = ScanState { passes: Vec::new(), open: None, diags: Vec::new() };
    assert(pass_models(st.passes@) =~= Seq::<PassModel>::empty());
    assert(st@ == initial_scan());
    let mut pos: usize = 0;
    let mut n: usize = 1;
    while pos < s.len()
        invariant
            pos <= s@.len() + 1,
            s@.len() < usize::MAX,
            1 <= n <= pos + 1,
            scan_from(st@, s@, pos as int, n) == scan_from(initial_scan(), s@, 0, 1),
            match st.open {
                Some(p) => p.depth <= pos && open_wf(p@),
                None => true,
            },
        decreases s@.len() + 1 - pos,
    {
        let (hi, nl) = line_bounds(s, pos);
        let line = copy_range(s, pos, hi);
        scan_one_line(&mut st, line.as_slice(), n, pos);
        pos = nl + 1;
        n = n + 1;
    }
    let last = n - 1;
    let open = st.open.take();
    match open {
        None => st,
        Some(p) => {
            let mut stages = p.stages;
            if p.stage_open {
                close_last_block(&mut stages, last);
            }
            let index = st.passes.len();
            push_pass(
                &mut st.passes,
                Pass {
                    name: p.name,
                    start: p.start,
                    end: last,
                    stages: PassStages { blocks: stages },
                    terminated: false,
                },
            );
            st.diags.push(Diagnostic::UnterminatedPass { pass: index });
            st
        },
    }
}

fn scan_name(s: &[u8]) -> (r: Option<String>)
    requires
        s@.len() < usize::MAX,
    ensures
        text_view(r) == name_from(s@, 0),
{
    let word: [u8; 4] = [78, 65, 77, 69];
    assert(word@ =~= word_name());
    let mut pos: usize = 0;
    while pos < s.len()
        invariant
            pos <= s@.len() + 1,
            s@.len() < usize::MAX,
            name_from(s@, pos as int) == name_from(s@, 0),
            word@ == word_name(),
        decreases s@.len() + 1 - pos,
    {
        let (hi, nl) = line_bounds(s, pos);
        let line = copy_range(s, pos, hi);
        if directive_is(line.as_slice(), &word) {
            let q = quoted_value(line.as_slice());
            if q.is_some() {
                return q;
            }
        }
        pos = nl + 1;
    }
    None
}

/// A parsed shader description: the asset name, the passes, and the
/// diagnostics met on malformed input.
pub struct Parser {
    name: Option<String>,
    passes: Vec<Pass>,
    diagnostics: Vec<Diagnostic>,
}

impl Parser {
    /// The asset name.
    pub closed spec fn spec_name(&self) -> Option<Seq<char>> {
        text_view(self.name)
    }

    /// The passes, in the order they appear.
    pub closed spec fn spec_passes(&self) -> Seq<PassModel> {
        pass_models(self.passes@)
    }

    /// The diagnostics, in the order they were met.
    pub closed spec fn spec_diagnostics(&self) -> Seq<Diagnostic> {
        self.diagnostics@
    }

    /// Parses a description. The name is the quoted value of the first
    /// `NAME` line that has one; the passes and diagnostics are those of
    /// `parse_passes`.
    pub fn new(text: &str) -> (r: Parser)
        requires
            text.spec_bytes().len() < usize::MAX,
        ensures
            r.spec_name() == name_from(text.spec_bytes(), 0),
            r.spec_passes() == parse_passes(text.spec_bytes()).passes,
            r.spec_diagnostics() == parse_passes(text.spec_bytes()).diags,
    {
        let bytes = text.as_bytes();
        let name = scan_name(bytes);
        let scan = scan_passes(bytes);
        Parser { name, passes: scan.passes, diagnostics: scan.diags }
    }

    /// The asset name, if a `NAME` line gave one.
    pub fn get_name(&self) -> (r: &Option<String>)
        ensures
            text_view(*r) == self.spec_name(),
    {
        &self.name
    }

    /// The passes.
    pub fn get_passes(&self) -> (r: &Vec<Pass>)
        ensures
            pass_models(r@) == self.spec_passes(),
    {
        &self.passes
    }

    /// The diagnostics.
    pub fn diagnostics(&self) -> (r: &Vec<Diagnostic>)
        ensures
            r@ == self.spec_diagnostics(),
    {
        &self.diagnostics
    }

    /// The byte offset in `text` where the line that follows `line` lines
    /// begins, or the length of `text` when it has no more lines.
    pub fn goto(line: usize, text: &str) -> (r: usize)
        ensures
            r == line_start(text.spec_bytes(), 0, line as nat),
    {
        let s = text.as_bytes();
        let mut pos: usize = 0;
        let mut k: usize = line;
        while k > 0 && pos < s.len()
            invariant
                pos <= s@.len(),
                line_start(s@, pos as int, k as nat) == line_start(s@, 0, line as nat),
            decreases k,
        {
            let (_hi, nl) = line_bounds(s, pos);
            let ghost was = pos as int;
            if nl < s.len() {
                pos = nl + 1;
            } else {
                pos = s.len();
                assert(line_start(s@, next_line(s@, was), (k - 1) as nat) == s@.len());
            }
            assert(line_start(s@, was, k as nat) == line_start(s@, next_line(s@, was), (k - 1) as nat));
            k = k - 1;
        }
        pos
    }
}

} // verus!
