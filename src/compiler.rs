//! The compiler engine's own state: the table of programs with its free
//! list, the keywords reserved with the backend, the preamble, and the SPIR-V
//! buffer of the most recent fetch.
//!
//! The backend itself is driven by the caller. Each operation here decides
//! whether the backend may be asked, and records what it answered: a native
//! program object is a nonzero `u64`, and a registration result of all ones
//! means the backend refused a keyword.

use vstd::prelude::*;
use vstd::string::StringExecFns;
use crate::text::text_view;
use crate::spirv::{decode_spirv, decode_words, encode_spirv, encode_words, SpirvError};

verus! {

/// The registration result by which the backend refuses a keyword.
pub const KEYWORD_REFUSED: u64 = 0xffff_ffff_ffff_ffff;

/// Why an engine operation was refused.
#[derive(Debug, Clone, Copy, PartialEq, Eq)]
pub enum EngineError {
    /// The handle names no live program.
    NotLive,
    /// The program has no stage attached, so it cannot be linked.
    NothingAttached,
    /// The program is not linked, so it has no SPIR-V to give.
    NotLinked,
    /// The keyword was never reserved.
    NotReserved,
    /// The backend refused to register the keyword.
    RegistrationFailed,
}

/// A program as values: its native object (0 once deleted), the log of the
/// keywords added to it (one per line), whether its last link succeeded,
/// and the stage handles attached to it.
pub struct ProgramModel {
    pub native: u64,
    pub keywords: Seq<char>,
    pub linked: bool,
    pub stages: Seq<usize>,
}

/// The engine as values. `free` holds the slot indices (handle - 1) that may
/// be reused.
pub struct EngineModel {
    pub programs: Seq<ProgramModel>,
    pub free: Set<usize>,
    pub spirv: Seq<u32>,
    pub reserved: Seq<Seq<char>>,
    pub preamble: Option<Seq<char>>,
}

/// A slot is free exactly when its program was deleted.
pub open spec fn engine_wf(m: EngineModel) -> bool {
    &&& m.programs.len() <= usize::MAX
    &&& forall|j: usize| #[trigger] m.free.contains(j) ==> j < m.programs.len()
    &&& forall|i: int|
        0 <= i < m.programs.len() ==> (#[trigger] m.programs[i].native == 0 <==> m.free.contains(
            i as usize,
        ))
}

/// Handle `h` names a program that was created and not deleted.
pub open spec fn live(m: EngineModel, h: int) -> bool {
    1 <= h <= m.programs.len() && m.programs[h - 1].native != 0
}

pub open spec fn fresh_program(native: u64) -> ProgramModel {
    ProgramModel { native, keywords: seq![], linked: false, stages: seq![] }
}

/// `create_program` gave handle `h` to a new program: in the lowest free
/// slot when there is one, else in a new slot at the end.
pub open spec fn create_post(m0: EngineModel, m1: EngineModel, native: u64, h: usize) -> bool {
    &&& m1.spirv == m0.spirv
    &&& m1.reserved == m0.reserved
    &&& m1.preamble == m0.preamble
    &&& if m0.free.is_empty() {
        &&& h == m0.programs.len() + 1
        &&& m1.programs == m0.programs.push(fresh_program(native))
        &&& m1.free == m0.free
    } else {
        &&& h >= 1
        &&& m0.free.contains((h - 1) as usize)
        &&& forall|k: usize| #[trigger] m0.free.contains(k) ==> h - 1 <= k
        &&& m1.programs == m0.programs.update(h - 1, fresh_program(native))
        &&& m1.free == m0.free.remove((h - 1) as usize)
    }
}

/// `delete_program(h)`: a live program gives up its native object, which is
/// returned for destruction, and its slot becomes free; any other handle is
/// refused and nothing changes.
pub open spec fn delete_post(
    m0: EngineModel,
    m1: EngineModel,
    h: usize,
    r: Result<u64, EngineError>,
) -> bool {
    if live(m0, h as int) {
        &&& r == Ok::<u64, EngineError>(m0.programs[h - 1].native)
        &&& m1 == EngineModel {
            programs: m0.programs.update(h - 1, ProgramModel { native: 0, ..m0.programs[h - 1] }),
            free: m0.free.insert((h - 1) as usize),
            ..m0
        }
    } else {
        r == Err::<u64, EngineError>(EngineError::NotLive) && m1 == m0
    }
}

/// A program can be linked when it is live and has a stage attached.
pub open spec fn linkable(m: EngineModel, h: int) -> bool {
    live(m, h) && m.programs[h - 1].stages.len() > 0
}

/// `link(h, answer)`: the backend's answer becomes the linked flag.
pub open spec fn link_post(
    m0: EngineModel,
    m1: EngineModel,
    h: usize,
    answer: bool,
    r: Result<bool, EngineError>,
) -> bool {
    if !live(m0, h as int) {
        r == Err::<bool, EngineError>(EngineError::NotLive) && m1 == m0
    } else if m0.programs[h - 1].stages.len() == 0 {
        r == Err::<bool, EngineError>(EngineError::NothingAttached) && m1 == m0
    } else {
        &&& r == Ok::<bool, EngineError>(answer)
        &&& m1 == EngineModel {
            programs: m0.programs.update(h - 1, ProgramModel { linked: answer, ..m0.programs[h - 1] }),
            ..m0
        }
    }
}

/// `get_spirv_for_stage(h, fetched)`: the buffer takes the fetched words when
/// the program is live and linked and the backend gave words; otherwise it
/// is emptied.
pub open spec fn fetch_post(
    m0: EngineModel,
    m1: EngineModel,
    h: usize,
    fetched: Option<Seq<u32>>,
) -> bool {
    m1 == EngineModel {
        spirv: if live(m0, h as int) && m0.programs[h - 1].linked && fetched is Some {
            fetched->Some_0
        } else {
            seq![]
        },
        ..m0
    }
}

/// The native objects of the live programs, in slot order.
pub open spec fn live_natives(ps: Seq<ProgramModel>) -> Seq<u64>
    decreases ps.len(),
{
    if ps.len() == 0 {
        seq![]
    } else if ps.last().native != 0 {
        live_natives(ps.drop_last()).push(ps.last().native)
    } else {
        live_natives(ps.drop_last())
    }
}

pub open spec fn words_view(o: Option<Vec<u32>>) -> Option<Seq<u32>> {
    match o {
        Some(v) => Some(v@),
        None => None,
    }
}

/// After a program was deleted, a new program may take its slot; the new
/// handle is then live and differs from the handle of every program that
/// was live beside it, and those programs are untouched.
pub proof fn lemma_reuse_is_safe(
    m0: EngineModel,
    h: usize,
    m1: EngineModel,
    r: Result<u64, EngineError>,
    native: u64,
    m2: EngineModel,
    h2: usize,
)
    requires
        engine_wf(m0),
        delete_post(m0, m1, h, r),
        native != 0,
        create_post(m1, m2, native, h2),
    ensures
        engine_wf(m1),
        engine_wf(m2),
        live(m2, h2 as int),
        forall|g: int| live(m1, g) ==> g != h2 && live(m2, g) && m2.programs[g - 1] == m1.programs[g - 1],
{
    lemma_delete_wf(m0, h, m1, r);
    lemma_create_wf(m1, native, m2, h2);
    assert forall|g: int| live(m1, g) implies g != h2 && live(m2, g) && m2.programs[g - 1]
        == m1.programs[g - 1] by {
        if !m1.free.is_empty() {
            assert(m1.programs[g - 1].native != 0);
            assert(!m1.free.contains((g - 1) as usize));
        }
    }
}

proof fn lemma_delete_wf(m0: EngineModel, h: usize, m1: EngineModel, r: Result<u64, EngineError>)
    requires
        engine_wf(m0),
        delete_post(m0, m1, h, r),
    ensures
        engine_wf(m1),
{
    if live(m0, h as int) {
        assert forall|i: int| 0 <= i < m1.programs.len() implies (#[trigger] m1.programs[i].native
            == 0 <==> m1.free.contains(i as usize)) by {
            if i != h - 1 {
                assert(m1.programs[i] == m0.programs[i]);
            }
        }
    }
}

proof fn lemma_create_wf(m0: EngineModel, native: u64, m1: EngineModel, h: usize)
    requires
        engine_wf(m0),
        native != 0,
        create_post(m0, m1, native, h),
    ensures
        engine_wf(m1),
        live(m1, h as int),
{
    assert forall|i: int| 0 <= i < m1.programs.len() implies (#[trigger] m1.programs[i].native
        == 0 <==> m1.free.contains(i as usize)) by {
        if i != h - 1 {
            assert(m1.programs[i] == m0.programs[i]);
        }
    }
}

/// Once `link` has answered false, fetching SPIR-V for that program empties
/// the buffer, whatever it held before and whatever the backend hands over.
pub proof fn lemma_failed_link_clears_spirv(
    m0: EngineModel,
    h: usize,
    m1: EngineModel,
    m2: EngineModel,
    fetched: Option<Seq<u32>>,
)
    requires
        link_post(m0, m1, h, false, Ok(false)),
        fetch_post(m1, m2, h, fetched),
    ensures
        m2.spirv.len() == 0,
{
}

} // verus!

verus! {

/// A program slot.
struct Program {
    native: u64,
    keywords: String,
    linked: bool,
    stages: Vec<usize>,
}

impl View for Program {
    type V = ProgramModel;

    closed spec fn view(&self) -> ProgramModel {
        ProgramModel {
            native: self.native,
            keywords: self.keywords@,
            linked: self.linked,
            stages: self.stages@,
        }
    }
}

fn new_program(native: u64) -> (p: Program)
    ensures
        p@ == fresh_program(native),
{
    let p = Program { native, keywords: String::new(), linked: false, stages: Vec::new() };
    assert(p@.keywords =~= Seq::<char>::empty());
    p
}

/// The compiler engine's state.
pub struct ShaderCompiler {
    spirv: Vec<u32>,
    programs: Vec<Program>,
    programs_free_list: Vec<usize>,
    reserved: Vec<String>,
    preamble: Option<String>,
}

impl View for ShaderCompiler {
    type V = EngineModel;

    closed spec fn view(&self) -> EngineModel {
        EngineModel {
            programs: self.programs@.map_values(|p: Program| p@),
            free: self.programs_free_list@.to_set(),
            spirv: self.spirv@,
            reserved: self.reserved@.map_values(|s: String| s@),
            preamble: text_view(self.preamble),
        }
    }
}

proof fn lemma_free_remove(s: Seq<usize>, k: int)
    requires
        s.no_duplicates(),
        0 <= k < s.len(),
    ensures
        s.remove(k).no_duplicates(),
        s.remove(k).to_set() == s.to_set().remove(s[k]),
{
    let t = s.remove(k);
    assert forall|x: usize| t.to_set().contains(x) <==> s.to_set().remove(s[k]).contains(x) by {
        if t.contains(x) {
            let i = choose|i: int| 0 <= i < t.len() && t[i] == x;
            if i < k {
                assert(s[i] == x);
            } else {
                assert(s[i + 1] == x);
            }
        }
        if s.contains(x) && x != s[k] {
            let i = choose|i: int| 0 <= i < s.len() && s[i] == x;
            if i < k {
                assert(t[i] == x);
            } else {
                assert(t[i - 1] == x);
            }
        }
    }
    assert(t.to_set() =~= s.to_set().remove(s[k]));
}

impl ShaderCompiler {
    /// The free list holds each slot once.
    pub closed spec fn free_distinct(&self) -> bool {
        self.programs_free_list@.no_duplicates()
    }

    pub open spec fn wf(&self) -> bool {
        engine_wf(self@) && self.free_distinct()
    }

    /// An engine with no program, no reserved keyword, no preamble and an
    /// empty SPIR-V buffer.
    pub fn new() -> (r: ShaderCompiler)
        ensures
            r.wf(),
            r@.programs.len() == 0,
            r@.free.is_empty(),
            r@.spirv.len() == 0,
            r@.reserved.len() == 0,
            r@.preamble is None,
    {
        let r = ShaderCompiler {
            spirv: Vec::new(),
            programs: Vec::new(),
            programs_free_list: Vec::new(),
            reserved: Vec::new(),
            preamble: None,
        };
        assert(r@.free =~= Set::<usize>::empty());
        r
    }

    /// Records a program whose native object is `native`, and returns its
    /// handle: the lowest free slot is reused, else a slot is appended.
    pub fn create_program(&mut self, native: u64) -> (h: usize)
        requires
            old(self).wf(),
            native != 0,
            old(self)@.programs.len() < usize::MAX,
        ensures
            final(self).wf(),
            create_post(old(self)@, final(self)@, native, h),
            live(final(self)@, h as int),
    {
        let ghost m0 = self@;
        if self.programs_free_list.len() == 0 {
            self.programs.push(new_program(native));
            proof {
                assert(self@.programs =~= m0.programs.push(fresh_program(native)));
                assert(m0.free =~= Set::<usize>::empty());
                lemma_create_wf(m0, native, self@, self.programs@.len() as usize);
            }
            return self.programs.len();
        }
        let mut k: usize = 0;
        let mut i: usize = 1;
        while i < self.programs_free_list.len()
            invariant
                0 < self.programs_free_list@.len(),
                k < i <= self.programs_free_list@.len(),
                forall|j: int| 0 <= j < i ==> self.programs_free_list@[k as int] <= #[trigger] self.programs_free_list@[j],
            decreases self.programs_free_list@.len() - i,
        {
            if self.programs_free_list[i] < self.programs_free_list[k] {
                k = i;
            }
            i = i + 1;
        }
        let ghost free0 = self.programs_free_list@;
        let slot = self.programs_free_list.remove(k);
        assert(m0.free.contains(slot));
        self.programs.set(slot, new_program(native));
        proof {
            lemma_free_remove(free0, k as int);
            assert(self@.programs =~= m0.programs.update(slot as int, fresh_program(native)));
            assert forall|x: usize| #[trigger] m0.free.contains(x) implies slot <= x by {
                let j = choose|j: int| 0 <= j < free0.len() && free0[j] == x;
            }
            assert(!m0.free.is_empty());
            lemma_create_wf(m0, native, self@, (slot + 1) as usize);
        }
        slot + 1
    }

    /// Deletes the program of a live handle: returns its native object, to
    /// be destroyed exactly once, and frees its slot. Any other handle is
    /// refused with `NotLive`.
    pub fn delete_program(&mut self, handle: usize) -> (r: Result<u64, EngineError>)
        requires
            old(self).wf(),
        ensures
            final(self).wf(),
            delete_post(old(self)@, final(self)@, handle, r),
    {
        let ghost m0 = self@;
        if handle == 0 || handle > self.programs.len() {
            return Err(EngineError::NotLive);
        }
        let index = handle - 1;
        let native = self.programs[index].native;
        if native == 0 {
            return Err(EngineError::NotLive);
        }
        let mut p = new_program(0);
        self.programs.set_and_swap(index, &mut p);
        p.native = 0;
        self.programs.set(index, p);
        assert(m0.programs[index as int].native != 0);
        assert(!m0.free.contains(index));
        let ghost free0 = self.programs_free_list@;
        self.programs_free_list.push(index);
        proof {
            let f1 = self.programs_free_list@;
            assert forall|x: usize| f1.contains(x) <==> free0.contains(x) || x == index by {
                if f1.contains(x) {
                    let j = choose|j: int| 0 <= j < f1.len() && f1[j] == x;
                    if j < free0.len() {
                        assert(free0[j] == x);
                    }
                }
                if free0.contains(x) {
                    let j = choose|j: int| 0 <= j < free0.len() && free0[j] == x;
                    assert(f1[j] == x);
                }
                if x == index {
                    assert(f1[free0.len() as int] == x);
                }
            }
            assert(self@.programs =~= m0.programs.update(
                index as int,
                ProgramModel { native: 0, ..m0.programs[index as int] },
            ));
            assert(self@.free =~= m0.free.insert(index));
            lemma_delete_wf(m0, handle, self@, Ok(native));
        }
        Ok(native)
    }

    /// Whether `handle` names a live program.
    pub fn is_live(&self, handle: usize) -> (r: bool)
        ensures
            r == live(self@, handle as int),
    {
        handle >= 1 && handle <= self.programs.len() && self.programs[handle - 1].native != 0
    }

    /// The native object of a live program, for the backend calls made on it.
    pub fn native_program(&self, handle: usize) -> (r: Result<u64, EngineError>)
        ensures
            live(self@, handle as int) ==> r == Ok::<u64, EngineError>(self@.programs[handle - 1].native),
            !live(self@, handle as int) ==> r == Err::<u64, EngineError>(EngineError::NotLive),
    {
        if self.is_live(handle) {
            Ok(self.programs[handle - 1].native)
        } else {
            Err(EngineError::NotLive)
        }
    }

    /// Attaches compiled stage `stage` to a live program, before linking;
    /// returns the program's native object, to which the backend attaches it.
    pub fn add(&mut self, program: usize, stage: usize) -> (r: Result<u64, EngineError>)
        requires
            old(self).wf(),
        ensures
            final(self).wf(),
            live(old(self)@, program as int) ==> {
                &&& r == Ok::<u64, EngineError>(old(self)@.programs[program - 1].native)
                &&& final(self)@ == (EngineModel {
                    programs: old(self)@.programs.update(
                        program - 1,
                        ProgramModel {
                            stages: old(self)@.programs[program - 1].stages.push(stage),
                            ..old(self)@.programs[program - 1]
                        },
                    ),
                    ..old(self)@
                })
            },
            !live(old(self)@, program as int) ==> r == Err::<u64, EngineError>(EngineError::NotLive)
                && final(self)@ == old(self)@,
    {
        let ghost m0 = self@;
        if !self.is_live(program) {
            return Err(EngineError::NotLive);
        }
        let index = program - 1;
        let mut p = new_program(0);
        self.programs.set_and_swap(index, &mut p);
        p.stages.push(stage);
        let native = p.native;
        self.programs.set(index, p);
        proof {
            assert(self@.programs =~= m0.programs.update(
                index as int,
                ProgramModel { stages: m0.programs[index as int].stages.push(stage), ..m0.programs[index as int] },
            ));
            assert forall|i: int| 0 <= i < self@.programs.len() implies (#[trigger] self@.programs[i].native
                == 0 <==> self@.free.contains(i as usize)) by {
                if i != index {
                    assert(self@.programs[i] == m0.programs[i]);
                }
            }
        }
        Ok(native)
    }

    /// The native object of a program that can be linked: live, with a
    /// stage attached.
    pub fn link_target(&self, program: usize) -> (r: Result<u64, EngineError>)
        ensures
            !live(self@, program as int) ==> r == Err::<u64, EngineError>(EngineError::NotLive),
            live(self@, program as int) && !linkable(self@, program as int) ==> r == Err::<
                u64,
                EngineError,
            >(EngineError::NothingAttached),
            linkable(self@, program as int) ==> r == Ok::<u64, EngineError>(
                self@.programs[program - 1].native,
            ),
    {
        if !self.is_live(program) {
            return Err(EngineError::NotLive);
        }
        if self.programs[program - 1].stages.len() == 0 {
            return Err(EngineError::NothingAttached);
        }
        Ok(self.programs[program - 1].native)
    }

    /// Records the backend's link answer for a program that can be linked:
    /// each answer overwrites the linked flag and is returned.
    pub fn link(&mut self, program: usize, answer: bool) -> (r: Result<bool, EngineError>)
        requires
            old(self).wf(),
        ensures
            final(self).wf(),
            link_post(old(self)@, final(self)@, program, answer, r),
    {
        let ghost m0 = self@;
        if !self.is_live(program) {
            return Err(EngineError::NotLive);
        }
        let index = program - 1;
        if self.programs[index].stages.len() == 0 {
            return Err(EngineError::NothingAttached);
        }
        let mut p = new_program(0);
        self.programs.set_and_swap(index, &mut p);
        p.linked = answer;
        self.programs.set(index, p);
        proof {
            assert(self@.programs =~= m0.programs.update(
                index as int,
                ProgramModel { linked: answer, ..m0.programs[index as int] },
            ));
            assert forall|i: int| 0 <= i < self@.programs.len() implies (#[trigger] self@.programs[i].native
                == 0 <==> self@.free.contains(i as usize)) by {
                if i != index {
                    assert(self@.programs[i] == m0.programs[i]);
                }
            }
        }
        Ok(answer)
    }

    /// Whether `kw` was reserved.
    pub fn is_reserved(&self, kw: &str) -> (r: bool)
        ensures
            r == self@.reserved.contains(kw@),
    {
        let k = String::from_str(kw);
        let mut i: usize = 0;
        while i < self.reserved.len()
            invariant
                i <= self.reserved@.len(),
                k@ == kw@,
                forall|j: int| 0 <= j < i ==> self@.reserved[j] != kw@,
            decreases self.reserved@.len() - i,
        {
            if self.reserved[i] == k {
                assert(self@.reserved[i as int] == kw@);
                return true;
            }
            i = i + 1;
        }
        false
    }

    /// Records the backend's answer to reserving `kw`: a refusal is an error
    /// (fatal to the caller); otherwise `kw` counts as reserved from now on.
    pub fn reserve_keyword(&mut self, kw: &str, result: u64) -> (r: Result<(), EngineError>)
        requires
            old(self).wf(),
        ensures
            final(self).wf(),
            result == KEYWORD_REFUSED ==> r == Err::<(), EngineError>(EngineError::RegistrationFailed)
                && final(self)@ == old(self)@,
            result != KEYWORD_REFUSED ==> r is Ok && final(self)@ == (EngineModel {
                reserved: old(self)@.reserved.push(kw@),
                ..old(self)@
            }),
    {
        if result == KEYWORD_REFUSED {
            return Err(EngineError::RegistrationFailed);
        }
        let ghost m0 = self@;
        self.reserved.push(String::from_str(kw));
        assert(self@.reserved =~= m0.reserved.push(kw@));
        Ok(())
    }

    /// Whether the backend may be asked to enable `kw` in the current compile
    /// unit: only a reserved keyword may; any other is refused (fatal to
    /// the caller).
    pub fn enable_keyword(&self, kw: &str) -> (r: Result<(), EngineError>)
        ensures
            self@.reserved.contains(kw@) <==> r is Ok,
            !self@.reserved.contains(kw@) ==> r == Err::<(), EngineError>(EngineError::NotReserved),
    {
        self.require_reserved(kw)
    }

    /// Whether the backend may be asked to disable `kw` in the current
    /// compile unit: only a reserved keyword may.
    pub fn disable_keyword(&self, kw: &str) -> (r: Result<(), EngineError>)
        ensures
            self@.reserved.contains(kw@) <==> r is Ok,
            !self@.reserved.contains(kw@) ==> r == Err::<(), EngineError>(EngineError::NotReserved),
    {
        self.require_reserved(kw)
    }

    /// Whether the backend may be asked to enable `kw` process-wide: only a
    /// reserved keyword may.
    pub fn enable_global_keyword(&self, kw: &str) -> (r: Result<(), EngineError>)
        ensures
            self@.reserved.contains(kw@) <==> r is Ok,
            !self@.reserved.contains(kw@) ==> r == Err::<(), EngineError>(EngineError::NotReserved),
    {
        self.require_reserved(kw)
    }

    /// Whether the backend may be asked to disable `kw` process-wide: only a
    /// reserved keyword may.
    pub fn disable_global_keyword(&self, kw: &str) -> (r: Result<(), EngineError>)
        ensures
            self@.reserved.contains(kw@) <==> r is Ok,
            !self@.reserved.contains(kw@) ==> r == Err::<(), EngineError>(EngineError::NotReserved),
    {
        self.require_reserved(kw)
    }

    fn require_reserved(&self, kw: &str) -> (r: Result<(), EngineError>)
        ensures
            self@.reserved.contains(kw@) <==> r is Ok,
            !self@.reserved.contains(kw@) ==> r == Err::<(), EngineError>(EngineError::NotReserved),
    {
        if self.is_reserved(kw) {
            Ok(())
        } else {
            Err(EngineError::NotReserved)
        }
    }

    /// Records the backend's registration of `kw` for a live program: a
    /// refusal is an error (fatal to the caller); otherwise the keyword and a
    /// line break are appended to the program's keyword log.
    pub fn add_keyword(&mut self, program: usize, kw: &str, result: u64) -> (r: Result<(), EngineError>)
        requires
            old(self).wf(),
        ensures
            final(self).wf(),
            !live(old(self)@, program as int) ==> r == Err::<(), EngineError>(EngineError::NotLive)
                && final(self)@ == old(self)@,
            live(old(self)@, program as int) && result == KEYWORD_REFUSED ==> r == Err::<
                (),
                EngineError,
            >(EngineError::RegistrationFailed) && final(self)@ == old(self)@,
            live(old(self)@, program as int) && result != KEYWORD_REFUSED ==> r is Ok && final(self)@
                == (EngineModel {
                programs: old(self)@.programs.update(
                    program - 1,
                    ProgramModel {
                        keywords: old(self)@.programs[program - 1].keywords + kw@ + seq!['\n'],
                        ..old(self)@.programs[program - 1]
                    },
                ),
                ..old(self)@
            }),
    {
        let ghost m0 = self@;
        if !self.is_live(program) {
            return Err(EngineError::NotLive);
        }
        if result == KEYWORD_REFUSED {
            return Err(EngineError::RegistrationFailed);
        }
        let index = program - 1;
        let mut p = new_program(0);
        self.programs.set_and_swap(index, &mut p);
        p.keywords.append(kw);
        p.keywords.append("\n");
        self.programs.set(index, p);
        proof {
            reveal_strlit("\n");
            assert("\n"@ =~= seq!['\n']);
            assert(self.programs@[index as int]@.keywords =~= m0.programs[index as int].keywords + kw@ + seq!['\n']);
            assert(self@.programs =~= m0.programs.update(
                index as int,
                ProgramModel {
                    keywords: m0.programs[index as int].keywords + kw@ + seq!['\n'],
                    ..m0.programs[index as int]
                },
            ));
            assert forall|i: int| 0 <= i < self@.programs.len() implies (#[trigger] self@.programs[i].native
                == 0 <==> self@.free.contains(i as usize)) by {
                if i != index {
                    assert(self@.programs[i] == m0.programs[i]);
                }
            }
        }
        Ok(())
    }

    /// The keyword log of a live program.
    pub fn keyword_log(&self, program: usize) -> (r: Result<String, EngineError>)
        ensures
            live(self@, program as int) ==> r is Ok && r->Ok_0@ == self@.programs[program - 1].keywords,
            !live(self@, program as int) ==> r == Err::<String, EngineError>(EngineError::NotLive),
    {
        if !self.is_live(program) {
            return Err(EngineError::NotLive);
        }
        Ok(self.programs[program - 1].keywords.clone())
    }

    /// The native object to fetch SPIR-V from: that of a live, linked program.
    pub fn spirv_source(&self, program: usize) -> (r: Result<u64, EngineError>)
        ensures
            !live(self@, program as int) ==> r == Err::<u64, EngineError>(EngineError::NotLive),
            live(self@, program as int) && !self@.programs[program - 1].linked ==> r == Err::<
                u64,
                EngineError,
            >(EngineError::NotLinked),
            live(self@, program as int) && self@.programs[program - 1].linked ==> r == Ok::<
                u64,
                EngineError,
            >(self@.programs[program - 1].native),
    {
        if !self.is_live(program) {
            return Err(EngineError::NotLive);
        }
        if !self.programs[program - 1].linked {
            return Err(EngineError::NotLinked);
        }
        Ok(self.programs[program - 1].native)
    }

    /// Records the words the backend gave for a stage of `program` (`None`
    /// when it gave none). They fill the SPIR-V buffer only when the program
    /// is live and linked; otherwise the buffer is emptied, so that it never
    /// holds stale words.
    pub fn get_spirv_for_stage(&mut self, program: usize, fetched: Option<Vec<u32>>)
        requires
            old(self).wf(),
        ensures
            final(self).wf(),
            fetch_post(old(self)@, final(self)@, program, words_view(fetched)),
    {
        let ready = self.is_live(program) && self.programs[program - 1].linked;
        match fetched {
            Some(words) if ready => {
                self.spirv = words;
            },
            _ => {
                self.spirv = Vec::new();
            },
        }
        assert(self@ =~= EngineModel {
            spirv: self.spirv@,
            ..old(self)@
        });
    }

    /// The number of words in the SPIR-V buffer.
    pub fn get_spirv_size(&self) -> (r: usize)
        ensures
            r == self@.spirv.len(),
    {
        self.spirv.len()
    }

    /// The SPIR-V buffer.
    pub fn spirv_words(&self) -> (r: &Vec<u32>)
        ensures
            r@ == self@.spirv,
    {
        &self.spirv
    }

    /// Copies the SPIR-V buffer into `dest`.
    pub fn save_spirv(&self, dest: &mut Vec<u32>)
        ensures
            final(dest)@ == self@.spirv,
    {
        let mut out: Vec<u32> = Vec::new();
        let mut i: usize = 0;
        while i < self.spirv.len()
            invariant
                i <= self.spirv@.len(),
                out@ == self.spirv@.subrange(0, i as int),
            decreases self.spirv@.len() - i,
        {
            out.push(self.spirv[i]);
            assert(out@ =~= self.spirv@.subrange(0, i + 1));
            i = i + 1;
        }
        assert(self.spirv@.subrange(0, i as int) =~= self.spirv@);
        *dest = out;
    }

    /// The cache-file image of the SPIR-V buffer: four bytes per word.
    pub fn write_spirv(&self) -> (r: Vec<u8>)
        requires
            4 * self@.spirv.len() <= usize::MAX,
        ensures
            r@ == encode_words(self@.spirv),
            r@.len() == 4 * self@.spirv.len(),
    {
        proof {
            crate::spirv::lemma_spirv_round_trip(self.spirv@);
        }
        encode_spirv(self.spirv.as_slice())
    }

    /// Fills the SPIR-V buffer from a cache-file image; an image whose length
    /// is not a multiple of four is refused and the buffer kept.
    pub fn read_spirv(&mut self, bytes: &[u8]) -> (r: Result<(), SpirvError>)
        requires
            old(self).wf(),
        ensures
            final(self).wf(),
            bytes@.len() % 4 == 0 ==> r is Ok && final(self)@ == (EngineModel {
                spirv: decode_words(bytes@),
                ..old(self)@
            }),
            bytes@.len() % 4 != 0 ==> r == Err::<(), SpirvError>(SpirvError::TruncatedWord)
                && final(self)@ == old(self)@,
    {
        match decode_spirv(bytes) {
            Ok(words) => {
                self.spirv = words;
                assert(self@ =~= EngineModel { spirv: decode_words(bytes@), ..old(self)@ });
                Ok(())
            },
            Err(e) => Err(e),
        }
    }

    /// Sets the text prepended to later compiles.
    pub fn set_preamble(&mut self, text: &str)
        requires
            old(self).wf(),
        ensures
            final(self).wf(),
            final(self)@ == (EngineModel { preamble: Some(text@), ..old(self)@ }),
    {
        self.preamble = Some(String::from_str(text));
        assert(self@ =~= EngineModel { preamble: Some(text@), ..old(self)@ });
    }

    /// Removes the preamble.
    pub fn clear_preamble(&mut self)
        requires
            old(self).wf(),
        ensures
            final(self).wf(),
            final(self)@ == (EngineModel { preamble: None, ..old(self)@ }),
    {
        self.preamble = None;
        assert(self@ =~= EngineModel { preamble: None, ..old(self)@ });
    }

    /// The preamble in force.
    pub fn preamble(&self) -> (r: &Option<String>)
        ensures
            text_view(*r) == self@.preamble,
    {
        &self.preamble
    }

    /// Teardown: returns the native object of every live program, in slot
    /// order, for destruction, and leaves no program live.
    pub fn release_all(&mut self) -> (r: Vec<u64>)
        requires
            old(self).wf(),
        ensures
            final(self).wf(),
            r@ == live_natives(old(self)@.programs),
            final(self)@.programs.len() == old(self)@.programs.len(),
            forall|h: int| !live(final(self)@, h),
    {
        let ghost m0 = self@;
        let mut out: Vec<u64> = Vec::new();
        let mut i: usize = 0;
        while i < self.programs.len()
            invariant
                self.wf(),
                i <= self.programs@.len() == m0.programs.len(),
                out@ == live_natives(m0.programs.subrange(0, i as int)),
                forall|j: int| 0 <= j < i ==> #[trigger] self@.programs[j].native == 0,
                forall|j: int| i <= j < m0.programs.len() ==> #[trigger] self@.programs[j] == m0.programs[j],
            decreases m0.programs.len() - i,
        {
            let ghost before = self@;
            let native = self.programs[i].native;
            assert(m0.programs.subrange(0, i + 1).drop_last() =~= m0.programs.subrange(0, i as int));
            if native != 0 {
                out.push(native);
                let _released = self.delete_program(i + 1);
                assert(self@.programs =~= before.programs.update(
                    i as int,
                    ProgramModel { native: 0, ..before.programs[i as int] },
                ));
            }
            i = i + 1;
        }
        assert(m0.programs.subrange(0, i as int) =~= m0.programs);
        out
    }
}

} // verus!
