//! Layout: walking the statements of a program, computing the PC of each,
//! keeping per-section location counters and recording the walk plan that
//! the compiler replays.
use vstd::prelude::*;
use super::binary::AccessType;
use super::error::AsmError;
use super::plan::{PlanEntry, PlanEntryModel, PlanKind, copy_bindings, lookup, lookup_binding, next_pc};

verus! {

/// A section's location counter: where it starts, how far it has grown
/// and the most it may hold.
#[derive(Debug, Clone)]
pub struct SectionState {
    pub name: String,
    pub start: usize,
    pub end: usize,
    pub max_size: Option<usize>,
}

/// The addresses from `start` up to `end`.
#[derive(Debug, Clone, Copy, PartialEq, Eq, Structural)]
pub struct AddrRange {
    pub start: usize,
    pub end: usize,
}

/// A section as the layout left it: its name, the logical and physical
/// ranges it covers (start and end) and how it may be accessed.
#[derive(Debug, Clone)]
pub struct SectionDescriptor {
    pub name: String,
    pub logical_range: AddrRange,
    pub physical_range: AddrRange,
    pub access_type: AccessType,
}

/// The abstract state of a `Sizer`.
pub struct SizerModel {
    pub scope: u64,
    pub pc: usize,
    /// `(name, start, end, max_size)` per section, in creation order.
    pub sections: Seq<(Seq<char>, usize, usize, Option<usize>)>,
    pub current_section: Option<Seq<char>>,
    pub plan: Seq<PlanEntryModel>,
    /// The loop-index values in force, outermost first.
    pub bindings: Seq<(u64, i64)>,
    /// Symbol values set by labels, in the order set; the latest value of
    /// a symbol is the one in force.
    pub symbols: Seq<(u64, i64)>,
}

/// Index of the first section named `name` at or after `i`.
pub open spec fn find_from(secs: Seq<(Seq<char>, usize, usize, Option<usize>)>, name: Seq<char>, i: int) -> Option<int>
    decreases secs.len() - i,
{
    if i < 0 || i >= secs.len() {
        None
    } else if secs[i].0 == name {
        Some(i)
    } else {
        find_from(secs, name, i + 1)
    }
}

/// Index of the section named `name`.
pub open spec fn find_section(secs: Seq<(Seq<char>, usize, usize, Option<usize>)>, name: Seq<char>) -> Option<int> {
    find_from(secs, name, 0)
}

/// The named section, if any.
pub open spec fn section_named(secs: Seq<(Seq<char>, usize, usize, Option<usize>)>, name: Seq<char>) -> Option<(Seq<char>, usize, usize, Option<usize>)> {
    match find_section(secs, name) {
        Some(i) => Some(secs[i]),
        None => None,
    }
}

/// Sections with the end of the one named `current` (if any) set to `pc`.
pub open spec fn with_end(
    secs: Seq<(Seq<char>, usize, usize, Option<usize>)>,
    current: Option<Seq<char>>,
    pc: usize,
) -> Seq<(Seq<char>, usize, usize, Option<usize>)> {
    match current {
        Some(name) => match find_section(secs, name) {
            Some(i) => secs.update(i, (secs[i].0, secs[i].1, pc, secs[i].3)),
            None => secs,
        },
        None => secs,
    }
}

/// Sections with `name` defined afresh at `start` (replacing an earlier
/// definition in place).
pub open spec fn with_section(
    secs: Seq<(Seq<char>, usize, usize, Option<usize>)>,
    name: Seq<char>,
    start: usize,
    max_size: Option<usize>,
) -> Seq<(Seq<char>, usize, usize, Option<usize>)> {
    match find_section(secs, name) {
        Some(i) => secs.update(i, (name, start, start, max_size)),
        None => secs.push((name, start, start, max_size)),
    }
}

/// A section has grown past its maximum size.
pub open spec fn overflows(s: (Seq<char>, usize, usize, Option<usize>)) -> bool {
    match s.3 {
        Some(max) => (if s.2 >= s.1 { s.2 - s.1 } else { 0 }) > max,
        None => false,
    }
}

/// A found section is in range, has the name, and no earlier one from the
/// start index has it.
pub proof fn lemma_find_from(secs: Seq<(Seq<char>, usize, usize, Option<usize>)>, name: Seq<char>, j: int)
    requires
        0 <= j,
    ensures
        match find_from(secs, name, j) {
            Some(i) => j <= i < secs.len() && secs[i].0 == name && forall|k: int|
                j <= k < i ==> #[trigger] secs[k].0 != name,
            None => forall|k: int| j <= k < secs.len() ==> #[trigger] secs[k].0 != name,
        },
    decreases secs.len() - j,
{
    if j < secs.len() && secs[j].0 != name {
        lemma_find_from(secs, name, j + 1);
    }
}

impl SizerModel {
    /// Record a statement starting at `pc`.
    pub open spec fn emit_at(self, id: usize, kind: PlanKind, pc: usize) -> SizerModel {
        SizerModel {
            plan: self.plan.push(
                PlanEntryModel { scope_id: self.scope, node_id: id, kind, pc, bindings: self.bindings },
            ),
            ..self
        }
    }

    /// Record a statement starting at the current PC.
    pub open spec fn emit(self, id: usize, kind: PlanKind) -> SizerModel {
        self.emit_at(id, kind, self.pc)
    }

    /// Advance the PC, carrying the current section's end along.
    pub open spec fn advance(self, val: usize) -> SizerModel {
        let pc = (self.pc + val) as usize;
        SizerModel { pc, sections: with_end(self.sections, self.current_section, pc), ..self }
    }

    /// Move the PC without touching any section.
    pub open spec fn with_pc(self, pc: usize) -> SizerModel {
        SizerModel { pc, ..self }
    }

    /// The current section's end recorded at the PC.
    pub open spec fn close_current(self) -> SizerModel {
        SizerModel { sections: with_end(self.sections, self.current_section, self.pc), ..self }
    }
}

/// The layout state of an assembly walk.
pub struct Sizer {
    pub scope: u64,
    pub pc: usize,
    sections: Vec<SectionState>,
    pub current_section: Option<String>,
    pub plan: Vec<PlanEntry>,
    bindings: Vec<(u64, i64)>,
    symbols: Vec<(u64, i64)>,
}

impl View for Sizer {
    type V = SizerModel;

    closed spec fn view(&self) -> SizerModel {
        SizerModel {
            scope: self.scope,
            pc: self.pc,
            sections: self.sections@.map_values(
                |s: SectionState| (s.name@, s.start, s.end, s.max_size),
            ),
            current_section: match self.current_section {
                Some(n) => Some(n@),
                None => None,
            },
            plan: self.plan@.map_values(|e: PlanEntry| e@),
            bindings: self.bindings@,
            symbols: self.symbols@,
        }
    }
}

impl Sizer {
    /// A walk starting at PC 0 in `scope`, with no sections.
    pub fn new(scope: u64) -> (res: Sizer)
        ensures
            res@ == (SizerModel {
                scope,
                pc: 0,
                sections: Seq::empty(),
                current_section: None,
                plan: Seq::empty(),
                bindings: Seq::empty(),
                symbols: Seq::empty(),
            }),
    {
        let res = Sizer {
            scope,
            pc: 0,
            sections: Vec::new(),
            current_section: None,
            plan: Vec::new(),
            bindings: Vec::new(),
            symbols: Vec::new(),
        };
        assert(res@.sections =~= Seq::empty());
        assert(res@.plan =~= Seq::empty());
        res
    }

    /// The PC.
    pub fn get_pc(&self) -> (res: usize)
        ensures
            res == self@.pc,
    {
        self.pc
    }

    /// The value in force of the symbol `id` set by a label, if any.
    pub fn symbol_value(&self, id: u64) -> (res: Option<i64>)
        ensures
            res == lookup(self@.symbols, id),
    {
        lookup_binding(&self.symbols, id)
    }

    /// Move the PC; the address space is 64K.
    pub fn set_pc(&mut self, val: usize)
        requires
            val < 65536,
        ensures
            final(self)@ == old(self)@.with_pc(val),
    {
        self.pc = val;
    }

    /// Index of the section named `name`.
    fn find_section(&self, name: &String) -> (res: Option<usize>)
        ensures
            match res {
                Some(i) => find_section(self@.sections, name@) == Some(i as int),
                None => find_section(self@.sections, name@) is None,
            },
    {
        let ghost secs = self@.sections;
        let mut i: usize = 0;
        while i < self.sections.len()
            invariant
                0 <= i <= self.sections.len(),
                secs == self@.sections,
                secs.len() == self.sections.len(),
                find_section(secs, name@) == find_from(secs, name@, i as int),
            decreases self.sections.len() - i,
        {
            assert(secs[i as int].0 == self.sections@[i as int].name@);
            if self.sections[i].name == *name {
                return Some(i);
            }
            i = i + 1;
        }
        None
    }

    /// Record the PC as the end of the current section.
    fn close_current(&mut self)
        ensures
            final(self)@ == old(self)@.close_current(),
    {
        if let Some(cur) = &self.current_section {
            let found = self.find_section(cur);
            if let Some(i) = found {
                let ghost before = self@.sections;
                proof {
                    lemma_find_from(before, cur@, 0);
                }
                let old_s = &self.sections[i];
                let s = SectionState {
                    name: old_s.name.clone(),
                    start: old_s.start,
                    end: self.pc,
                    max_size: old_s.max_size,
                };
                self.sections.set(i, s);
                assert(self@.sections =~= before.update(
                    i as int,
                    (before[i as int].0, before[i as int].1, old(self)@.pc, before[i as int].3),
                ));
            }
        }
    }

    /// Advance the PC by `val`; the address space is 64K. The current
    /// section's end follows the PC.
    pub fn advance_pc(&mut self, val: usize)
        requires
            old(self)@.pc + val <= 65536,
        ensures
            final(self)@ == old(self)@.advance(val),
    {
        self.pc = self.pc + val;
        self.close_current();
    }

    /// Record a statement starting at the current PC.
    pub fn emit(&mut self, id: usize, kind: PlanKind)
        ensures
            final(self)@ == old(self)@.emit(id, kind),
    {
        let pc = self.pc;
        self.emit_with_pc(id, kind, pc);
    }

    /// Record a statement starting at `pc` (an instruction whose size the
    /// CPU sizer has already added to the PC).
    pub fn emit_with_pc(&mut self, id: usize, kind: PlanKind, pc: usize)
        ensures
            final(self)@ == old(self)@.emit_at(id, kind, pc),
    {
        let bindings = copy_bindings(&self.bindings);
        let ghost before = self@.plan;
        self.plan.push(PlanEntry { scope_id: self.scope, node_id: id, kind, pc, bindings });
        assert(self@.plan =~= before.push(
            PlanEntryModel { scope_id: self.scope, node_id: id, kind, pc, bindings: self@.bindings },
        ));
    }
}

} // verus!

verus! {

/// A statement as the sizer sees it, with the arguments that layout needs
/// already evaluated.
#[derive(Debug, Clone)]
pub enum SizeItem {
    /// `org <pc>`
    Org(i64),
    /// `section <name>[, start[, size]]`: a new section at `start`, or a
    /// return to an earlier one.
    Section(String, Option<(i64, Option<i64>)>),
    SetPc(usize),
    /// `put <address>`: later bytes go to `address` in the image.
    Put(i64),
    /// `rmb <bytes>`
    ReserveBytes(i64),
    /// `grabmem <source>, <size>`
    GrabMem(i64),
    /// `fdb` with this many words.
    EmitWords(usize),
    /// `fcb` with this many bytes.
    EmitBytes(usize),
    /// `fcc` with a text of this many bytes.
    EmitString(usize),
    /// `zmd <words>`
    ZeroWords(i64),
    /// `fill <size>, <byte>` (the size).
    Fill(i64),
    /// An included binary chunk `[start, end)`.
    IncBinResolved(usize, usize),
    ScopeId(u64),
    /// A label `<symbol>:`, set to the PC, or to the value of its argument
    /// where it has one.
    Label(u64, Option<i64>),
    /// A CPU instruction of so many bytes, as the CPU's sizer gives it.
    Instruction(usize),
    /// A statement with no effect on layout, recorded as it is.
    Record(PlanKind),
}

/// The value a label takes: its argument, or else the PC.
pub open spec fn label_value(pc: usize, arg: Option<i64>) -> i64 {
    match arg {
        Some(v) => v,
        None => pc as i64,
    }
}

/// The PC of a `section` statement after it, if it is known.
pub open spec fn section_target(m: SizerModel, name: Seq<char>, start_size: Option<(i64, Option<i64>)>) -> Option<usize> {
    match start_size {
        Some((s, _)) => Some(s as usize),
        None => {
            let closed = m.close_current();
            match section_named(closed.sections, name) {
                Some(sec) => Some(sec.2),
                None => None,
            }
        },
    }
}

/// Sizing the statement does not overrun the 64K address space.
pub open spec fn size_item_ok(m: SizerModel, item: SizeItem) -> bool {
    match item {
        SizeItem::Org(v) => (v as usize) < 65536,
        SizeItem::Section(name, start_size) => match section_target(m, name@, start_size) {
            Some(pc) => pc < 65536,
            None => true,
        },
        SizeItem::SetPc(v) => v < 65536,
        SizeItem::Put(v) => m.pc <= 65536 && i64::MIN <= v - m.pc <= i64::MAX,
        SizeItem::ReserveBytes(b) => b >= 0 ==> m.pc + b <= 65536,
        SizeItem::GrabMem(size) => m.pc + (size as usize) <= 65536,
        SizeItem::EmitWords(n) => m.pc + 2 * n <= 65536,
        SizeItem::EmitBytes(n) => m.pc + n <= 65536,
        SizeItem::EmitString(n) => m.pc + n <= 65536,
        SizeItem::ZeroWords(v) => v >= 0 && m.pc + 2 * v <= 65536,
        SizeItem::Fill(size) => size >= 0 && m.pc + size <= 65536,
        SizeItem::IncBinResolved(s, e) => m.pc + (if e >= s { e - s } else { 0 }) <= 65536,
        SizeItem::Record(kind) => next_pc(kind, m.pc as int) == m.pc,
        SizeItem::ScopeId(_) => true,
        SizeItem::Label(_, _) => true,
        SizeItem::Instruction(n) => m.pc + n <= 65536,
    }
}

/// The state after sizing a statement, or the error it raises.
pub open spec fn size_item_result(m: SizerModel, id: usize, item: SizeItem) -> Result<SizerModel, AsmError> {
    match item {
        SizeItem::Org(v) => Ok(m.emit(id, PlanKind::SetPc(v as usize)).with_pc(v as usize)),
        SizeItem::Section(name, start_size) => {
            let closed = m.close_current();
            match start_size {
                Some((s, size)) => {
                    let start = s as usize;
                    let max_size = match size {
                        Some(z) => Some(z as usize),
                        None => None,
                    };
                    Ok(SizerModel {
                        sections: with_section(closed.sections, name@, start, max_size),
                        current_section: Some(name@),
                        ..closed
                    }.emit(id, PlanKind::SetPc(start)).with_pc(start))
                },
                None => match section_named(closed.sections, name@) {
                    Some(sec) => Ok(SizerModel { current_section: Some(name@), ..closed }.emit(
                        id,
                        PlanKind::SetPc(sec.2),
                    ).with_pc(sec.2)),
                    None => Err(AsmError::UnknownSection(name)),
                },
            }
        },
        SizeItem::SetPc(v) => Ok(m.emit(id, PlanKind::SetPc(v)).with_pc(v)),
        SizeItem::Put(v) => Ok(m.emit(id, PlanKind::SetPutOffset((v - m.pc) as isize))),
        SizeItem::ReserveBytes(b) => if b < 0 {
            Err(AsmError::NegativeReserve(b))
        } else {
            Ok(m.emit(id, PlanKind::Skip(b as usize)).advance(b as usize))
        },
        SizeItem::GrabMem(size) => Ok(m.emit(id, PlanKind::GrabMem(size as usize)).advance(size as usize)),
        SizeItem::EmitWords(n) => Ok(m.emit(id, PlanKind::EmitWords(n)).advance((2 * n) as usize)),
        SizeItem::EmitBytes(n) => Ok(m.emit(id, PlanKind::EmitBytes(n)).advance(n)),
        SizeItem::EmitString(n) => Ok(m.emit(id, PlanKind::EmitString(n)).advance(n)),
        SizeItem::ZeroWords(v) => Ok(m.emit(id, PlanKind::ZeroWords(v as usize)).advance((2 * v) as usize)),
        SizeItem::Fill(size) => Ok(m.emit(id, PlanKind::Fill(size as usize)).advance(size as usize)),
        SizeItem::IncBinResolved(s, e) => Ok(m.emit(id, PlanKind::IncBinResolved(s, e)).advance(
            (if e >= s { e - s } else { 0 }) as usize,
        )),
        SizeItem::ScopeId(scope) => Ok(SizerModel { scope, ..m }.emit(id, PlanKind::ScopeId(scope))),
        SizeItem::Label(sym, arg) => Ok(SizerModel {
            symbols: m.symbols.push((sym, label_value(m.pc, arg))),
            ..m
        }.emit(id, PlanKind::AssignmentFromPc)),
        SizeItem::Instruction(n) => Ok(m.emit(id, PlanKind::TargetSpecific(n)).advance(n)),
        SizeItem::Record(kind) => Ok(m.emit(id, kind)),
    }
}

impl Sizer {
    /// Size one statement: record it in the plan with its PC and move the
    /// PC past it.
    pub fn size_node(&mut self, id: usize, item: &SizeItem) -> (res: Result<(), AsmError>)
        requires
            size_item_ok(old(self)@, *item),
        ensures
            match size_item_result(old(self)@, id, *item) {
                Ok(m) => res is Ok && final(self)@ == m,
                Err(e) => res == Err::<(), AsmError>(e) && final(self)@ == (if item is Section {
                    old(self)@.close_current()
                } else {
                    old(self)@
                }),
            },
    {
        match item {
            SizeItem::Org(v) => {
                let pc = *v as usize;
                self.emit(id, PlanKind::SetPc(pc));
                self.set_pc(pc);
            },
            SizeItem::Section(name, start_size) => {
                return self.size_section(id, name, *start_size);
            },
            SizeItem::SetPc(v) => {
                self.emit(id, PlanKind::SetPc(*v));
                self.set_pc(*v);
            },
            SizeItem::Put(v) => {
                let offset = (*v - self.get_pc() as i64) as isize;
                self.emit(id, PlanKind::SetPutOffset(offset));
            },
            SizeItem::ReserveBytes(bytes) => {
                if *bytes < 0 {
                    return Err(AsmError::NegativeReserve(*bytes));
                }
                self.emit(id, PlanKind::Skip(*bytes as usize));
                self.advance_pc(*bytes as usize);
            },
            SizeItem::GrabMem(size) => {
                self.emit(id, PlanKind::GrabMem(*size as usize));
                self.advance_pc(*size as usize);
            },
            SizeItem::EmitWords(n) => {
                self.emit(id, PlanKind::EmitWords(*n));
                self.advance_pc(*n * 2);
            },
            SizeItem::EmitBytes(n) => {
                self.emit(id, PlanKind::EmitBytes(*n));
                self.advance_pc(*n);
            },
            SizeItem::EmitString(n) => {
                self.emit(id, PlanKind::EmitString(*n));
                self.advance_pc(*n);
            },
            SizeItem::ZeroWords(v) => {
                self.emit(id, PlanKind::ZeroWords(*v as usize));
                self.advance_pc((*v * 2) as usize);
            },
            SizeItem::Fill(size) => {
                self.emit(id, PlanKind::Fill(*size as usize));
                self.advance_pc(*size as usize);
            },
            SizeItem::IncBinResolved(s, e) => {
                self.emit(id, PlanKind::IncBinResolved(*s, *e));
                let len = if *e >= *s {
                    *e - *s
                } else {
                    0
                };
                self.advance_pc(len);
            },
            SizeItem::ScopeId(scope) => {
                self.scope = *scope;
                self.emit(id, PlanKind::ScopeId(*scope));
            },
            SizeItem::Label(sym, arg) => {
                let value = match arg {
                    Some(v) => *v,
                    None => self.pc as i64,
                };
                self.symbols.push((*sym, value));
                self.emit(id, PlanKind::AssignmentFromPc);
            },
            SizeItem::Instruction(n) => {
                self.emit(id, PlanKind::TargetSpecific(*n));
                self.advance_pc(*n);
            },
            SizeItem::Record(kind) => {
                self.emit(id, *kind);
            },
        }
        Ok(())
    }

    /// `section`: close the current section at the PC, then start a new
    /// section at `start` (with an optional maximum size) or resume a
    /// known one where it ended.
    fn size_section(&mut self, id: usize, name: &String, start_size: Option<(i64, Option<i64>)>) -> (res:
        Result<(), AsmError>)
        requires
            size_item_ok(old(self)@, SizeItem::Section(*name, start_size)),
        ensures
            match size_item_result(old(self)@, id, SizeItem::Section(*name, start_size)) {
                Ok(m) => res is Ok && final(self)@ == m,
                Err(e) => res == Err::<(), AsmError>(e) && final(self)@ == old(self)@.close_current(),
            },
    {
        self.close_current();
        match start_size {
            Some((s, size)) => {
                let start = s as usize;
                let max_size = match size {
                    Some(z) => Some(z as usize),
                    None => None,
                };
                let found = self.find_section(name);
                let ghost before = self@.sections;
                let st = SectionState { name: name.clone(), start, end: start, max_size };
                match found {
                    Some(i) => {
                        proof {
                            lemma_find_from(before, name@, 0);
                        }
                        self.sections.set(i, st);
                        assert(self@.sections =~= with_section(before, name@, start, max_size));
                    },
                    None => {
                        self.sections.push(st);
                        assert(self@.sections =~= with_section(before, name@, start, max_size));
                    },
                }
                self.current_section = Some(name.clone());
                self.emit(id, PlanKind::SetPc(start));
                self.set_pc(start);
                Ok(())
            },
            None => {
                let found = self.find_section(name);
                match found {
                    Some(i) => {
                        proof {
                            lemma_find_from(self@.sections, name@, 0);
                        }
                        let pc = self.sections[i].end;
                        self.current_section = Some(name.clone());
                        self.emit(id, PlanKind::SetPc(pc));
                        self.set_pc(pc);
                        Ok(())
                    },
                    None => Err(AsmError::UnknownSection(name.clone())),
                }
            },
        }
    }

    /// The sections as the walk left them, in the order they were opened:
    /// each covers its start up to its end, at the same logical and
    /// physical addresses, and is readable and writable.
    pub fn section_descriptors(&self) -> (res: Vec<SectionDescriptor>)
        ensures
            res@.len() == self@.sections.len(),
            forall|i: int|
                #![trigger res@[i]]
                0 <= i < res@.len() ==> {
                    &&& res@[i].name@ == self@.sections[i].0
                    &&& res@[i].logical_range == (AddrRange { start: self@.sections[i].1, end: self@.sections[i].2 })
                    &&& res@[i].physical_range == (AddrRange { start: self@.sections[i].1, end: self@.sections[i].2 })
                    &&& res@[i].access_type == AccessType::ReadWrite
                },
    {
        let mut out: Vec<SectionDescriptor> = Vec::new();
        let mut i: usize = 0;
        while i < self.sections.len()
            invariant
                i <= self.sections@.len(),
                out@.len() == i,
                forall|j: int|
                    #![trigger out@[j]]
                    0 <= j < i ==> {
                        &&& out@[j].name@ == self.sections@[j].name@
                        &&& out@[j].logical_range == (AddrRange { start: self.sections@[j].start, end: self.sections@[j].end })
                        &&& out@[j].physical_range == (AddrRange { start: self.sections@[j].start, end: self.sections@[j].end })
                        &&& out@[j].access_type == AccessType::ReadWrite
                    },
            decreases self.sections@.len() - i,
        {
            let s = &self.sections[i];
            out.push(
                SectionDescriptor {
                    name: s.name.clone(),
                    logical_range: AddrRange { start: s.start, end: s.end },
                    physical_range: AddrRange { start: s.start, end: s.end },
                    access_type: AccessType::ReadWrite,
                },
            );
            i = i + 1;
        }
        out
    }

    /// Every section is within its maximum size; otherwise the error names
    /// an overflowing section, how far it is over, what it uses and its
    /// maximum.
    pub fn check_section_bounds(&self) -> (res: Result<(), AsmError>)
        ensures
            res is Ok <==> forall|i: int| 0 <= i < self@.sections.len() ==> !overflows(#[trigger] self@.sections[i]),
            res matches Err(e) ==> exists|i: int| 0 <= i < self@.sections.len() && {
                let s = #[trigger] self@.sections[i];
                &&& overflows(s)
                &&& e matches AsmError::SectionOverflow { name, overflow, used, max } && name@ == s.0
                    && used == s.2 - s.1 && max == s.3->0 && overflow == used - max
            },
    {
        let mut i: usize = 0;
        while i < self.sections.len()
            invariant
                0 <= i <= self.sections.len(),
                forall|k: int| 0 <= k < i ==> !overflows(#[trigger] self@.sections[k]),
            decreases self.sections.len() - i,
        {
            let s = &self.sections[i];
            assert(self@.sections[i as int] == (s.name@, s.start, s.end, s.max_size));
            if let Some(max) = s.max_size {
                let used = if s.end >= s.start {
                    s.end - s.start
                } else {
                    0
                };
                if used > max {
                    return Err(AsmError::SectionOverflow {
                        name: s.name.clone(),
                        overflow: used - max,
                        used,
                        max,
                    });
                }
            }
            i = i + 1;
        }
        Ok(())
    }
}

} // verus!

verus! {

/// Sizing a statement records exactly one plan entry, for that statement,
/// at the PC before it, and leaves the PC where that entry's kind ends.
pub proof fn lemma_sizing_records_layout(m: SizerModel, id: usize, item: SizeItem)
    requires
        size_item_ok(m, item),
        size_item_result(m, id, item) is Ok,
    ensures
        ({
            let m2 = size_item_result(m, id, item)->Ok_0;
            let e = m2.plan.last();
            &&& m2.plan.len() == m.plan.len() + 1
            &&& m2.plan.drop_last() == m.plan
            &&& e.node_id == id
            &&& e.pc == m.pc
            &&& m2.pc == next_pc(e.kind, m.pc as int)
        }),
{
    let m2 = size_item_result(m, id, item)->Ok_0;
    assert(m2.plan.drop_last() =~= m.plan);
}

} // verus!

verus! {

proof fn lemma_find_update(
    secs: Seq<(Seq<char>, usize, usize, Option<usize>)>,
    j: int,
    x: (Seq<char>, usize, usize, Option<usize>),
    name: Seq<char>,
    i: int,
)
    requires
        0 <= j < secs.len(),
        x.0 == secs[j].0,
        0 <= i,
    ensures
        find_from(secs.update(j, x), name, i) == find_from(secs, name, i),
    decreases secs.len() - i,
{
    if i < secs.len() {
        lemma_find_update(secs, j, x, name, i + 1);
    }
}

proof fn lemma_find_push(
    secs: Seq<(Seq<char>, usize, usize, Option<usize>)>,
    x: (Seq<char>, usize, usize, Option<usize>),
    name: Seq<char>,
    i: int,
)
    requires
        0 <= i <= secs.len(),
    ensures
        find_from(secs.push(x), name, i) == (match find_from(secs, name, i) {
            Some(k) => Some(k),
            None => if x.0 == name {
                Some(secs.len() as int)
            } else {
                None
            },
        }),
    decreases secs.len() - i,
{
    if i < secs.len() {
        lemma_find_push(secs, x, name, i + 1);
    } else {
        reveal_with_fuel(find_from, 2);
    }
}

/// Advancing twice is advancing by the sum.
pub proof fn lemma_advance_twice(m: SizerModel, a: usize, b: usize)
    requires
        m.pc + a + b <= usize::MAX,
    ensures
        m.advance(a).advance(b) == m.advance((a + b) as usize),
{
    let p1 = (m.pc + a) as usize;
    let p2 = (m.pc + a + b) as usize;
    match m.current_section {
        Some(name) => {
            lemma_find_from(m.sections, name, 0);
            match find_section(m.sections, name) {
                Some(i) => {
                    let s1 = with_end(m.sections, m.current_section, p1);
                    lemma_find_update(m.sections, i, (m.sections[i].0, m.sections[i].1, p1, m.sections[i].3), name, 0);
                    assert(with_end(s1, m.current_section, p2) =~= with_end(m.sections, m.current_section, p2));
                },
                None => {},
            }
        },
        None => {},
    }
}

/// Sections keep their location counters apart: leaving section `a` for a
/// new section `b`, growing `b` by `k` bytes and returning to `a` resumes
/// `a` at the address where it was left, while `b` ends `k` bytes after its
/// start.
pub proof fn lemma_sections_independent(
    m: SizerModel,
    id1: usize,
    id2: usize,
    id3: usize,
    a: String,
    b: String,
    b_start: i64,
    b_size: Option<i64>,
    k: usize,
)
    requires
        m.current_section == Some(a@),
        find_section(m.sections, a@) is Some,
        a@ != b@,
        m.pc < 65536,
        0 <= b_start < 65536,
        b_start + k <= 65536,
    ensures
        ({
            let m1 = size_item_result(m, id1, SizeItem::Section(b, Some((b_start, b_size))));
            let m2 = size_item_result(m1->Ok_0, id2, SizeItem::EmitBytes(k));
            let m3 = size_item_result(m2->Ok_0, id3, SizeItem::Section(a, None));
            &&& size_item_ok(m, SizeItem::Section(b, Some((b_start, b_size))))
            &&& m1 is Ok
            &&& size_item_ok(m1->Ok_0, SizeItem::EmitBytes(k))
            &&& m2 is Ok
            &&& size_item_ok(m2->Ok_0, SizeItem::Section(a, None))
            &&& m3 is Ok
            &&& m3->Ok_0.pc == m.pc
            &&& section_named(m3->Ok_0.sections, b@) matches Some(sb) && sb.2 == b_start + k
        }),
{
    let secs0 = m.sections;
    let ia = find_section(secs0, a@)->Some_0;
    lemma_find_from(secs0, a@, 0);
    // Leaving `a`: its end is the PC.
    let secs1 = with_end(secs0, Some(a@), m.pc);
    lemma_find_update(secs0, ia, (secs0[ia].0, secs0[ia].1, m.pc, secs0[ia].3), a@, 0);
    assert(find_section(secs1, a@) == Some(ia));
    assert(secs1[ia].2 == m.pc);
    // Defining `b`.
    let start = b_start as usize;
    let max_size = match b_size {
        Some(z) => Some(z as usize),
        None => None,
    };
    let secs2 = with_section(secs1, b@, start, max_size);
    lemma_find_from(secs1, b@, 0);
    let ib = match find_section(secs1, b@) {
        Some(i) => {
            lemma_find_update(secs1, i, (b@, start, start, max_size), a@, 0);
            lemma_find_update(secs1, i, (b@, start, start, max_size), b@, 0);
            i
        },
        None => {
            lemma_find_push(secs1, (b@, start, start, max_size), a@, 0);
            lemma_find_push(secs1, (b@, start, start, max_size), b@, 0);
            secs1.len() as int
        },
    };
    assert(find_section(secs2, a@) == Some(ia));
    assert(find_section(secs2, b@) == Some(ib));
    assert(ia != ib);
    assert(secs2[ia] == secs1[ia]);
    // Growing `b`.
    let pc2 = (start + k) as usize;
    let secs3 = with_end(secs2, Some(b@), pc2);
    lemma_find_update(secs2, ib, (secs2[ib].0, secs2[ib].1, pc2, secs2[ib].3), a@, 0);
    lemma_find_update(secs2, ib, (secs2[ib].0, secs2[ib].1, pc2, secs2[ib].3), b@, 0);
    assert(find_section(secs3, a@) == Some(ia));
    assert(secs3[ia] == secs1[ia]);
    // Returning to `a`: `b` is closed at its PC.
    let secs4 = with_end(secs3, Some(b@), pc2);
    lemma_find_update(secs3, ib, (secs3[ib].0, secs3[ib].1, pc2, secs3[ib].3), a@, 0);
    lemma_find_update(secs3, ib, (secs3[ib].0, secs3[ib].1, pc2, secs3[ib].3), b@, 0);
    assert(find_section(secs4, a@) == Some(ia));
    assert(secs4[ia].2 == m.pc);
    assert(find_section(secs4, b@) == Some(ib));
    assert(secs4[ib].2 == pc2);
    let m1 = size_item_result(m, id1, SizeItem::Section(b, Some((b_start, b_size))));
    assert(m1->Ok_0.sections == secs2);
    assert(m1->Ok_0.pc == start);
    assert(m1->Ok_0.current_section == Some(b@));
    let m2 = size_item_result(m1->Ok_0, id2, SizeItem::EmitBytes(k));
    assert(m2->Ok_0.sections == secs3);
    assert(m2->Ok_0.pc == pc2);
    let m3 = size_item_result(m2->Ok_0, id3, SizeItem::Section(a, None));
    assert(m2->Ok_0.close_current().sections == secs4);
    assert(section_named(secs4, a@) == Some(secs4[ia]));
    assert(m3->Ok_0.pc == m.pc);
}

} // verus!

verus! {

/// The most iterations a `while` loop may run; a condition that never
/// becomes zero is an error rather than a hang.
pub const MAX_WHILE_ITERATIONS: u64 = 65536;

/// The signal a `break` or `continue` statement raises for the innermost
/// loop around it.
#[derive(Debug, Clone, Copy, PartialEq, Eq, Structural)]
pub enum LoopSignal {
    Break,
    Continue,
}

/// What a loop does after a statement of its body.
#[derive(Debug, Clone, Copy, PartialEq, Eq, Structural)]
pub enum LoopStep {
    /// Go on with the next statement of the body.
    NextStatement,
    /// Start the next iteration.
    NextIteration,
    /// Leave the loop.
    ExitLoop,
}

/// What a loop does after a statement of its body that raised `signal`:
/// `break` leaves the loop, `continue` starts the next iteration, and no
/// signal goes on with the body.
pub fn loop_step(signal: Option<LoopSignal>) -> (res: LoopStep)
    ensures
        res == match signal {
            Some(LoopSignal::Break) => LoopStep::ExitLoop,
            Some(LoopSignal::Continue) => LoopStep::NextIteration,
            None => LoopStep::NextStatement,
        },
{
    match signal {
        Some(LoopSignal::Break) => LoopStep::ExitLoop,
        Some(LoopSignal::Continue) => LoopStep::NextIteration,
        None => LoopStep::NextStatement,
    }
}

/// Whether a `while` loop that has run `iterations` times runs again when
/// its condition evaluates to `cond`: not when it is zero; otherwise yes,
/// unless that would exceed the most iterations allowed, which is an error.
pub fn while_continues(iterations: u64, cond: i64) -> (res: Result<bool, AsmError>)
    ensures
        cond == 0 ==> res == Ok::<bool, AsmError>(false),
        cond != 0 && iterations + 1 > MAX_WHILE_ITERATIONS ==> res == Err::<bool, AsmError>(
            AsmError::WhileLimitExceeded(MAX_WHILE_ITERATIONS),
        ),
        cond != 0 && iterations + 1 <= MAX_WHILE_ITERATIONS ==> res == Ok::<bool, AsmError>(true),
{
    if cond == 0 {
        Ok(false)
    } else if iterations >= MAX_WHILE_ITERATIONS {
        Err(AsmError::WhileLimitExceeded(MAX_WHILE_ITERATIONS))
    } else {
        Ok(true)
    }
}

/// The statements of an `if` that are walked.
#[derive(Debug, Clone, Copy, PartialEq, Eq, Structural)]
pub enum Branch {
    /// The first so many statements after the condition: the then-branch.
    Then(usize),
    /// The children of the `else` at this position, if there is one.
    Else(Option<usize>),
}

/// The branch of an `if` whose condition evaluates to `cond` and whose
/// statements after the condition are `else` nodes where `is_else` holds:
/// when the condition is not zero, the statements before the first `else`;
/// otherwise the children of the first `else`, if any.
pub fn if_branch(cond: i64, is_else: &Vec<bool>) -> (res: Branch)
    ensures
        cond != 0 ==> res is Then,
        cond == 0 ==> res is Else,
        match res {
            Branch::Then(n) => n <= is_else@.len() && (n == is_else@.len() || is_else@[n as int])
                && forall|j: int| 0 <= j < n ==> !is_else@[j],
            Branch::Else(Some(k)) => k < is_else@.len() && is_else@[k as int] && forall|j: int|
                0 <= j < k ==> !is_else@[j],
            Branch::Else(None) => forall|j: int| 0 <= j < is_else@.len() ==> !is_else@[j],
        },
{
    let mut k: usize = 0;
    while k < is_else.len()
        invariant
            k <= is_else@.len(),
            forall|j: int| 0 <= j < k ==> !is_else@[j],
        decreases is_else@.len() - k,
    {
        if is_else[k] {
            if cond != 0 {
                return Branch::Then(k);
            } else {
                return Branch::Else(Some(k));
            }
        }
        k = k + 1;
    }
    if cond != 0 {
        Branch::Then(is_else.len())
    } else {
        Branch::Else(None)
    }
}

/// A `break` or `continue` left after the whole walk stood outside any
/// loop, which is an error.
pub fn check_loop_signal(signal: Option<LoopSignal>) -> (res: Result<(), AsmError>)
    ensures
        signal is None ==> res is Ok,
        signal is Some ==> res == Err::<(), AsmError>(AsmError::LoopSignalOutsideLoop),
{
    match signal {
        Some(_) => Err(AsmError::LoopSignalOutsideLoop),
        None => Ok(()),
    }
}

} // verus!

verus! {

/// A binary operator of a count or condition expression.
#[derive(Debug, Clone, Copy, PartialEq, Eq, Structural)]
pub enum BinOp {
    Add,
    Sub,
    Mul,
    Eq,
    Ne,
    Lt,
    Le,
    Gt,
    Ge,
    /// 1 when both operands are non-zero, else 0.
    And,
    /// 1 when either operand is non-zero, else 0.
    Or,
}

/// The count of a `repeat` or the condition of an `if` or `while`.
#[derive(Debug)]
pub enum Expr {
    Num(i64),
    /// `*`: the PC where the expression is evaluated.
    Pc,
    /// The value of a symbol: the index of an enclosing `repeat`.
    Sym(u64),
    Bin(BinOp, Box<Expr>, Box<Expr>),
}

/// `a op b`: sums, differences and products that leave the 64-bit range
/// are an error; a comparison is 1 when it holds and 0 when not.
pub open spec fn apply_op(op: BinOp, a: i64, b: i64) -> Result<i64, AsmError> {
    match op {
        BinOp::Add => if i64::MIN <= a + b <= i64::MAX {
            Ok((a + b) as i64)
        } else {
            Err(AsmError::ArithmeticOverflow)
        },
        BinOp::Sub => if i64::MIN <= a - b <= i64::MAX {
            Ok((a - b) as i64)
        } else {
            Err(AsmError::ArithmeticOverflow)
        },
        BinOp::Mul => if i64::MIN <= a * b <= i64::MAX {
            Ok((a * b) as i64)
        } else {
            Err(AsmError::ArithmeticOverflow)
        },
        BinOp::Eq => Ok(if a == b { 1 } else { 0 }),
        BinOp::Ne => Ok(if a != b { 1 } else { 0 }),
        BinOp::Lt => Ok(if a < b { 1 } else { 0 }),
        BinOp::Le => Ok(if a <= b { 1 } else { 0 }),
        BinOp::Gt => Ok(if a > b { 1 } else { 0 }),
        BinOp::Ge => Ok(if a >= b { 1 } else { 0 }),
        BinOp::And => Ok(if a != 0 && b != 0 { 1 } else { 0 }),
        BinOp::Or => Ok(if a != 0 || b != 0 { 1 } else { 0 }),
    }
}

/// The value of `e` at PC `pc` with the loop indices `env` and the symbol
/// values `syms` (a loop index hides a symbol of the same id); the left
/// operand is evaluated first and its error wins.
pub open spec fn eval_expr(e: Expr, pc: usize, env: Seq<(u64, i64)>, syms: Seq<(u64, i64)>) -> Result<i64, AsmError>
    decreases e,
{
    match e {
        Expr::Num(n) => Ok(n),
        Expr::Pc => Ok(pc as i64),
        Expr::Sym(s) => match lookup(env, s) {
            Some(v) => Ok(v),
            None => match lookup(syms, s) {
                Some(v) => Ok(v),
                None => Err(AsmError::SymbolNotFound(s)),
            },
        },
        Expr::Bin(op, a, b) => match eval_expr(*a, pc, env, syms) {
            Ok(x) => match eval_expr(*b, pc, env, syms) {
                Ok(y) => apply_op(op, x, y),
                Err(err) => Err(err),
            },
            Err(err) => Err(err),
        },
    }
}

fn apply_binop(op: BinOp, a: i64, b: i64) -> (res: Result<i64, AsmError>)
    ensures
        res == apply_op(op, a, b),
{
    match op {
        BinOp::Add => {
            if (b > 0 && a > i64::MAX - b) || (b < 0 && a < i64::MIN - b) {
                Err(AsmError::ArithmeticOverflow)
            } else {
                Ok(a + b)
            }
        },
        BinOp::Sub => {
            if (b < 0 && a > i64::MAX + b) || (b > 0 && a < i64::MIN + b) {
                Err(AsmError::ArithmeticOverflow)
            } else {
                Ok(a - b)
            }
        },
        BinOp::Mul => match a.checked_mul(b) {
            Some(p) => Ok(p),
            None => Err(AsmError::ArithmeticOverflow),
        },
        BinOp::Eq => Ok(if a == b { 1 } else { 0 }),
        BinOp::Ne => Ok(if a != b { 1 } else { 0 }),
        BinOp::Lt => Ok(if a < b { 1 } else { 0 }),
        BinOp::Le => Ok(if a <= b { 1 } else { 0 }),
        BinOp::Gt => Ok(if a > b { 1 } else { 0 }),
        BinOp::Ge => Ok(if a >= b { 1 } else { 0 }),
        BinOp::And => Ok(if a != 0 && b != 0 { 1 } else { 0 }),
        BinOp::Or => Ok(if a != 0 || b != 0 { 1 } else { 0 }),
    }
}

/// The value of `e` at PC `pc` with the loop indices `env` and the
/// symbol values `syms`.
pub fn eval_in(e: &Expr, pc: usize, env: &Vec<(u64, i64)>, syms: &Vec<(u64, i64)>) -> (res: Result<i64, AsmError>)
    ensures
        res == eval_expr(*e, pc, env@, syms@),
    decreases e,
{
    match e {
        Expr::Num(n) => Ok(*n),
        Expr::Pc => Ok(pc as i64),
        Expr::Sym(s) => match lookup_binding(env, *s) {
            Some(v) => Ok(v),
            None => match lookup_binding(syms, *s) {
                Some(v) => Ok(v),
                None => Err(AsmError::SymbolNotFound(*s)),
            },
        },
        Expr::Bin(op, a, b) => {
            let x = match eval_in(a, pc, env, syms) {
                Ok(x) => x,
                Err(err) => {
                    return Err(err);
                },
            };
            let y = match eval_in(b, pc, env, syms) {
                Ok(y) => y,
                Err(err) => {
                    return Err(err);
                },
            };
            apply_binop(*op, x, y)
        },
    }
}

/// The values of the first `n` of `ops`, evaluated in order, or the first
/// error.
pub open spec fn eval_all(ops: Seq<Expr>, n: int, pc: usize, env: Seq<(u64, i64)>, syms: Seq<(u64, i64)>) -> Result<
    Seq<i64>,
    AsmError,
>
    decreases n,
{
    if n <= 0 {
        Ok(Seq::empty())
    } else {
        match eval_all(ops, n - 1, pc, env, syms) {
            Ok(vs) => match eval_expr(ops[n - 1], pc, env, syms) {
                Ok(v) => Ok(vs.push(v)),
                Err(e) => Err(e),
            },
            Err(e) => Err(e),
        }
    }
}

/// The operands `ops` of a planned statement, evaluated at its PC with its
/// loop indices and the symbol values `syms`, in order; the first error
/// stops the work.
pub fn eval_operands(entry: &PlanEntry, ops: &Vec<Expr>, syms: &Vec<(u64, i64)>) -> (res: Result<Vec<i64>, AsmError>)
    ensures
        match eval_all(ops@, ops@.len() as int, entry.pc, entry.bindings@, syms@) {
            Ok(vs) => res matches Ok(v) && v@ == vs,
            Err(e) => res == Err::<Vec<i64>, AsmError>(e),
        },
{
    let mut out: Vec<i64> = Vec::new();
    let mut i: usize = 0;
    while i < ops.len()
        invariant
            i <= ops@.len(),
            eval_all(ops@, i as int, entry.pc, entry.bindings@, syms@) == Ok::<Seq<i64>, AsmError>(out@),
        decreases ops@.len() - i,
    {
        let v = match eval_in(&ops[i], entry.pc, &entry.bindings, syms) {
            Ok(v) => v,
            Err(e) => {
                proof {
                    lemma_eval_all_fails(ops@, i as int + 1, ops@.len() as int, entry.pc, entry.bindings@, syms@);
                }
                return Err(e);
            },
        };
        out.push(v);
        i = i + 1;
    }
    Ok(out)
}

/// Evaluating `n` operands without error gives `n` values.
pub proof fn lemma_eval_all_len(ops: Seq<Expr>, n: int, pc: usize, env: Seq<(u64, i64)>, syms: Seq<(u64, i64)>)
    requires
        n >= 0,
        eval_all(ops, n, pc, env, syms) is Ok,
    ensures
        eval_all(ops, n, pc, env, syms)->Ok_0.len() == n,
    decreases n,
{
    if n > 0 {
        lemma_eval_all_len(ops, n - 1, pc, env, syms);
    }
}

proof fn lemma_eval_all_fails(
    ops: Seq<Expr>,
    k: int,
    n: int,
    pc: usize,
    env: Seq<(u64, i64)>,
    syms: Seq<(u64, i64)>,
)
    requires
        1 <= k <= n,
        eval_all(ops, k, pc, env, syms) is Err,
    ensures
        eval_all(ops, n, pc, env, syms) == eval_all(ops, k, pc, env, syms),
    decreases n - k,
{
    if k < n {
        lemma_eval_all_fails(ops, k, n - 1, pc, env, syms);
    }
}

/// A statement of a program as the layout walk sees it.
#[derive(Debug)]
pub enum Stmt {
    /// A statement of AST node `id` that lays out as `item`.
    Item(usize, SizeItem),
    /// `repeat <count>[, <index>] { <body> }`: the index symbol, if named.
    Repeat(Expr, Option<u64>, Vec<Stmt>),
    /// `for <index> = <start>..<end> { <body> }`: the index symbol, if it
    /// is used.
    For(Expr, Expr, Option<u64>, Vec<Stmt>),
    /// `if <cond> { ... }`: the statements of the then-branch, optionally
    /// followed by an `Else` that holds the else-branch.
    If(Expr, Vec<Stmt>),
    Else(Vec<Stmt>),
    /// `while <cond> { <body> }`
    While(Expr, Vec<Stmt>),
    Break,
    Continue,
}

/// The outcome of walking statements: the state and the `break` or
/// `continue` still pending, an error, or a step that would overrun the
/// address space (which the walk never takes).
pub enum Walk {
    Done(SizerModel, Option<LoopSignal>),
    Failed(AsmError),
    Stuck,
}

/// The outcome of one pass over a loop body: go on with the next pass
/// (with the signal still pending), leave the loop, an error, or a step
/// that would overrun the address space.
pub enum BodyWalk {
    Next(SizerModel, Option<LoopSignal>),
    Exit(SizerModel),
    Failed(AsmError),
    Stuck,
}

/// Index of the first `else` in `ss` at or after `i`, or the length.
pub open spec fn first_else(ss: Seq<Stmt>, i: int) -> int
    decreases ss.len() - i,
{
    if i < 0 || i >= ss.len() {
        ss.len() as int
    } else if ss[i] is Else {
        i
    } else {
        first_else(ss, i + 1)
    }
}

/// The state with `index` (if named) bound to `v` inside the loop.
pub open spec fn with_binding(m: SizerModel, index: Option<u64>, v: i64) -> SizerModel {
    match index {
        Some(id) => SizerModel { bindings: m.bindings.push((id, v)), ..m },
        None => m,
    }
}

/// Walking one statement with `sig` pending.
pub open spec fn stmt_walk(m: SizerModel, sig: Option<LoopSignal>, s: Stmt) -> Walk
    decreases s, 0nat, 0nat,
{
    match s {
        Stmt::Item(id, item) => if !size_item_ok(m, item) {
            Walk::Stuck
        } else {
            match size_item_result(m, id, item) {
                Ok(m2) => Walk::Done(m2, sig),
                Err(e) => Walk::Failed(e),
            }
        },
        Stmt::Repeat(count, index, body) => match eval_expr(count, m.pc, m.bindings, m.symbols) {
            Ok(n) => repeat_walk(m, sig, body@, index, n, 0),
            Err(e) => Walk::Failed(e),
        },
        Stmt::For(start, end, index, body) => match eval_expr(start, m.pc, m.bindings, m.symbols) {
            Ok(a) => match eval_expr(end, m.pc, m.bindings, m.symbols) {
                Ok(b) => repeat_walk(m, sig, body@, index, b, a),
                Err(e) => Walk::Failed(e),
            },
            Err(e) => Walk::Failed(e),
        },
        Stmt::If(cond, children) => match eval_expr(cond, m.pc, m.bindings, m.symbols) {
            Ok(c) => {
                let k = first_else(children@, 0);
                if c != 0 {
                    range_walk(m, sig, children@, 0, k)
                } else if 0 <= k < children@.len() {
                    match children@[k] {
                        Stmt::Else(els) => {
                            proof {
                                assert(decreases_to!(children@ => children@[k]));
                                assert(decreases_to!(s => children@[k]));
                                assert(decreases_to!(children@[k] => els@));
                            }
                            range_walk(m, sig, els@, 0, els@.len() as int)
                        },
                        _ => Walk::Done(m, sig),
                    }
                } else {
                    Walk::Done(m, sig)
                }
            },
            Err(e) => Walk::Failed(e),
        },
        Stmt::Else(_) => Walk::Failed(AsmError::UnableToSize),
        Stmt::While(cond, body) => while_walk(m, sig, cond, body@, 0),
        Stmt::Break => Walk::Done(m, Some(LoopSignal::Break)),
        Stmt::Continue => Walk::Done(m, Some(LoopSignal::Continue)),
    }
}

/// Walking `ss[i..end]` in order; a pending signal is carried along.
pub open spec fn range_walk(m: SizerModel, sig: Option<LoopSignal>, ss: Seq<Stmt>, i: int, end: int) -> Walk
    decreases ss, 1nat, end - i,
{
    if 0 <= i < end <= ss.len() {
        match stmt_walk(m, sig, ss[i]) {
            Walk::Done(m1, s1) => range_walk(m1, s1, ss, i + 1, end),
            w => w,
        }
    } else {
        Walk::Done(m, sig)
    }
}

/// One pass over a loop body from statement `i`: after each statement a
/// `break` leaves the loop, a `continue` ends the pass, and otherwise the
/// body goes on.
pub open spec fn body_walk(m: SizerModel, sig: Option<LoopSignal>, body: Seq<Stmt>, i: int) -> BodyWalk
    decreases body, 1nat, body.len() - i,
{
    if 0 <= i < body.len() {
        match stmt_walk(m, sig, body[i]) {
            Walk::Done(m1, Some(LoopSignal::Break)) => BodyWalk::Exit(m1),
            Walk::Done(m1, Some(LoopSignal::Continue)) => BodyWalk::Next(m1, None),
            Walk::Done(m1, None) => body_walk(m1, None, body, i + 1),
            Walk::Failed(e) => BodyWalk::Failed(e),
            Walk::Stuck => BodyWalk::Stuck,
        }
    } else {
        BodyWalk::Next(m, sig)
    }
}

/// The passes `iter..count` of a `repeat` (from 0) or a `for` (from its
/// start): each walks the body with the index bound to the pass's value;
/// the bindings outside the loop are restored after each pass.
pub open spec fn repeat_walk(
    m: SizerModel,
    sig: Option<LoopSignal>,
    body: Seq<Stmt>,
    index: Option<u64>,
    count: i64,
    iter: i64,
) -> Walk
    decreases body, 2nat, count - iter,
{
    if iter < count {
        match body_walk(with_binding(m, index, iter), sig, body, 0) {
            BodyWalk::Next(m1, s1) => repeat_walk(
                SizerModel { bindings: m.bindings, ..m1 },
                s1,
                body,
                index,
                count,
                (iter + 1) as i64,
            ),
            BodyWalk::Exit(m1) => Walk::Done(SizerModel { bindings: m.bindings, ..m1 }, None),
            BodyWalk::Failed(e) => Walk::Failed(e),
            BodyWalk::Stuck => Walk::Stuck,
        }
    } else {
        Walk::Done(m, sig)
    }
}

/// A `while` loop that has run `iterations` passes: the condition is
/// evaluated afresh at the PC before each pass; zero ends the loop, and a
/// pass beyond the most allowed is an error.
pub open spec fn while_walk(m: SizerModel, sig: Option<LoopSignal>, cond: Expr, body: Seq<Stmt>, iterations: u64) -> Walk
    decreases body, 2nat, MAX_WHILE_ITERATIONS + 1 - iterations,
{
    match eval_expr(cond, m.pc, m.bindings, m.symbols) {
        Ok(c) => if c == 0 {
            Walk::Done(m, sig)
        } else if iterations + 1 > MAX_WHILE_ITERATIONS {
            Walk::Failed(AsmError::WhileLimitExceeded(MAX_WHILE_ITERATIONS))
        } else {
            match body_walk(m, sig, body, 0) {
                BodyWalk::Next(m1, s1) => while_walk(m1, s1, cond, body, (iterations + 1) as u64),
                BodyWalk::Exit(m1) => Walk::Done(m1, None),
                BodyWalk::Failed(e) => Walk::Failed(e),
                BodyWalk::Stuck => Walk::Stuck,
            }
        },
        Err(e) => Walk::Failed(e),
    }
}

} // verus!

verus! {

/// A walk that ended as `w` left the sizer in `m` and returned `res`.
pub open spec fn walk_done(w: Walk, m: SizerModel, res: Result<Option<LoopSignal>, AsmError>) -> bool {
    match w {
        Walk::Done(m2, s2) => res == Ok::<Option<LoopSignal>, AsmError>(s2) && m == m2,
        Walk::Failed(e) => res == Err::<Option<LoopSignal>, AsmError>(e),
        Walk::Stuck => false,
    }
}

/// A pass over a loop body that ended as `w` left the sizer in `m` and
/// returned `res`: `Some` of the pending signal to go on, `None` to leave.
pub open spec fn body_done(w: BodyWalk, m: SizerModel, res: Result<Option<Option<LoopSignal>>, AsmError>) -> bool {
    match w {
        BodyWalk::Next(m2, s2) => res == Ok::<Option<Option<LoopSignal>>, AsmError>(Some(s2)) && m == m2,
        BodyWalk::Exit(m2) => res == Ok::<Option<Option<LoopSignal>>, AsmError>(None) && m == m2,
        BodyWalk::Failed(e) => res == Err::<Option<Option<LoopSignal>>, AsmError>(e),
        BodyWalk::Stuck => false,
    }
}

/// Every section is within its maximum size.
pub open spec fn sections_fit(m: SizerModel) -> bool {
    forall|i: int| 0 <= i < m.sections.len() ==> !overflows(#[trigger] m.sections[i])
}

proof fn lemma_first_else(ss: Seq<Stmt>, i: int, n: int)
    requires
        0 <= i <= n <= ss.len(),
        n == ss.len() || ss[n] is Else,
        forall|j: int| i <= j < n ==> !(ss[j] is Else),
    ensures
        first_else(ss, i) == n,
    decreases n - i,
{
    if i < n {
        lemma_first_else(ss, i + 1, n);
    }
}

impl Sizer {
    /// The value of `e` at the PC with the loop indices in force.
    pub fn eval(&self, e: &Expr) -> (res: Result<i64, AsmError>)
        ensures
            res == eval_expr(*e, self@.pc, self@.bindings, self@.symbols),
    {
        eval_in(e, self.pc, &self.bindings, &self.symbols)
    }

    fn size_stmt(&mut self, sig: Option<LoopSignal>, s: &Stmt) -> (res: Result<Option<LoopSignal>, AsmError>)
        requires
            !(stmt_walk(old(self)@, sig, *s) is Stuck),
        ensures
            walk_done(stmt_walk(old(self)@, sig, *s), final(self)@, res),
        decreases s, 0nat, 0nat,
    {
        match s {
            Stmt::Item(id, item) => match self.size_node(*id, item) {
                Ok(()) => Ok(sig),
                Err(e) => Err(e),
            },
            Stmt::Repeat(count, index, body) => {
                let n = match self.eval(count) {
                    Ok(n) => n,
                    Err(e) => {
                        return Err(e);
                    },
                };
                self.size_repeat(sig, body, *index, 0, n)
            },
            Stmt::For(start, end, index, body) => {
                let a = match self.eval(start) {
                    Ok(a) => a,
                    Err(e) => {
                        return Err(e);
                    },
                };
                let b = match self.eval(end) {
                    Ok(b) => b,
                    Err(e) => {
                        return Err(e);
                    },
                };
                self.size_repeat(sig, body, *index, a, b)
            },
            Stmt::If(cond, children) => {
                let c = match self.eval(cond) {
                    Ok(c) => c,
                    Err(e) => {
                        return Err(e);
                    },
                };
                let mut is_else: Vec<bool> = Vec::new();
                let mut j: usize = 0;
                while j < children.len()
                    invariant
                        j <= children@.len(),
                        is_else@.len() == j,
                        forall|k: int| 0 <= k < j ==> is_else@[k] == (children@[k] is Else),
                    decreases children@.len() - j,
                {
                    let e = match &children[j] {
                        Stmt::Else(_) => true,
                        _ => false,
                    };
                    is_else.push(e);
                    j = j + 1;
                }
                match if_branch(c, &is_else) {
                    Branch::Then(n) => {
                        proof {
                            assert forall|k: int| 0 <= k < n implies !(children@[k] is Else) by {
                                assert(!is_else@[k]);
                            }
                            lemma_first_else(children@, 0, n as int);
                        }
                        self.size_range(sig, children, n)
                    },
                    Branch::Else(Some(k)) => {
                        proof {
                            assert forall|q: int| 0 <= q < k implies !(children@[q] is Else) by {
                                assert(!is_else@[q]);
                            }
                            lemma_first_else(children@, 0, k as int);
                        }
                        match &children[k] {
                            Stmt::Else(els) => {
                                proof {
                                    assert(decreases_to!(children@ => children@[k as int]));
                                    assert(decreases_to!(children@[k as int] => els@));
                                }
                                self.size_range(sig, els, els.len())
                            },
                            _ => Ok(sig),
                        }
                    },
                    Branch::Else(None) => {
                        proof {
                            assert forall|q: int| 0 <= q < children@.len() implies !(children@[q] is Else) by {
                                assert(!is_else@[q]);
                            }
                            lemma_first_else(children@, 0, children@.len() as int);
                        }
                        Ok(sig)
                    },
                }
            },
            Stmt::Else(_) => Err(AsmError::UnableToSize),
            Stmt::While(cond, body) => self.size_while(sig, cond, body),
            Stmt::Break => Ok(Some(LoopSignal::Break)),
            Stmt::Continue => Ok(Some(LoopSignal::Continue)),
        }
    }

    fn size_range(&mut self, sig: Option<LoopSignal>, ss: &Vec<Stmt>, end: usize) -> (res: Result<Option<LoopSignal>, AsmError>)
        requires
            end <= ss@.len(),
            !(range_walk(old(self)@, sig, ss@, 0, end as int) is Stuck),
        ensures
            walk_done(range_walk(old(self)@, sig, ss@, 0, end as int), final(self)@, res),
        decreases ss@, 1nat, 0nat,
    {
        let ghost w = range_walk(self@, sig, ss@, 0, end as int);
        let mut cur = sig;
        let mut i: usize = 0;
        while i < end
            invariant
                i <= end <= ss@.len(),
                w == range_walk(self@, cur, ss@, i as int, end as int),
                w == range_walk(old(self)@, sig, ss@, 0, end as int),
                !(w is Stuck),
            decreases end - i,
        {
            proof {
                assert(decreases_to!(ss@ => ss@[i as int]));
            }
            cur = match self.size_stmt(cur, &ss[i]) {
                Ok(s1) => s1,
                Err(e) => {
                    return Err(e);
                },
            };
            i = i + 1;
        }
        Ok(cur)
    }

    fn size_body(&mut self, sig: Option<LoopSignal>, body: &Vec<Stmt>) -> (res: Result<Option<Option<LoopSignal>>, AsmError>)
        requires
            !(body_walk(old(self)@, sig, body@, 0) is Stuck),
        ensures
            body_done(body_walk(old(self)@, sig, body@, 0), final(self)@, res),
        decreases body@, 1nat, 0nat,
    {
        let ghost w = body_walk(self@, sig, body@, 0);
        let mut cur = sig;
        let mut i: usize = 0;
        while i < body.len()
            invariant
                i <= body@.len(),
                w == body_walk(self@, cur, body@, i as int),
                w == body_walk(old(self)@, sig, body@, 0),
                !(w is Stuck),
            decreases body@.len() - i,
        {
            proof {
                assert(decreases_to!(body@ => body@[i as int]));
            }
            let s1 = match self.size_stmt(cur, &body[i]) {
                Ok(s1) => s1,
                Err(e) => {
                    return Err(e);
                },
            };
            match loop_step(s1) {
                LoopStep::ExitLoop => {
                    return Ok(None);
                },
                LoopStep::NextIteration => {
                    return Ok(Some(None));
                },
                LoopStep::NextStatement => {
                    cur = None;
                },
            }
            i = i + 1;
        }
        Ok(Some(cur))
    }

    fn size_repeat(
        &mut self,
        sig: Option<LoopSignal>,
        body: &Vec<Stmt>,
        index: Option<u64>,
        from: i64,
        count: i64,
    ) -> (res: Result<Option<LoopSignal>, AsmError>)
        requires
            !(repeat_walk(old(self)@, sig, body@, index, count, from) is Stuck),
        ensures
            walk_done(repeat_walk(old(self)@, sig, body@, index, count, from), final(self)@, res),
        decreases body@, 2nat, 0nat,
    {
        let ghost w = repeat_walk(self@, sig, body@, index, count, from);
        let mut cur = sig;
        let mut iter: i64 = from;
        while iter < count
            invariant
                from <= iter,
                iter <= count || iter == from,
                w == repeat_walk(self@, cur, body@, index, count, iter),
                w == repeat_walk(old(self)@, sig, body@, index, count, from),
                !(w is Stuck),
            decreases count - iter,
        {
            let ghost m0 = self@;
            let saved = copy_bindings(&self.bindings);
            if let Some(id) = index {
                self.bindings.push((id, iter));
            }
            assert(self@ == with_binding(m0, index, iter)) by {
                assert(self@.bindings =~= with_binding(m0, index, iter).bindings);
            }
            match self.size_body(cur, body) {
                Err(e) => {
                    return Err(e);
                },
                Ok(None) => {
                    let ghost m1 = self@;
                    self.bindings = saved;
                    assert(self@ == (SizerModel { bindings: m0.bindings, ..m1 }));
                    return Ok(None);
                },
                Ok(Some(s1)) => {
                    let ghost m1 = self@;
                    self.bindings = saved;
                    assert(self@ == (SizerModel { bindings: m0.bindings, ..m1 }));
                    cur = s1;
                },
            }
            iter = iter + 1;
        }
        Ok(cur)
    }

    fn size_while(&mut self, sig: Option<LoopSignal>, cond: &Expr, body: &Vec<Stmt>) -> (res: Result<
        Option<LoopSignal>,
        AsmError,
    >)
        requires
            !(while_walk(old(self)@, sig, *cond, body@, 0) is Stuck),
        ensures
            walk_done(while_walk(old(self)@, sig, *cond, body@, 0), final(self)@, res),
        decreases body@, 2nat, 0nat,
    {
        let ghost w = while_walk(self@, sig, *cond, body@, 0);
        let mut cur = sig;
        let mut iterations: u64 = 0;
        loop
            invariant
                iterations <= MAX_WHILE_ITERATIONS,
                w == while_walk(self@, cur, *cond, body@, iterations),
                w == while_walk(old(self)@, sig, *cond, body@, 0),
                !(w is Stuck),
            decreases MAX_WHILE_ITERATIONS + 1 - iterations,
        {
            let c = match self.eval(cond) {
                Ok(c) => c,
                Err(e) => {
                    return Err(e);
                },
            };
            match while_continues(iterations, c) {
                Ok(false) => {
                    return Ok(cur);
                },
                Err(e) => {
                    return Err(e);
                },
                Ok(true) => {},
            }
            match self.size_body(cur, body) {
                Err(e) => {
                    return Err(e);
                },
                Ok(None) => {
                    return Ok(None);
                },
                Ok(Some(s1)) => {
                    cur = s1;
                },
            }
            iterations = iterations + 1;
        }
    }

    /// Lay out a program: walk its statements in order, then check that
    /// every section is within its maximum size and that no `break` or
    /// `continue` was left outside a loop.
    pub fn size_program(&mut self, stmts: &Vec<Stmt>) -> (res: Result<(), AsmError>)
        requires
            !(range_walk(old(self)@, None, stmts@, 0, stmts@.len() as int) is Stuck),
        ensures
            match range_walk(old(self)@, None, stmts@, 0, stmts@.len() as int) {
                Walk::Done(m, sig) => final(self)@ == m && if !sections_fit(m) {
                    res matches Err(AsmError::SectionOverflow { .. })
                } else if sig is Some {
                    res == Err::<(), AsmError>(AsmError::LoopSignalOutsideLoop)
                } else {
                    res is Ok
                },
                Walk::Failed(e) => res == Err::<(), AsmError>(e),
                Walk::Stuck => false,
            },
    {
        let sig = match self.size_range(None, stmts, stmts.len()) {
            Ok(s) => s,
            Err(e) => {
                return Err(e);
            },
        };
        match self.check_section_bounds() {
            Ok(()) => {},
            Err(e) => {
                return Err(e);
            },
        }
        check_loop_signal(sig)
    }
}

} // verus!

verus! {

/// The state after `j` passes of a `repeat` with index `idx` whose body is
/// one statement of node `id` emitting `k` bytes, from `m`.
pub open spec fn after_emit_passes(m: SizerModel, id: usize, k: usize, idx: u64, j: int) -> SizerModel {
    SizerModel {
        pc: (m.pc + j * k) as usize,
        plan: m.plan + Seq::new(
            j as nat,
            |p: int|
                PlanEntryModel {
                    scope_id: m.scope,
                    node_id: id,
                    kind: PlanKind::EmitBytes(k),
                    pc: (m.pc + p * k) as usize,
                    bindings: m.bindings.push((idx, p as i64)),
                },
        ),
        ..m
    }
}

proof fn lemma_emit_passes_from(m: SizerModel, id: usize, k: usize, idx: u64, n: i64, j: int)
    requires
        m.current_section is None,
        0 <= j <= n,
        m.pc + n * k <= 65536,
    ensures
        repeat_walk(
            after_emit_passes(m, id, k, idx, j),
            None,
            seq![Stmt::Item(id, SizeItem::EmitBytes(k))],
            Some(idx),
            n,
            j as i64,
        ) == Walk::Done(after_emit_passes(m, id, k, idx, n as int), None),
    decreases n - j,
{
    let body = seq![Stmt::Item(id, SizeItem::EmitBytes(k))];
    if j < n {
        let mj = after_emit_passes(m, id, k, idx, j);
        assert((j + 1) * k == j * k + k) by (nonlinear_arith);
        assert((j + 1) * k <= n * k) by (nonlinear_arith)
            requires
                j + 1 <= n,
                k >= 0,
        ;
        assert(0 <= j * k) by (nonlinear_arith)
            requires
                j >= 0,
                k >= 0,
        ;
        let mb = with_binding(mj, Some(idx), j as i64);
        assert(size_item_ok(mb, SizeItem::EmitBytes(k)));
        let m2 = mb.emit(id, PlanKind::EmitBytes(k)).advance(k);
        assert(stmt_walk(mb, None, body[0]) == Walk::Done(m2, None));
        assert(body_walk(m2, None, body, 1) == BodyWalk::Next(m2, None));
        assert(body_walk(mb, None, body, 0) == BodyWalk::Next(m2, None));
        let next = SizerModel { bindings: mj.bindings, ..m2 };
        let mj1 = after_emit_passes(m, id, k, idx, j + 1);
        assert(next.plan =~= mj1.plan);
        assert(next.sections =~= mj1.sections);
        assert(next == mj1);
        lemma_emit_passes_from(m, id, k, idx, n, j + 1);
    }
}

/// A `repeat n, i` whose body is one statement emitting `k` bytes walks the
/// body once per pass: the `j`th pass records the statement `j * k` bytes
/// past the start, with the index bound to `j`, and the loop leaves the PC
/// `n * k` bytes on, with the bindings outside the loop restored.
pub proof fn lemma_repeat_emits_each_pass(m: SizerModel, id: usize, k: usize, idx: u64, n: i64)
    requires
        m.current_section is None,
        0 <= n,
        m.pc + n * k <= 65536,
    ensures
        repeat_walk(m, None, seq![Stmt::Item(id, SizeItem::EmitBytes(k))], Some(idx), n, 0)
            == Walk::Done(after_emit_passes(m, id, k, idx, n as int), None),
{
    assert(after_emit_passes(m, id, k, idx, 0).plan =~= m.plan);
    assert(after_emit_passes(m, id, k, idx, 0) == m);
    lemma_emit_passes_from(m, id, k, idx, n, 0);
}

/// A `while` whose condition stays non-zero and whose body is empty fails
/// once it would run more than the most passes allowed.
pub proof fn lemma_while_cap(m: SizerModel, sig: Option<LoopSignal>, c: i64, iterations: u64)
    requires
        c != 0,
        iterations <= MAX_WHILE_ITERATIONS,
    ensures
        while_walk(m, sig, Expr::Num(c), Seq::empty(), iterations) == Walk::Failed(
            AsmError::WhileLimitExceeded(MAX_WHILE_ITERATIONS),
        ),
    decreases MAX_WHILE_ITERATIONS - iterations,
{
    if iterations + 1 <= MAX_WHILE_ITERATIONS {
        assert(body_walk(m, sig, Seq::empty(), 0) == BodyWalk::Next(m, sig));
        lemma_while_cap(m, sig, c, (iterations + 1) as u64);
    }
}

/// `break` in a loop body ends the whole loop: when a pass of a `repeat`
/// leaves the loop, no later pass runs, the bindings outside the loop are
/// restored, and no signal is left pending.
pub proof fn lemma_break_ends_repeat(
    m: SizerModel,
    sig: Option<LoopSignal>,
    body: Seq<Stmt>,
    index: Option<u64>,
    count: i64,
    iter: i64,
    m1: SizerModel,
)
    requires
        iter < count,
        body_walk(with_binding(m, index, iter), sig, body, 0) == BodyWalk::Exit(m1),
    ensures
        repeat_walk(m, sig, body, index, count, iter) == Walk::Done(SizerModel { bindings: m.bindings, ..m1 }, None),
{
}

/// `continue` ends only the pass: a pass of a loop body in which statement
/// `i` raises `continue` runs none of the statements after it and goes on
/// with the next pass, with no signal pending.
pub proof fn lemma_continue_ends_pass(
    m: SizerModel,
    sig: Option<LoopSignal>,
    body: Seq<Stmt>,
    i: int,
    m1: SizerModel,
)
    requires
        0 <= i < body.len(),
        stmt_walk(m, sig, body[i]) == Walk::Done(m1, Some(LoopSignal::Continue)),
    ensures
        body_walk(m, sig, body, i) == BodyWalk::Next(m1, None),
{
}

/// An `if` walks only the branch its condition picks: the statements before
/// the first `else` when it is not zero, else the children of that `else`
/// (none when there is no `else`).
pub proof fn lemma_if_takes_one_branch(m: SizerModel, sig: Option<LoopSignal>, cond: Expr, children: Vec<Stmt>, c: i64)
    requires
        eval_expr(cond, m.pc, m.bindings, m.symbols) == Ok::<i64, AsmError>(c),
    ensures
        c != 0 ==> stmt_walk(m, sig, Stmt::If(cond, children)) == range_walk(
            m,
            sig,
            children@,
            0,
            first_else(children@, 0),
        ),
        c == 0 && first_else(children@, 0) == children@.len() ==> stmt_walk(
            m,
            sig,
            Stmt::If(cond, children),
        ) == Walk::Done(m, sig),
        c == 0 && first_else(children@, 0) < children@.len() ==> (children@[first_else(children@, 0)] matches Stmt::Else(
            els,
        ) && stmt_walk(m, sig, Stmt::If(cond, children)) == range_walk(m, sig, els@, 0, els@.len() as int)),
{
    lemma_first_else_range(children@, 0);
}

proof fn lemma_first_else_range(ss: Seq<Stmt>, i: int)
    requires
        0 <= i <= ss.len(),
    ensures
        i <= first_else(ss, i) <= ss.len(),
        first_else(ss, i) < ss.len() ==> ss[first_else(ss, i)] is Else,
    decreases ss.len() - i,
{
    if i < ss.len() {
        lemma_first_else_range(ss, i + 1);
    }
}

} // verus!

verus! {

/// Each planned statement starts where the one before it ends, and the PC
/// is where the last one ends.
pub open spec fn contiguous(plan: Seq<PlanEntryModel>, pc: usize) -> bool {
    &&& forall|i: int|
        1 <= i < plan.len() ==> #[trigger] plan[i].pc == next_pc(plan[i - 1].kind, plan[i - 1].pc as int)
    &&& plan.len() > 0 ==> pc == next_pc(plan.last().kind, plan.last().pc as int)
}

proof fn lemma_item_contiguous(m: SizerModel, id: usize, item: SizeItem)
    requires
        contiguous(m.plan, m.pc),
        size_item_ok(m, item),
        size_item_result(m, id, item) is Ok,
    ensures
        contiguous(size_item_result(m, id, item)->Ok_0.plan, size_item_result(m, id, item)->Ok_0.pc),
{
    lemma_sizing_records_layout(m, id, item);
    let m2 = size_item_result(m, id, item)->Ok_0;
    assert forall|i: int| 1 <= i < m2.plan.len() implies #[trigger] m2.plan[i].pc == next_pc(
        m2.plan[i - 1].kind,
        m2.plan[i - 1].pc as int,
    ) by {
        if i < m.plan.len() {
            assert(m2.plan[i] == m.plan[i]);
            assert(m2.plan[i - 1] == m.plan[i - 1]);
        } else {
            assert(m2.plan[i - 1] == m.plan.last());
        }
    }
}

proof fn lemma_stmt_contiguous(m: SizerModel, sig: Option<LoopSignal>, s: Stmt)
    requires
        contiguous(m.plan, m.pc),
    ensures
        stmt_walk(m, sig, s) matches Walk::Done(m2, _) ==> contiguous(m2.plan, m2.pc),
    decreases s, 0nat, 0nat,
{
    match s {
        Stmt::Item(id, item) => {
            if size_item_ok(m, item) && size_item_result(m, id, item) is Ok {
                lemma_item_contiguous(m, id, item);
            }
        },
        Stmt::Repeat(count, index, body) => {
            if let Ok(n) = eval_expr(count, m.pc, m.bindings, m.symbols) {
                lemma_repeat_contiguous(m, sig, body@, index, n, 0);
            }
        },
        Stmt::For(start, end, index, body) => {
            if let (Ok(a), Ok(b)) = (eval_expr(start, m.pc, m.bindings, m.symbols), eval_expr(end, m.pc, m.bindings, m.symbols)) {
                lemma_repeat_contiguous(m, sig, body@, index, b, a);
            }
        },
        Stmt::If(cond, children) => {
            if let Ok(c) = eval_expr(cond, m.pc, m.bindings, m.symbols) {
                let k = first_else(children@, 0);
                if c != 0 {
                    lemma_range_contiguous(m, sig, children@, 0, k);
                } else if 0 <= k < children@.len() {
                    if let Stmt::Else(els) = children@[k] {
                        assert(decreases_to!(children@ => children@[k]));
                        assert(decreases_to!(s => children@[k]));
                        assert(decreases_to!(children@[k] => els@));
                        lemma_range_contiguous(m, sig, els@, 0, els@.len() as int);
                    }
                }
            }
        },
        Stmt::While(cond, body) => {
            lemma_while_contiguous(m, sig, cond, body@, 0);
        },
        _ => {},
    }
}

proof fn lemma_range_contiguous(m: SizerModel, sig: Option<LoopSignal>, ss: Seq<Stmt>, i: int, end: int)
    requires
        contiguous(m.plan, m.pc),
    ensures
        range_walk(m, sig, ss, i, end) matches Walk::Done(m2, _) ==> contiguous(m2.plan, m2.pc),
    decreases ss, 1nat, end - i,
{
    if 0 <= i < end <= ss.len() {
        lemma_stmt_contiguous(m, sig, ss[i]);
        if let Walk::Done(m1, s1) = stmt_walk(m, sig, ss[i]) {
            lemma_range_contiguous(m1, s1, ss, i + 1, end);
        }
    }
}

proof fn lemma_body_contiguous(m: SizerModel, sig: Option<LoopSignal>, body: Seq<Stmt>, i: int)
    requires
        contiguous(m.plan, m.pc),
    ensures
        body_walk(m, sig, body, i) matches BodyWalk::Next(m2, _) ==> contiguous(m2.plan, m2.pc),
        body_walk(m, sig, body, i) matches BodyWalk::Exit(m2) ==> contiguous(m2.plan, m2.pc),
    decreases body, 1nat, body.len() - i,
{
    if 0 <= i < body.len() {
        lemma_stmt_contiguous(m, sig, body[i]);
        if let Walk::Done(m1, None) = stmt_walk(m, sig, body[i]) {
            lemma_body_contiguous(m1, None, body, i + 1);
        }
    }
}

proof fn lemma_repeat_contiguous(
    m: SizerModel,
    sig: Option<LoopSignal>,
    body: Seq<Stmt>,
    index: Option<u64>,
    count: i64,
    iter: i64,
)
    requires
        contiguous(m.plan, m.pc),
    ensures
        repeat_walk(m, sig, body, index, count, iter) matches Walk::Done(m2, _) ==> contiguous(m2.plan, m2.pc),
    decreases body, 2nat, count - iter,
{
    if iter < count {
        let mb = with_binding(m, index, iter);
        lemma_body_contiguous(mb, sig, body, 0);
        if let BodyWalk::Next(m1, s1) = body_walk(mb, sig, body, 0) {
            lemma_repeat_contiguous(SizerModel { bindings: m.bindings, ..m1 }, s1, body, index, count, (iter + 1) as i64);
        }
    }
}

proof fn lemma_while_contiguous(m: SizerModel, sig: Option<LoopSignal>, cond: Expr, body: Seq<Stmt>, iterations: u64)
    requires
        contiguous(m.plan, m.pc),
    ensures
        while_walk(m, sig, cond, body, iterations) matches Walk::Done(m2, _) ==> contiguous(m2.plan, m2.pc),
    decreases body, 2nat, MAX_WHILE_ITERATIONS + 1 - iterations,
{
    if let Ok(c) = eval_expr(cond, m.pc, m.bindings, m.symbols) {
        if c != 0 && iterations + 1 <= MAX_WHILE_ITERATIONS {
            lemma_body_contiguous(m, sig, body, 0);
            if let BodyWalk::Next(m1, s1) = body_walk(m, sig, body, 0) {
                lemma_while_contiguous(m1, s1, cond, body, (iterations + 1) as u64);
            }
        }
    }
}

/// Laying out a program keeps its plan contiguous: when the plan so far has
/// each statement start where the one before it ends and the PC where the
/// last one ends, so does the plan after walking any statements, through
/// every `repeat`, `if`, `while`, `break` and `continue`.
pub proof fn lemma_walk_keeps_plan_contiguous(m: SizerModel, stmts: Seq<Stmt>)
    requires
        contiguous(m.plan, m.pc),
    ensures
        range_walk(m, None, stmts, 0, stmts.len() as int) matches Walk::Done(m2, _) ==> contiguous(
            m2.plan,
            m2.pc,
        ),
{
    lemma_range_contiguous(m, None, stmts, 0, stmts.len() as int);
}

} // verus!

verus! {

/// `put v` aims the following writes at physical address `v`: it records
/// a put offset that, added to the PC, gives `v`, and leaves the PC where
/// it was.
pub proof fn lemma_put_targets_address(m: SizerModel, id: usize, v: i64)
    requires
        size_item_ok(m, SizeItem::Put(v)),
        isize::MIN <= v - m.pc <= isize::MAX,
    ensures
        size_item_result(m, id, SizeItem::Put(v)) matches Ok(m2) && m2.pc == m.pc && m2.plan.len()
            == m.plan.len() + 1 && m2.plan.last().pc == m.pc && (m2.plan.last().kind matches PlanKind::SetPutOffset(o)
            && m.pc + o == v),
{
}

/// The operators compute what they name: a sum, difference or product
/// when it fits in 64 bits and an overflow error when it does not; a
/// comparison or logical operator 1 when it holds and 0 when not.
pub proof fn lemma_apply_op_meaning(op: BinOp, a: i64, b: i64)
    ensures
        op is Add ==> (apply_op(op, a, b) matches Ok(r) ==> r == a + b) && (apply_op(op, a, b) is Err <==> !(
        i64::MIN <= a + b <= i64::MAX)),
        op is Sub ==> (apply_op(op, a, b) matches Ok(r) ==> r == a - b) && (apply_op(op, a, b) is Err <==> !(
        i64::MIN <= a - b <= i64::MAX)),
        op is Mul ==> (apply_op(op, a, b) matches Ok(r) ==> r == a * b) && (apply_op(op, a, b) is Err <==> !(
        i64::MIN <= a * b <= i64::MAX)),
        !(op is Add || op is Sub || op is Mul) ==> (apply_op(op, a, b) matches Ok(r) && (r == 0 || r == 1) && (
        r == 1 <==> match op {
            BinOp::Eq => a == b,
            BinOp::Ne => a != b,
            BinOp::Lt => a < b,
            BinOp::Le => a <= b,
            BinOp::Gt => a > b,
            BinOp::Ge => a >= b,
            BinOp::And => a != 0 && b != 0,
            _ => a != 0 || b != 0,
        })),
        apply_op(op, a, b) matches Err(e) ==> e == AsmError::ArithmeticOverflow,
{
}

/// A label takes the PC (or its argument) as its value, which its symbol
/// then reads, and moves nothing: the PC and the other symbols are as they
/// were.
pub proof fn lemma_label_takes_pc(m: SizerModel, id: usize, sym: u64, arg: Option<i64>, other: u64)
    ensures
        size_item_result(m, id, SizeItem::Label(sym, arg)) matches Ok(m2) && m2.pc == m.pc && lookup(
            m2.symbols,
            sym,
        ) == Some(
            match arg {
                Some(v) => v,
                None => m.pc as i64,
            },
        ) && (other != sym ==> lookup(m2.symbols, other) == lookup(m.symbols, other)),
{
    crate::assembler::plan::lemma_lookup_after_bind(m.symbols, sym, label_value(m.pc, arg), other);
}

} // verus!

verus! {

/// How far each statement moves the PC: `org` and a PC setting go to their
/// address, `rmb b` and `fill b` skip `b` bytes, `fcb`/`fcc` of `n` bytes
/// `n`, `fdb` of `n` words and `zmd n` twice `n`, `grabmem` its size, an
/// included chunk its length, an instruction its size; `put`, scopes,
/// labels and records leave it where it is. A negative `rmb` is refused.
pub proof fn lemma_statement_moves_pc(m: SizerModel, id: usize, item: SizeItem)
    requires
        size_item_ok(m, item),
        !(item is Section),
    ensures
        size_item_result(m, id, item) is Err <==> (item matches SizeItem::ReserveBytes(b) && b < 0),
        (item matches SizeItem::ReserveBytes(b) && b < 0) ==> size_item_result(m, id, item) == Err::<
            SizerModel,
            AsmError,
        >(AsmError::NegativeReserve(item->ReserveBytes_0)),
        size_item_result(m, id, item) matches Ok(m2) ==> m2.pc == match item {
            SizeItem::Org(v) => (v as usize) as int,
            SizeItem::SetPc(v) => v as int,
            SizeItem::ReserveBytes(b) => m.pc + b,
            SizeItem::GrabMem(s) => m.pc + (s as usize),
            SizeItem::EmitWords(n) => m.pc + 2 * n,
            SizeItem::EmitBytes(n) => m.pc + n,
            SizeItem::EmitString(n) => m.pc + n,
            SizeItem::ZeroWords(v) => m.pc + 2 * v,
            SizeItem::Fill(s) => m.pc + s,
            SizeItem::IncBinResolved(s, e) => m.pc + (if e >= s { e - s } else { 0 }),
            SizeItem::Instruction(n) => m.pc + n,
            _ => m.pc as int,
        },
{
}

} // verus!

verus! {

/// A binary expression combines its left operand's value with its right
/// operand's, in that order: `a - b` takes `b` from `a`, `a < b` holds
/// when `a` is the smaller; when it has a value, both operands have one.
pub proof fn lemma_eval_binary(
    op: BinOp,
    a: Expr,
    b: Expr,
    pc: usize,
    env: Seq<(u64, i64)>,
    syms: Seq<(u64, i64)>,
)
    ensures
        eval_expr(Expr::Bin(op, Box::new(a), Box::new(b)), pc, env, syms) matches Ok(r) ==> {
            &&& eval_expr(a, pc, env, syms) is Ok
            &&& eval_expr(b, pc, env, syms) is Ok
            &&& ({
                let x = eval_expr(a, pc, env, syms)->Ok_0;
                let y = eval_expr(b, pc, env, syms)->Ok_0;
                &&& op is Add ==> r == x + y
                &&& op is Sub ==> r == x - y
                &&& op is Mul ==> r == x * y
                &&& op is Lt ==> (r == 1) == (x < y)
                &&& op is Le ==> (r == 1) == (x <= y)
                &&& op is Gt ==> (r == 1) == (x > y)
                &&& op is Ge ==> (r == 1) == (x >= y)
            })
        },
        eval_expr(a, pc, env, syms) matches Err(e) ==> eval_expr(
            Expr::Bin(op, Box::new(a), Box::new(b)),
            pc,
            env,
            syms,
        ) == Err::<i64, AsmError>(e),
{
    if eval_expr(a, pc, env, syms) is Ok && eval_expr(b, pc, env, syms) is Ok {
        lemma_apply_op_meaning(op, eval_expr(a, pc, env, syms)->Ok_0, eval_expr(b, pc, env, syms)->Ok_0);
    }
}

} // verus!
