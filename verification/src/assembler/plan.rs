//! The walk plan: one entry per statement of the assembled program, in
//! final order, with the PC the sizer computed for it.
use vstd::prelude::*;

verus! {

/// The kind of a planned statement, with what layout needs of it.
#[derive(Debug, PartialEq, Eq, Clone, Copy, Structural)]
pub enum PlanKind {
    MacroCallProcessed,
    ScopeId(u64),
    /// Copy `size` bytes of the image to the PC.
    GrabMem(usize),
    SetPc(usize),
    SetPutOffset(isize),
    Skip(usize),
    /// A CPU instruction of the given encoded size.
    TargetSpecific(usize),
    AssignmentFromPc,
    TokenizedFile,
    Block,
    /// `fdb` with this many words.
    EmitWords(usize),
    /// `fcb` with this many bytes.
    EmitBytes(usize),
    /// `fcc` with a text of this many bytes.
    EmitString(usize),
    /// `zmd` of this many words.
    ZeroWords(usize),
    /// `fill` of this many bytes.
    Fill(usize),
    /// An included binary chunk `[start, end)` of its file.
    IncBinResolved(usize, usize),
    WriteBin,
    IncBinRef,
    Exec,
    Assignment,
    Comment,
    StructDef,
    MacroDef,
    MacroCall,
    Import,
}

/// One statement of the assembled program, in final walk order.
#[derive(Debug, PartialEq, Eq, Clone)]
pub struct PlanEntry {
    /// Scope the statement was assembled in.
    pub scope_id: u64,
    /// The AST node the statement came from.
    pub node_id: usize,
    /// The final kind, with fixups applied.
    pub kind: PlanKind,
    /// The logical PC at the start of the statement.
    pub pc: usize,
    /// The loop-index values in force for the statement, one per enclosing
    /// `repeat` that names an index, outermost first: `(symbol, value)`.
    pub bindings: Vec<(u64, i64)>,
}

/// The abstract value of a plan entry.
pub struct PlanEntryModel {
    pub scope_id: u64,
    pub node_id: usize,
    pub kind: PlanKind,
    pub pc: usize,
    pub bindings: Seq<(u64, i64)>,
}

impl View for PlanEntry {
    type V = PlanEntryModel;

    open spec fn view(&self) -> PlanEntryModel {
        PlanEntryModel {
            scope_id: self.scope_id,
            node_id: self.node_id,
            kind: self.kind,
            pc: self.pc,
            bindings: self.bindings@,
        }
    }
}

/// A copy of a list of bindings.
pub fn copy_bindings(b: &Vec<(u64, i64)>) -> (res: Vec<(u64, i64)>)
    ensures
        res@ == b@,
{
    let mut out: Vec<(u64, i64)> = Vec::new();
    let mut i: usize = 0;
    while i < b.len()
        invariant
            i <= b@.len(),
            out@ == b@.subrange(0, i as int),
        decreases b@.len() - i,
    {
        out.push(b[i]);
        i = i + 1;
        assert(out@ =~= b@.subrange(0, i as int));
    }
    assert(b@.subrange(0, b@.len() as int) =~= b@);
    out
}

/// The value of the innermost binding of `sym` in `env`.
pub open spec fn lookup(env: Seq<(u64, i64)>, sym: u64) -> Option<i64>
    decreases env.len(),
{
    if env.len() == 0 {
        None
    } else if env.last().0 == sym {
        Some(env.last().1)
    } else {
        lookup(env.drop_last(), sym)
    }
}

/// The value of the innermost binding of `sym` in `env`.
pub fn lookup_binding(env: &Vec<(u64, i64)>, sym: u64) -> (res: Option<i64>)
    ensures
        res == lookup(env@, sym),
{
    let mut i: usize = env.len();
    assert(env@.subrange(0, i as int) =~= env@);
    while i > 0
        invariant
            i <= env@.len(),
            lookup(env@, sym) == lookup(env@.subrange(0, i as int), sym),
        decreases i,
    {
        let ghost pre = env@.subrange(0, i as int);
        assert(pre.last() == env@[i - 1]);
        assert(pre.drop_last() =~= env@.subrange(0, i - 1));
        let (k, v) = env[i - 1];
        if k == sym {
            return Some(v);
        }
        i = i - 1;
    }
    None
}

/// The PC after a statement of kind `kind` that starts at `pc`.
pub open spec fn next_pc(kind: PlanKind, pc: int) -> int {
    match kind {
        PlanKind::SetPc(p) => p as int,
        PlanKind::Skip(n) => pc + n,
        PlanKind::GrabMem(n) => pc + n,
        PlanKind::TargetSpecific(n) => pc + n,
        PlanKind::EmitWords(n) => pc + 2 * n,
        PlanKind::EmitBytes(n) => pc + n,
        PlanKind::EmitString(n) => pc + n,
        PlanKind::ZeroWords(n) => pc + 2 * n,
        PlanKind::Fill(n) => pc + n,
        PlanKind::IncBinResolved(s, e) => pc + (if e >= s { e - s } else { 0 }),
        _ => pc,
    }
}

} // verus!

verus! {

/// A copy of some bytes.
pub fn copy_bytes(b: &Vec<u8>) -> (res: Vec<u8>)
    ensures
        res@ == b@,
{
    let mut out: Vec<u8> = Vec::new();
    let mut i: usize = 0;
    while i < b.len()
        invariant
            i <= b@.len(),
            out@ == b@.subrange(0, i as int),
        decreases b@.len() - i,
    {
        out.push(b[i]);
        i = i + 1;
        assert(out@ =~= b@.subrange(0, i as int));
    }
    assert(b@.subrange(0, b@.len() as int) =~= b@);
    out
}

/// A binding read after it is made gives the value made, and hides only
/// the bindings of the same symbol.
pub proof fn lemma_lookup_after_bind(env: Seq<(u64, i64)>, sym: u64, v: i64, other: u64)
    ensures
        lookup(env.push((sym, v)), sym) == Some(v),
        other != sym ==> lookup(env.push((sym, v)), other) == lookup(env, other),
{
    assert(env.push((sym, v)).drop_last() =~= env);
}

} // verus!
