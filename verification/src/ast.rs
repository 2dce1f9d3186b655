//! The syntax tree of a program as plain values, and its text.
use vstd::prelude::*;
use crate::assembler::report::{push_signed, signed_decimal};

verus! {

/// The kind of a node of the syntax tree, with what its text shows.
#[derive(Debug, Clone, PartialEq, Eq)]
pub enum AstKind {
    /// `!name equ *`
    LocalAssignmentFromPc(String),
    /// `name equ *`
    AssignmentFromPc(String),
    /// `*`
    Pc,
    Label(String),
    LocalLabel(String),
    Comment(String),
    /// `!name equ <child 0>`
    LocalAssignment(String),
    /// `name equ <child 0>`
    Assignment(String),
    /// The children, side by side.
    Expr,
    /// The children, separated by spaces.
    PostFixExpr,
    /// `include "file"`
    Include(String),
    Num(i64),
    Mul,
    Div,
    Add,
    Sub,
    BitAnd,
    BitOr,
    BitXor,
    ShiftR,
    ShiftL,
    /// `org <child 0>`
    Org,
    /// `put <child 0>`
    Put,
    /// `(` the children side by side `)`
    BracketedExpr,
    /// A file: its statements, a line each.
    TokenizedFile,
    /// `struct name {` the entries, a line each `}`
    StructDef(String),
    /// `name : <child 0>`
    StructEntry(String),
    /// `fcc`: its text, quoted.
    Fcc(String),
    /// `fdb`: its values.
    Fdb,
    /// `fcb`: its values.
    Fcb,
    /// `fill <children>`
    Fill,
    /// A macro definition: its name, parameters and body.
    MacroDef(String, Vec<String>),
    /// Any other node, by the name of its kind: its text says that it has
    /// none.
    Other(String),
}

/// A node: its kind and the ids of its children.
#[derive(Debug, Clone)]
pub struct AstNode {
    pub kind: AstKind,
    pub children: Vec<usize>,
}

/// A syntax tree: its nodes by id; node 0 is the root.
#[derive(Debug, Clone)]
pub struct Ast {
    pub nodes: Vec<AstNode>,
}

/// The kinds whose text shows their first child.
pub open spec fn shows_first_child(k: AstKind) -> bool {
    k is Assignment || k is LocalAssignment || k is Org || k is Put || k is StructEntry
}

/// A well-formed tree: each child comes after its parent, and a node whose
/// text shows its first child has one.
pub open spec fn tree_wf(nodes: Seq<AstNode>) -> bool {
    forall|i: int|
        0 <= i < nodes.len() ==> {
            &&& forall|j: int|
                0 <= j < nodes[i].children@.len() ==> i < #[trigger] nodes[i].children@[j] < nodes.len()
            &&& shows_first_child(nodes[i].kind) ==> nodes[i].children@.len() > 0
        }
}

impl Ast {
    pub open spec fn wf(&self) -> bool {
        tree_wf(self.nodes@)
    }
}

/// `c` as `Debug` writes it inside a quoted string: quotes, backslashes
/// and line feeds, returns and tabs escaped, any other character as it is.
pub open spec fn escape_char(c: char) -> Seq<char> {
    if c == '"' {
        "\\\""@
    } else if c == '\\' {
        "\\\\"@
    } else if c == '\n' {
        "\\n"@
    } else if c == '\r' {
        "\\r"@
    } else if c == '\t' {
        "\\t"@
    } else {
        seq![c]
    }
}

/// The characters of `s`, escaped.
pub open spec fn escaped(s: Seq<char>) -> Seq<char>
    decreases s.len(),
{
    if s.len() == 0 {
        Seq::empty()
    } else {
        escaped(s.drop_last()) + escape_char(s.last())
    }
}

/// `s` quoted.
pub open spec fn quoted(s: Seq<char>) -> Seq<char> {
    "\""@ + escaped(s) + "\""@
}

/// The first `n` of `names`, quoted and separated by `, `.
pub open spec fn quoted_list(names: Seq<String>, n: int) -> Seq<char>
    decreases n,
{
    if n <= 0 {
        Seq::empty()
    } else if n == 1 {
        quoted(names[0]@)
    } else {
        quoted_list(names, n - 1) + ", "@ + quoted(names[n - 1]@)
    }
}

/// The text of node `id` of `nodes`.
pub open spec fn node_text(nodes: Seq<AstNode>, id: int) -> Seq<char>
    decreases nodes.len() - id, (if 0 <= id < nodes.len() { nodes[id].children@.len() + 2 } else { 0 }),
{
    if !(0 <= id < nodes.len()) {
        Seq::empty()
    } else {
        let n = nodes[id];
        let all = n.children@.len() as int;
        match n.kind {
            AstKind::LocalAssignmentFromPc(name) => "!"@ + name@ + " equ *"@,
            AstKind::AssignmentFromPc(name) => name@ + " equ *"@,
            AstKind::Pc => "*"@,
            AstKind::Label(name) => name@,
            AstKind::LocalLabel(name) => "!"@ + name@,
            AstKind::Comment(c) => "; "@ + c@,
            AstKind::LocalAssignment(name) => name@ + " equ "@ + joined(nodes, id, 1, ""@),
            AstKind::Assignment(name) => name@ + " equ "@ + joined(nodes, id, 1, ""@),
            AstKind::Expr => joined(nodes, id, all, ""@),
            AstKind::PostFixExpr => joined(nodes, id, all, " "@),
            AstKind::Include(file) => "include \""@ + file@ + "\""@,
            AstKind::Num(v) => signed_decimal(v as int),
            AstKind::Mul => "*"@,
            AstKind::Div => "/"@,
            AstKind::Add => "+"@,
            AstKind::Sub => "-"@,
            AstKind::BitAnd => "&"@,
            AstKind::BitOr => "|"@,
            AstKind::BitXor => "^"@,
            AstKind::ShiftR => ">>"@,
            AstKind::ShiftL => "<<"@,
            AstKind::Org => "org "@ + joined(nodes, id, 1, ""@),
            AstKind::Put => "put "@ + joined(nodes, id, 1, ""@),
            AstKind::BracketedExpr => "("@ + joined(nodes, id, all, ""@) + ")"@,
            AstKind::TokenizedFile => "TokFile:\n"@ + joined(nodes, id, all, "\n"@),
            AstKind::StructDef(name) => "struct "@ + name@ + " {\n "@ + joined(nodes, id, all, ",\n"@)
                + "\n}"@,
            AstKind::StructEntry(name) => name@ + " : "@ + joined(nodes, id, 1, ""@),
            AstKind::Fcc(text) => quoted(text@),
            AstKind::Fdb | AstKind::Fcb => "fcb "@ + joined(nodes, id, all, ","@),
            AstKind::Fill => "fill "@ + joined(nodes, id, all, ","@),
            AstKind::MacroDef(name, vars) => "macro "@ + name@ + " (["@ + quoted_list(
                vars@,
                vars@.len() as int,
            ) + "]) ["@ + joined(nodes, id, all, " : "@) + "]"@,
            AstKind::Other(kind) => kind@ + " not implemented"@,
        }
    }
}

/// The texts of the first `k` children of node `id`, separated by `sep`.
pub open spec fn joined(nodes: Seq<AstNode>, id: int, k: int, sep: Seq<char>) -> Seq<char>
    decreases nodes.len() - id, k,
{
    if !(0 <= id < nodes.len()) || k <= 0 || k > nodes[id].children@.len() {
        Seq::empty()
    } else {
        let c = nodes[id].children@[k - 1] as int;
        let last = if id < c < nodes.len() {
            node_text(nodes, c)
        } else {
            Seq::empty()
        };
        if k == 1 {
            last
        } else {
            joined(nodes, id, k - 1, sep) + sep + last
        }
    }
}

fn push_escaped(out: &mut String, text: &str)
    ensures
        final(out)@ == old(out)@ + escaped(text@),
{
    let n = text.unicode_len();
    let ghost start = out@;
    let mut i: usize = 0;
    while i < n
        invariant
            n == text@.len(),
            i <= n,
            out@ == start + escaped(text@.subrange(0, i as int)),
        decreases n - i,
    {
        let c = text.get_char(i);
        proof {
            let pre = text@.subrange(0, i as int + 1);
            assert(pre.drop_last() =~= text@.subrange(0, i as int));
            assert(pre.last() == c);
        }
        if c == '"' {
            out.append("\\\"");
        } else if c == '\\' {
            out.append("\\\\");
        } else if c == '\n' {
            out.append("\\n");
        } else if c == '\r' {
            out.append("\\r");
        } else if c == '\t' {
            out.append("\\t");
        } else {
            let one = text.substring_char(i, i + 1);
            assert(one@ =~= seq![c]);
            out.append(one);
        }
        i = i + 1;
        assert(out@ =~= start + escaped(text@.subrange(0, i as int)));
    }
    assert(text@.subrange(0, n as int) =~= text@);
}

fn push_quoted(out: &mut String, text: &str)
    ensures
        final(out)@ == old(out)@ + quoted(text@),
{
    out.append("\"");
    push_escaped(out, text);
    out.append("\"");
    assert(out@ =~= old(out)@ + quoted(text@));
}

impl Ast {
    /// The text of node `id` and the nodes under it, as the AST file shows
    /// it.
    pub fn ast_text(&self, id: usize) -> (res: String)
        requires
            self.wf(),
            id < self.nodes@.len(),
        ensures
            res@ == node_text(self.nodes@, id as int),
        decreases self.nodes@.len() - id,
    {
        let n = &self.nodes[id];
        let all = n.children.len();
        let mut s = String::new();
        match &n.kind {
            AstKind::LocalAssignmentFromPc(name) => {
                s.append("!");
                s.append(name.as_str());
                s.append(" equ *");
            },
            AstKind::AssignmentFromPc(name) => {
                s.append(name.as_str());
                s.append(" equ *");
            },
            AstKind::Pc => {
                s.append("*");
            },
            AstKind::Label(name) => {
                s.append(name.as_str());
            },
            AstKind::LocalLabel(name) => {
                s.append("!");
                s.append(name.as_str());
            },
            AstKind::Comment(c) => {
                s.append("; ");
                s.append(c.as_str());
            },
            AstKind::LocalAssignment(name) | AstKind::Assignment(name) => {
                s.append(name.as_str());
                s.append(" equ ");
                self.push_joined(&mut s, id, 1, "");
            },
            AstKind::Expr => {
                self.push_joined(&mut s, id, all, "");
            },
            AstKind::PostFixExpr => {
                self.push_joined(&mut s, id, all, " ");
            },
            AstKind::Include(file) => {
                s.append("include \"");
                s.append(file.as_str());
                s.append("\"");
            },
            AstKind::Num(v) => {
                push_signed(&mut s, *v);
            },
            AstKind::Mul => {
                s.append("*");
            },
            AstKind::Div => {
                s.append("/");
            },
            AstKind::Add => {
                s.append("+");
            },
            AstKind::Sub => {
                s.append("-");
            },
            AstKind::BitAnd => {
                s.append("&");
            },
            AstKind::BitOr => {
                s.append("|");
            },
            AstKind::BitXor => {
                s.append("^");
            },
            AstKind::ShiftR => {
                s.append(">>");
            },
            AstKind::ShiftL => {
                s.append("<<");
            },
            AstKind::Org => {
                s.append("org ");
                self.push_joined(&mut s, id, 1, "");
            },
            AstKind::Put => {
                s.append("put ");
                self.push_joined(&mut s, id, 1, "");
            },
            AstKind::BracketedExpr => {
                s.append("(");
                self.push_joined(&mut s, id, all, "");
                s.append(")");
            },
            AstKind::TokenizedFile => {
                s.append("TokFile:\n");
                self.push_joined(&mut s, id, all, "\n");
            },
            AstKind::StructDef(name) => {
                s.append("struct ");
                s.append(name.as_str());
                s.append(" {\n ");
                self.push_joined(&mut s, id, all, ",\n");
                s.append("\n}");
            },
            AstKind::StructEntry(name) => {
                s.append(name.as_str());
                s.append(" : ");
                self.push_joined(&mut s, id, 1, "");
            },
            AstKind::Fcc(text) => {
                push_quoted(&mut s, text.as_str());
            },
            AstKind::Fdb | AstKind::Fcb => {
                s.append("fcb ");
                self.push_joined(&mut s, id, all, ",");
            },
            AstKind::Fill => {
                s.append("fill ");
                self.push_joined(&mut s, id, all, ",");
            },
            AstKind::MacroDef(name, vars) => {
                s.append("macro ");
                s.append(name.as_str());
                s.append(" ([");
                let mut k: usize = 0;
                while k < vars.len()
                    invariant
                        k <= vars@.len(),
                        s@ == "macro "@ + name@ + " (["@ + quoted_list(vars@, k as int),
                    decreases vars@.len() - k,
                {
                    if k > 0 {
                        s.append(", ");
                    }
                    push_quoted(&mut s, vars[k].as_str());
                    k = k + 1;
                }
                s.append("]) [");
                self.push_joined(&mut s, id, all, " : ");
                s.append("]");
            },
            AstKind::Other(kind) => {
                s.append(kind.as_str());
                s.append(" not implemented");
            },
        }
        assert(s@ =~= node_text(self.nodes@, id as int));
        s
    }

    /// Append the texts of the first `k` children of node `id`, separated
    /// by `sep`.
    fn push_joined(&self, out: &mut String, id: usize, k: usize, sep: &str)
        requires
            self.wf(),
            id < self.nodes@.len(),
            k <= self.nodes@[id as int].children@.len(),
        ensures
            final(out)@ == old(out)@ + joined(self.nodes@, id as int, k as int, sep@),
        decreases self.nodes@.len() - id, 0nat,
    {
        let ghost start = out@;
        let children = &self.nodes[id].children;
        let mut j: usize = 0;
        while j < k
            invariant
                self.wf(),
                id < self.nodes@.len(),
                children == &self.nodes@[id as int].children,
                j <= k <= children@.len(),
                out@ == start + joined(self.nodes@, id as int, j as int, sep@),
            decreases k - j,
        {
            if j > 0 {
                out.append(sep);
            }
            let c = children[j];
            proof {
                assert(id < c < self.nodes@.len());
            }
            let t = self.ast_text(c);
            out.append(t.as_str());
            j = j + 1;
            assert(out@ =~= start + joined(self.nodes@, id as int, j as int, sep@));
        }
    }
}

} // verus!

verus! {

impl Ast {
    /// Whether the tree is well formed: each child after its parent and in
    /// range, and each node whose text shows its first child has one.
    pub fn is_wf(&self) -> (res: bool)
        ensures
            res == self.wf(),
    {
        let len = self.nodes.len();
        let mut i: usize = 0;
        while i < len
            invariant
                len == self.nodes@.len(),
                i <= len,
                forall|p: int|
                    0 <= p < i ==> {
                        &&& forall|j: int|
                            0 <= j < self.nodes@[p].children@.len() ==> p < #[trigger] self.nodes@[p].children@[j]
                                < len
                        &&& shows_first_child(self.nodes@[p].kind) ==> self.nodes@[p].children@.len() > 0
                    },
            decreases len - i,
        {
            let n = &self.nodes[i];
            let first = match &n.kind {
                AstKind::Assignment(_) | AstKind::LocalAssignment(_) | AstKind::Org | AstKind::Put
                | AstKind::StructEntry(_) => true,
                _ => false,
            };
            if first && n.children.len() == 0 {
                return false;
            }
            let mut j: usize = 0;
            while j < n.children.len()
                invariant
                    len == self.nodes@.len(),
                    i < len,
                    n == &self.nodes@[i as int],
                    j <= n.children@.len(),
                    forall|q: int| 0 <= q < j ==> i < #[trigger] n.children@[q] < len,
                decreases n.children@.len() - j,
            {
                let c = n.children[j];
                if !(i < c && c < len) {
                    return false;
                }
                j = j + 1;
            }
            i = i + 1;
        }
        true
    }
}

} // verus!
