//! The options an assembly runs with, and the variables it is given.
use vstd::prelude::*;
use crate::assembler::asmout::BinReference;
use crate::cli::cpukind::CpuKind;

verus! {

/// The value bound to `key` in `pairs`, where the last binding wins.
pub open spec fn lookup(pairs: Seq<(String, String)>, key: Seq<char>) -> Option<Seq<char>>
    decreases pairs.len(),
{
    if pairs.len() == 0 {
        None
    } else if pairs.last().0@ == key {
        Some(pairs.last().1@)
    } else {
        lookup(pairs.drop_last(), key)
    }
}

/// No name is bound twice.
pub open spec fn keys_unique(pairs: Seq<(String, String)>) -> bool {
    forall|i: int, j: int|
        0 <= i < pairs.len() && 0 <= j < pairs.len() && i != j ==> #[trigger] pairs[i].0@
            != #[trigger] pairs[j].0@
}

/// The bindings of `pairs` as a map from name to value.
pub open spec fn pairs_map(pairs: Seq<(String, String)>) -> Map<Seq<char>, Seq<char>> {
    Map::new(|k: Seq<char>| lookup(pairs, k) is Some, |k: Seq<char>| lookup(pairs, k)->0)
}

/// A name bound nowhere in `pairs` looks up to nothing.
pub proof fn lemma_lookup_absent(pairs: Seq<(String, String)>, key: Seq<char>)
    requires
        forall|i: int| 0 <= i < pairs.len() ==> #[trigger] pairs[i].0@ != key,
    ensures
        lookup(pairs, key) is None,
    decreases pairs.len(),
{
    if pairs.len() > 0 {
        assert(pairs.last().0@ != key);
        let rest = pairs.drop_last();
        assert forall|i: int| 0 <= i < rest.len() implies #[trigger] rest[i].0@ != key by {
            assert(rest[i] == pairs[i]);
        }
        lemma_lookup_absent(rest, key);
    }
}

/// With unique names, the binding at `i` is what its name looks up to.
pub proof fn lemma_lookup_at(pairs: Seq<(String, String)>, i: int)
    requires
        keys_unique(pairs),
        0 <= i < pairs.len(),
    ensures
        lookup(pairs, pairs[i].0@) == Some(pairs[i].1@),
    decreases pairs.len(),
{
    if i < pairs.len() - 1 {
        let rest = pairs.drop_last();
        assert(pairs.last() == pairs[pairs.len() - 1]);
        assert(pairs[pairs.len() - 1].0@ != pairs[i].0@);
        assert forall|a: int, b: int|
            0 <= a < rest.len() && 0 <= b < rest.len() && a != b implies #[trigger] rest[a].0@
            != #[trigger] rest[b].0@ by {
            assert(rest[a] == pairs[a]);
            assert(rest[b] == pairs[b]);
        }
        assert(rest[i] == pairs[i]);
        lemma_lookup_at(rest, i);
    }
}

/// Replacing the binding at `i` by one of the same name changes what that
/// name looks up to and nothing else.
pub proof fn lemma_lookup_update(
    pairs: Seq<(String, String)>,
    i: int,
    p: (String, String),
    key: Seq<char>,
)
    requires
        keys_unique(pairs),
        0 <= i < pairs.len(),
        pairs[i].0@ == p.0@,
    ensures
        lookup(pairs.update(i, p), key) == if key == p.0@ {
            Some(p.1@)
        } else {
            lookup(pairs, key)
        },
    decreases pairs.len(),
{
    let upd = pairs.update(i, p);
    if i == pairs.len() - 1 {
        assert(upd.drop_last() =~= pairs.drop_last());
    } else {
        let rest = pairs.drop_last();
        assert(upd.drop_last() =~= rest.update(i, p));
        assert forall|a: int, b: int|
            0 <= a < rest.len() && 0 <= b < rest.len() && a != b implies #[trigger] rest[a].0@
            != #[trigger] rest[b].0@ by {
            assert(rest[a] == pairs[a]);
            assert(rest[b] == pairs[b]);
        }
        assert(rest[i] == pairs[i]);
        assert(pairs[pairs.len() - 1].0@ != pairs[i].0@);
        lemma_lookup_update(rest, i, p, key);
    }
}

/// The bindings of `m` after binding each pair of `pairs` in turn.
pub open spec fn set_all(m: Map<Seq<char>, Seq<char>>, pairs: Seq<(String, String)>) -> Map<
    Seq<char>,
    Seq<char>,
>
    decreases pairs.len(),
{
    if pairs.len() == 0 {
        m
    } else {
        set_all(m, pairs.drop_last()).insert(pairs.last().0@, pairs.last().1@)
    }
}

/// Binding `pairs` in turn over `m`: a name that `pairs` binds takes the
/// value of its last binding there.
pub proof fn lemma_set_all_last(
    m: Map<Seq<char>, Seq<char>>,
    pairs: Seq<(String, String)>,
    k: Seq<char>,
    i: int,
)
    requires
        0 <= i < pairs.len(),
        pairs[i].0@ == k,
        forall|j: int| i < j < pairs.len() ==> #[trigger] pairs[j].0@ != k,
    ensures
        set_all(m, pairs).contains_key(k),
        set_all(m, pairs)[k] == pairs[i].1@,
    decreases pairs.len(),
{
    let rest = pairs.drop_last();
    if i < pairs.len() - 1 {
        assert(pairs[pairs.len() - 1].0@ != k);
        assert(rest[i] == pairs[i]);
        assert forall|j: int| i < j < rest.len() implies #[trigger] rest[j].0@ != k by {
            assert(rest[j] == pairs[j]);
        }
        lemma_set_all_last(m, rest, k, i);
    }
}

/// Binding `pairs` in turn over `m`: a name that `pairs` does not bind
/// keeps its binding in `m`.
pub proof fn lemma_set_all_keeps(m: Map<Seq<char>, Seq<char>>, pairs: Seq<(String, String)>, k: Seq<char>)
    requires
        forall|j: int| 0 <= j < pairs.len() ==> #[trigger] pairs[j].0@ != k,
    ensures
        set_all(m, pairs).contains_key(k) == m.contains_key(k),
        m.contains_key(k) ==> set_all(m, pairs)[k] == m[k],
    decreases pairs.len(),
{
    if pairs.len() > 0 {
        let rest = pairs.drop_last();
        assert(pairs[pairs.len() - 1].0@ != k);
        assert forall|j: int| 0 <= j < rest.len() implies #[trigger] rest[j].0@ != k by {
            assert(rest[j] == pairs[j]);
        }
        lemma_set_all_keeps(m, rest, k);
    }
}

/// A set of named values, such as those given with `--set name value` or
/// under `[vars]` in a configuration file. A name is bound at most once.
#[derive(Debug, Clone)]
pub struct Vars {
    vars: Vec<(String, String)>,
}

impl View for Vars {
    type V = Map<Seq<char>, Seq<char>>;

    closed spec fn view(&self) -> Map<Seq<char>, Seq<char>> {
        pairs_map(self.vars@)
    }
}

impl Vars {
    /// No name is bound twice.
    pub closed spec fn wf(&self) -> bool {
        keys_unique(self.vars@)
    }

    /// No bindings.
    pub fn new() -> (res: Vars)
        ensures
            res.wf(),
            res@ == Map::<Seq<char>, Seq<char>>::empty(),
    {
        let res = Vars { vars: Vec::new() };
        assert(res@ =~= Map::<Seq<char>, Seq<char>>::empty());
        res
    }

    /// The value bound to `name`, if any.
    pub fn get_var(&self, name: &str) -> (res: Option<&String>)
        requires
            self.wf(),
        ensures
            match res {
                Some(v) => self@.contains_key(name@) && self@[name@] == v@,
                None => !self@.contains_key(name@),
            },
    {
        let key = name.to_owned();
        let mut i: usize = 0;
        while i < self.vars.len()
            invariant
                i <= self.vars@.len(),
                key@ == name@,
                keys_unique(self.vars@),
                forall|j: int| 0 <= j < i ==> #[trigger] self.vars@[j].0@ != name@,
            decreases self.vars@.len() - i,
        {
            if self.vars[i].0 == key {
                proof {
                    lemma_lookup_at(self.vars@, i as int);
                }
                return Some(&self.vars[i].1);
            }
            i = i + 1;
        }
        proof {
            lemma_lookup_absent(self.vars@, name@);
        }
        None
    }

    /// Bind `name` to `value`, replacing any earlier binding of `name`.
    pub fn set_var(&mut self, name: &str, value: &str)
        requires
            old(self).wf(),
        ensures
            final(self).wf(),
            final(self)@ == old(self)@.insert(name@, value@),
    {
        let ghost before = self.vars@;
        let key = name.to_owned();
        let pair = (name.to_owned(), value.to_owned());
        let mut i: usize = 0;
        while i < self.vars.len()
            invariant
                i <= self.vars@.len(),
                key@ == name@,
                pair.0@ == name@,
                pair.1@ == value@,
                self.vars@ == before,
                before == old(self).vars@,
                keys_unique(before),
                forall|j: int| 0 <= j < i ==> #[trigger] self.vars@[j].0@ != name@,
            decreases self.vars@.len() - i,
        {
            if self.vars[i].0 == key {
                assert(before[i as int].0@ == name@);
                self.vars.set(i, pair);
                proof {
                    assert(self.vars@ == before.update(i as int, pair));
                    assert forall|a: int, b: int|
                        0 <= a < self.vars@.len() && 0 <= b < self.vars@.len() && a != b implies #[trigger] self.vars@[a].0@
                        != #[trigger] self.vars@[b].0@ by {
                        if a != i && b != i {
                            assert(self.vars@[a] == before[a]);
                            assert(self.vars@[b] == before[b]);
                            assert(before[a].0@ != before[b].0@);
                        } else if a == i {
                            assert(self.vars@[b] == before[b]);
                            assert(before[b].0@ != before[i as int].0@);
                        } else {
                            assert(self.vars@[a] == before[a]);
                            assert(before[a].0@ != before[i as int].0@);
                        }
                    }
                    assert forall|k: Seq<char>| true implies lookup(self.vars@, k) == (if k == name@ {
                        Some(value@)
                    } else {
                        lookup(before, k)
                    }) by {
                        lemma_lookup_update(before, i as int, pair, k);
                    }
                    assert(pairs_map(self.vars@) =~= pairs_map(before).insert(name@, value@));
                }
                return ;
            }
            i = i + 1;
        }
        self.vars.push(pair);
        proof {
            assert(self.vars@ == before.push(pair));
            assert(self.vars@.drop_last() =~= before);
            assert forall|a: int, b: int|
                0 <= a < self.vars@.len() && 0 <= b < self.vars@.len() && a != b implies #[trigger] self.vars@[a].0@
                != #[trigger] self.vars@[b].0@ by {
                if a < before.len() && b < before.len() {
                    assert(self.vars@[a] == before[a]);
                    assert(self.vars@[b] == before[b]);
                    assert(before[a].0@ != before[b].0@);
                } else if a < before.len() {
                    assert(self.vars@[a] == before[a]);
                    assert(before[a].0@ != name@);
                } else {
                    assert(self.vars@[b] == before[b]);
                    assert(before[b].0@ != name@);
                }
            }
            assert(pairs_map(self.vars@) =~= pairs_map(before).insert(name@, value@));
        }
    }

    /// Bind each pair of `pairs` in turn, a later binding of a name
    /// replacing an earlier one.
    pub fn set_vars(&mut self, pairs: &Vec<(String, String)>)
        requires
            old(self).wf(),
        ensures
            final(self).wf(),
            final(self)@ == set_all(old(self)@, pairs@),
    {
        let mut i: usize = 0;
        while i < pairs.len()
            invariant
                i <= pairs@.len(),
                self.wf(),
                self@ == set_all(old(self)@, pairs@.subrange(0, i as int)),
            decreases pairs@.len() - i,
        {
            let (n, v) = &pairs[i];
            self.set_var(n.as_str(), v.as_str());
            proof {
                let s = pairs@.subrange(0, i as int + 1);
                assert(s.drop_last() =~= pairs@.subrange(0, i as int));
            }
            i = i + 1;
        }
        proof {
            assert(pairs@.subrange(0, pairs@.len() as int) =~= pairs@);
        }
    }

    /// The bindings, in the order in which their names were first bound.
    pub fn pairs(&self) -> (res: &Vec<(String, String)>)
        requires
            self.wf(),
        ensures
            keys_unique(res@),
            pairs_map(res@) == self@,
    {
        &self.vars
    }

    /// A copy of these bindings.
    pub fn duplicate(&self) -> (res: Vars)
        ensures
            res.wf() == self.wf(),
            res@ == self@,
    {
        let mut out: Vec<(String, String)> = Vec::new();
        let mut i: usize = 0;
        while i < self.vars.len()
            invariant
                i <= self.vars@.len(),
                out@ == self.vars@.subrange(0, i as int),
            decreases self.vars@.len() - i,
        {
            let (n, v) = &self.vars[i];
            out.push((n.clone(), v.clone()));
            proof {
                assert(out@ =~= self.vars@.subrange(0, i as int + 1));
            }
            i = i + 1;
        }
        proof {
            assert(out@ =~= self.vars@);
        }
        Vars { vars: out }
    }
}

/// How much an assembly reports as it goes.
#[derive(Debug, PartialEq, Eq, Structural, Clone, Copy)]
pub enum Verbosity {
    Silent,
    Normal,
    Info,
    Interesting,
    Debug,
}

/// What a run of the assembler is for.
#[derive(Debug, PartialEq, Eq, Structural, Clone, Copy)]
pub enum BuildType {
    Build,
    Check,
    Lsp,
    Format,
    Test,
}

/// The checksum expected of a range of the output image.
#[derive(Debug, Clone)]
pub struct CheckSum {
    pub addr: usize,
    pub size: usize,
    pub sha1: String,
}

impl CheckSum {
    /// A copy of this checksum.
    pub fn duplicate(&self) -> (res: CheckSum)
        ensures
            res == *self,
    {
        CheckSum { addr: self.addr, size: self.size, sha1: self.sha1.clone() }
    }
}

/// The options an assembly runs with. Paths are held as text.
#[derive(Debug, Clone)]
pub struct Opts {
    pub verbose: Verbosity,
    pub no_async: bool,
    pub build_type: BuildType,
    pub cpu: CpuKind,
    pub project_file: String,
    pub target_name: Option<String>,
    pub assemble_dir: Option<String>,
    pub mem_size: usize,
    pub max_errors: usize,
    pub metadata: bool,
    pub deps_file: Option<String>,
    pub source_mapping: Option<String>,
    pub as6809_lst: Option<String>,
    pub as6809_sym: Option<String>,
    pub lst_file: Option<String>,
    pub ast_file: Option<String>,
    pub trailing_comments: bool,
    pub star_comments: bool,
    pub ignore_relative_offset_errors: bool,
    pub vars: Vars,
    pub checksums: Vec<(String, CheckSum)>,
    pub bin_references: Vec<BinReference>,
}

/// The size of image an assembly writes unless told otherwise.
pub const DEFAULT_MEM_SIZE: usize = 0x10000;

/// How many errors an assembly tolerates unless told otherwise.
pub const DEFAULT_MAX_ERRORS: usize = 5;

/// A copy of `s`.
pub fn copy_opt_string(s: &Option<String>) -> (res: Option<String>)
    ensures
        res == *s,
{
    match s {
        Some(t) => Some(t.clone()),
        None => None,
    }
}

/// A copy of `v`.
pub fn copy_checksums(v: &Vec<(String, CheckSum)>) -> (res: Vec<(String, CheckSum)>)
    ensures
        res@ == v@,
{
    let mut out: Vec<(String, CheckSum)> = Vec::new();
    let mut i: usize = 0;
    while i < v.len()
        invariant
            i <= v@.len(),
            out@ == v@.subrange(0, i as int),
        decreases v@.len() - i,
    {
        let (n, c) = &v[i];
        out.push((n.clone(), c.duplicate()));
        proof {
            assert(out@ =~= v@.subrange(0, i as int + 1));
        }
        i = i + 1;
    }
    proof {
        assert(out@ =~= v@);
    }
    out
}

/// A copy of `v`.
pub fn copy_bin_references(v: &Vec<BinReference>) -> (res: Vec<BinReference>)
    ensures
        res@ == v@,
{
    let mut out: Vec<BinReference> = Vec::new();
    let mut i: usize = 0;
    while i < v.len()
        invariant
            i <= v@.len(),
            out@ == v@.subrange(0, i as int),
        decreases v@.len() - i,
    {
        let r = &v[i];
        out.push(BinReference { file: r.file.clone(), addr: r.addr });
        proof {
            assert(out@ =~= v@.subrange(0, i as int + 1));
        }
        i = i + 1;
    }
    proof {
        assert(out@ =~= v@);
    }
    out
}

impl Opts {
    /// The options are well formed: no variable is bound twice.
    pub open spec fn wf(&self) -> bool {
        self.vars.wf()
    }

    /// `a` and `b` agree on every option but the two that the command line
    /// overrides: verbosity and whether to work asynchronously.
    pub open spec fn same_settings(a: Opts, b: Opts) -> bool {
        &&& a.build_type == b.build_type
        &&& a.cpu == b.cpu
        &&& a.project_file == b.project_file
        &&& a.target_name == b.target_name
        &&& a.assemble_dir == b.assemble_dir
        &&& a.mem_size == b.mem_size
        &&& a.max_errors == b.max_errors
        &&& a.metadata == b.metadata
        &&& a.deps_file == b.deps_file
        &&& a.source_mapping == b.source_mapping
        &&& a.as6809_lst == b.as6809_lst
        &&& a.as6809_sym == b.as6809_sym
        &&& a.lst_file == b.lst_file
        &&& a.ast_file == b.ast_file
        &&& a.trailing_comments == b.trailing_comments
        &&& a.star_comments == b.star_comments
        &&& a.ignore_relative_offset_errors == b.ignore_relative_offset_errors
        &&& a.vars@ == b.vars@
        &&& a.checksums@ == b.checksums@
        &&& a.bin_references@ == b.bin_references@
    }

    /// The default settings, leaving aside variables, checksums, run
    /// directory and target name.
    pub open spec fn has_default_settings(self) -> bool {
        &&& self.verbose == Verbosity::Silent
        &&& !self.no_async
        &&& self.build_type == BuildType::Build
        &&& self.cpu == CpuKind::Cpu6809
        &&& self.project_file@.len() == 0
        &&& self.mem_size == DEFAULT_MEM_SIZE
        &&& self.max_errors == DEFAULT_MAX_ERRORS
        &&& !self.metadata
        &&& self.deps_file is None
        &&& self.source_mapping is None
        &&& self.as6809_lst is None
        &&& self.as6809_sym is None
        &&& self.lst_file is None
        &&& self.ast_file is None
        &&& !self.trailing_comments
        &&& !self.star_comments
        &&& !self.ignore_relative_offset_errors
        &&& self.bin_references@.len() == 0
    }

    /// The defaults: a 6809 build of an unnamed project into a 64K image,
    /// silent, tolerating five errors, with no variables or outputs.
    pub fn new() -> (res: Opts)
        ensures
            res.wf(),
            res.has_default_settings(),
            res.target_name is None,
            res.assemble_dir is None,
            res.vars@ == Map::<Seq<char>, Seq<char>>::empty(),
            res.checksums@.len() == 0,
    {
        Opts {
            verbose: Verbosity::Silent,
            no_async: false,
            build_type: BuildType::Build,
            cpu: CpuKind::Cpu6809,
            project_file: String::new(),
            target_name: None,
            assemble_dir: None,
            mem_size: DEFAULT_MEM_SIZE,
            max_errors: DEFAULT_MAX_ERRORS,
            metadata: false,
            deps_file: None,
            source_mapping: None,
            as6809_lst: None,
            as6809_sym: None,
            lst_file: None,
            ast_file: None,
            trailing_comments: false,
            star_comments: false,
            ignore_relative_offset_errors: false,
            vars: Vars::new(),
            checksums: Vec::new(),
            bin_references: Vec::new(),
        }
    }

    /// A copy of these options.
    pub fn duplicate(&self) -> (res: Opts)
        ensures
            res.wf() == self.wf(),
            Opts::same_settings(res, *self),
            res.verbose == self.verbose,
            res.no_async == self.no_async,
    {
        Opts {
            verbose: self.verbose,
            no_async: self.no_async,
            build_type: self.build_type,
            cpu: self.cpu,
            project_file: self.project_file.clone(),
            target_name: copy_opt_string(&self.target_name),
            assemble_dir: copy_opt_string(&self.assemble_dir),
            mem_size: self.mem_size,
            max_errors: self.max_errors,
            metadata: self.metadata,
            deps_file: copy_opt_string(&self.deps_file),
            source_mapping: copy_opt_string(&self.source_mapping),
            as6809_lst: copy_opt_string(&self.as6809_lst),
            as6809_sym: copy_opt_string(&self.as6809_sym),
            lst_file: copy_opt_string(&self.lst_file),
            ast_file: copy_opt_string(&self.ast_file),
            trailing_comments: self.trailing_comments,
            star_comments: self.star_comments,
            ignore_relative_offset_errors: self.ignore_relative_offset_errors,
            vars: self.vars.duplicate(),
            checksums: copy_checksums(&self.checksums),
            bin_references: copy_bin_references(&self.bin_references),
        }
    }
}

impl Default for Opts {
    fn default() -> (res: Opts)
        ensures
            res.wf(),
            res.mem_size == DEFAULT_MEM_SIZE,
            res.max_errors == DEFAULT_MAX_ERRORS,
            res.vars@ == Map::<Seq<char>, Seq<char>>::empty(),
    {
        Opts::new()
    }
}

} // verus!
