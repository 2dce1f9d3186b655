//! The stack of files being included while a project is tokenized, which
//! refuses to include a file that is already being included.
use vstd::prelude::*;

verus! {

/// Why the include stack refused a change.
#[derive(Debug, Clone, Copy, PartialEq, Eq, Structural)]
pub enum IncludeErrorKind {
    /// The file is already being included.
    CircularInclude,
    /// The stack is empty.
    CantPop,
}

/// `p` is one of the paths of `s`.
pub open spec fn holds_path(s: Seq<Seq<char>>, p: Seq<char>) -> bool {
    exists|i: int| 0 <= i < s.len() && #[trigger] s[i] == p
}

/// No path occurs twice in `s`.
pub open spec fn paths_distinct(s: Seq<Seq<char>>) -> bool {
    forall|i: int, j: int| 0 <= i < s.len() && 0 <= j < s.len() && i != j ==> #[trigger] s[i] != #[trigger] s[j]
}

/// The files being included, the outermost first.
#[derive(Debug, Clone)]
pub struct IncludeStack {
    include_stack: Vec<String>,
}

impl View for IncludeStack {
    type V = Seq<Seq<char>>;

    closed spec fn view(&self) -> Seq<Seq<char>> {
        self.include_stack@.map_values(|p: String| p@)
    }
}

impl IncludeStack {
    /// An empty stack.
    pub fn new() -> (res: IncludeStack)
        ensures
            res@ == Seq::<Seq<char>>::empty(),
    {
        let res = IncludeStack { include_stack: Vec::new() };
        assert(res@ =~= Seq::<Seq<char>>::empty());
        res
    }

    /// The innermost file, if any.
    pub fn top(&self) -> (res: Option<String>)
        ensures
            match res {
                Some(p) => self@.len() > 0 && p@ == self@.last(),
                None => self@.len() == 0,
            },
    {
        let n = self.include_stack.len();
        if n == 0 {
            None
        } else {
            Some(self.include_stack[n - 1].clone())
        }
    }

    /// Whether `full_path` is already being included.
    pub fn is_circular(&self, full_path: &String) -> (res: bool)
        ensures
            res == holds_path(self@, full_path@),
    {
        let mut i: usize = 0;
        while i < self.include_stack.len()
            invariant
                i <= self.include_stack@.len(),
                forall|j: int| 0 <= j < i ==> #[trigger] self@[j] != full_path@,
            decreases self.include_stack@.len() - i,
        {
            if self.include_stack[i] == *full_path {
                assert(self@[i as int] == full_path@);
                return true;
            }
            i = i + 1;
        }
        false
    }

    /// Enter `p`; refused, with the stack unchanged, where `p` is already
    /// being included.
    pub fn push(&mut self, p: &String) -> (res: Result<(), IncludeErrorKind>)
        ensures
            holds_path(old(self)@, p@) ==> res == Err::<(), IncludeErrorKind>(
                IncludeErrorKind::CircularInclude,
            ) && final(self)@ == old(self)@,
            !holds_path(old(self)@, p@) ==> res is Ok && final(self)@ == old(self)@.push(p@),
    {
        if self.is_circular(p) {
            Err(IncludeErrorKind::CircularInclude)
        } else {
            self.include_stack.push(p.clone());
            assert(self@ =~= old(self)@.push(p@));
            Ok(())
        }
    }

    /// Leave the innermost file; refused where the stack is empty.
    pub fn pop(&mut self) -> (res: Result<(), IncludeErrorKind>)
        ensures
            old(self)@.len() == 0 ==> res == Err::<(), IncludeErrorKind>(IncludeErrorKind::CantPop)
                && final(self)@ == old(self)@,
            old(self)@.len() > 0 ==> res is Ok && final(self)@ == old(self)@.drop_last(),
    {
        if self.include_stack.len() == 0 {
            Err(IncludeErrorKind::CantPop)
        } else {
            let _ = self.include_stack.pop();
            assert(self@ =~= old(self)@.drop_last());
            Ok(())
        }
    }
}

/// A push that is not refused never puts a path on the stack twice.
pub proof fn lemma_push_keeps_paths_distinct(before: Seq<Seq<char>>, p: Seq<char>)
    requires
        paths_distinct(before),
        !holds_path(before, p),
    ensures
        paths_distinct(before.push(p)),
{
    let after = before.push(p);
    assert forall|i: int, j: int|
        0 <= i < after.len() && 0 <= j < after.len() && i != j implies #[trigger] after[i]
        != #[trigger] after[j] by {
        if i < before.len() && j < before.len() {
            assert(after[i] == before[i] && after[j] == before[j]);
        } else if i < before.len() {
            assert(after[i] == before[i]);
            assert(!(before[i] == p));
        } else {
            assert(after[j] == before[j]);
            assert(!(before[j] == p));
        }
    }
}

/// After entering a file, it is the innermost one; leaving it then gives
/// back the stack as it was.
pub proof fn lemma_push_then_pop(before: Seq<Seq<char>>, p: Seq<char>)
    ensures
        before.push(p).last() == p,
        before.push(p).drop_last() == before,
{
    assert(before.push(p).drop_last() =~= before);
}

/// A file to tokenize: the path as it was asked for, and the file that
/// included it, if any.
#[derive(Debug, Clone, PartialEq, Eq)]
pub struct FileRequest {
    pub requested_file: String,
    pub parent: Option<String>,
}

/// The text of an optional path.
pub open spec fn opt_path(p: Option<String>) -> Option<Seq<char>> {
    match p {
        Some(s) => Some(s@),
        None => None,
    }
}

/// The request as text: requested file and parent.
pub open spec fn request_view(r: FileRequest) -> (Seq<char>, Option<Seq<char>>) {
    (r.requested_file@, opt_path(r.parent))
}

/// What the token store holds of a file.
#[derive(Debug, Clone, PartialEq, Eq)]
pub enum StoredTokens {
    /// The file was tokenized; these are the full paths of its includes.
    Tokenized(Vec<String>),
    /// The file is yet to be tokenized.
    NotYet,
}

/// The plan of a round over the first `n` files: the positions of the files
/// to tokenize, and the includes to follow next, each with the parent of
/// the file whose tokens name it.
pub open spec fn plan_prefix(files: Seq<FileRequest>, stored: Seq<StoredTokens>, n: int) -> (
    Seq<int>,
    Seq<(Seq<char>, Option<Seq<char>>)>,
)
    decreases n,
{
    if n <= 0 {
        (Seq::empty(), Seq::empty())
    } else {
        let (reqs, incs) = plan_prefix(files, stored, n - 1);
        match stored[n - 1] {
            StoredTokens::NotYet => (reqs.push(n - 1), incs),
            StoredTokens::Tokenized(includes) => (
                reqs,
                incs + includes@.map_values(|p: String| (p@, opt_path(files[n - 1].parent))),
            ),
        }
    }
}

/// One round of tokenizing `files`, where `stored[i]` is what the token
/// store holds of `files[i]`: the files not yet tokenized are to be, in
/// order; the includes of those already tokenized are to be followed next,
/// in order, each with the parent of the file whose tokens name it.
pub fn plan_tokenize_round(files: &Vec<FileRequest>, stored: &Vec<StoredTokens>) -> (res: (
    Vec<usize>,
    Vec<FileRequest>,
))
    requires
        files@.len() == stored@.len(),
    ensures
        res.0@.map_values(|i: usize| i as int) == plan_prefix(files@, stored@, files@.len() as int).0,
        res.1@.map_values(|r: FileRequest| request_view(r)) == plan_prefix(
            files@,
            stored@,
            files@.len() as int,
        ).1,
{
    let mut requests: Vec<usize> = Vec::new();
    let mut includes: Vec<FileRequest> = Vec::new();
    let mut i: usize = 0;
    while i < files.len()
        invariant
            i <= files@.len() == stored@.len(),
            requests@.map_values(|i: usize| i as int) == plan_prefix(files@, stored@, i as int).0,
            includes@.map_values(|r: FileRequest| request_view(r)) == plan_prefix(
                files@,
                stored@,
                i as int,
            ).1,
        decreases files@.len() - i,
    {
        match &stored[i] {
            StoredTokens::NotYet => {
                let ghost before = requests@;
                requests.push(i);
                proof {
                    assert(requests@.map_values(|i: usize| i as int) =~= before.map_values(
                        |i: usize| i as int,
                    ).push(i as int));
                }
            },
            StoredTokens::Tokenized(incs) => {
                let ghost start = includes@;
                let parent = &files[i].parent;
                let mut k: usize = 0;
                while k < incs.len()
                    invariant
                        k <= incs@.len(),
                        includes@.len() == start.len() + k,
                        forall|j: int| 0 <= j < start.len() ==> includes@[j] == start[j],
                        forall|j: int|
                            0 <= j < k ==> request_view(#[trigger] includes@[start.len() + j]) == (
                                incs@[j]@,
                                opt_path(*parent),
                            ),
                    decreases incs@.len() - k,
                {
                    includes.push(
                        FileRequest {
                            requested_file: incs[k].clone(),
                            parent: crate::opts::copy_opt_string(parent),
                        },
                    );
                    k = k + 1;
                }
                proof {
                    let f = |r: FileRequest| request_view(r);
                    let g = |p: String| (p@, opt_path(files@[i as int].parent));
                    let lhs = includes@.map_values(f);
                    let rhs = start.map_values(f) + incs@.map_values(g);
                    assert forall|j: int| 0 <= j < lhs.len() implies lhs[j] == rhs[j] by {
                        if j >= start.len() {
                            let q = j - start.len();
                            assert(request_view(includes@[start.len() + q]) == (incs@[q]@, opt_path(*parent)));
                        }
                    }
                    assert(lhs =~= rhs);
                }
            },
        }
        i = i + 1;
    }
    (requests, includes)
}

/// The files of the next round: the includes queued while planning, then
/// each requested file that was tokenized without error, so that its own
/// includes are followed in the round after.
pub fn next_round(queued: Vec<FileRequest>, requested: &Vec<FileRequest>, succeeded: &Vec<bool>) -> (res:
    Vec<FileRequest>)
    requires
        requested@.len() == succeeded@.len(),
    ensures
        res@.map_values(|r: FileRequest| request_view(r)) == queued@.map_values(
            |r: FileRequest| request_view(r),
        ) + tokenized(requested@, succeeded@, requested@.len() as int),
{
    let mut out = queued;
    let ghost q = out@.map_values(|r: FileRequest| request_view(r));
    let mut i: usize = 0;
    while i < requested.len()
        invariant
            i <= requested@.len() == succeeded@.len(),
            out@.map_values(|r: FileRequest| request_view(r)) == q + tokenized(
                requested@,
                succeeded@,
                i as int,
            ),
        decreases requested@.len() - i,
    {
        if succeeded[i] {
            let ghost before = out@;
            out.push(
                FileRequest {
                    requested_file: requested[i].requested_file.clone(),
                    parent: crate::opts::copy_opt_string(&requested[i].parent),
                },
            );
            proof {
                assert(out@.map_values(|r: FileRequest| request_view(r)) =~= before.map_values(
                    |r: FileRequest| request_view(r),
                ).push(request_view(requested@[i as int])));
            }
        }
        i = i + 1;
    }
    out
}

/// The requests among the first `n` of `requested` that succeeded, as text.
pub open spec fn tokenized(requested: Seq<FileRequest>, succeeded: Seq<bool>, n: int) -> Seq<
    (Seq<char>, Option<Seq<char>>),
>
    decreases n,
{
    if n <= 0 {
        Seq::empty()
    } else if succeeded[n - 1] {
        tokenized(requested, succeeded, n - 1).push(request_view(requested[n - 1]))
    } else {
        tokenized(requested, succeeded, n - 1)
    }
}

} // verus!

verus! {

/// The files a round tokenizes are exactly those the store does not hold
/// tokens for yet, each once, in the order they were requested.
pub proof fn lemma_round_tokenizes_untokenized(files: Seq<FileRequest>, stored: Seq<StoredTokens>, n: int)
    requires
        0 <= n <= stored.len(),
    ensures
        forall|k: int|
            0 <= k < plan_prefix(files, stored, n).0.len() ==> 0 <= #[trigger] plan_prefix(files, stored, n).0[k]
                < n && stored[plan_prefix(files, stored, n).0[k]] is NotYet,
        forall|a: int, b: int|
            0 <= a < b < plan_prefix(files, stored, n).0.len() ==> #[trigger] plan_prefix(files, stored, n).0[a]
                < #[trigger] plan_prefix(files, stored, n).0[b],
        forall|i: int| 0 <= i < n && #[trigger] stored[i] is NotYet ==> plan_prefix(files, stored, n).0.contains(i),
    decreases n,
{
    if n > 0 {
        lemma_round_tokenizes_untokenized(files, stored, n - 1);
        let prev = plan_prefix(files, stored, n - 1).0;
        let cur = plan_prefix(files, stored, n).0;
        if stored[n - 1] is NotYet {
            assert(cur == prev.push(n - 1));
            assert forall|k: int| 0 <= k < cur.len() implies 0 <= #[trigger] cur[k] < n && stored[cur[k]] is NotYet by {
                if k < prev.len() {
                    assert(cur[k] == prev[k]);
                }
            }
            assert forall|a: int, b: int| 0 <= a < b < cur.len() implies #[trigger] cur[a] < #[trigger] cur[b] by {
                assert(cur[a] == prev[a]);
                if b < prev.len() {
                    assert(cur[b] == prev[b]);
                }
            }
            assert forall|i: int| 0 <= i < n && #[trigger] stored[i] is NotYet implies cur.contains(i) by {
                if i < n - 1 {
                    let k = choose|k: int| 0 <= k < prev.len() && prev[k] == i;
                    assert(cur[k] == prev[k]);
                } else {
                    assert(cur[prev.len() as int] == i);
                }
            }
        } else {
            assert(cur == prev);
        }
    }
}

} // verus!
