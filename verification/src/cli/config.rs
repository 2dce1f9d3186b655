//! Configuration files: what a `gazm.toml` holds once read, and the options
//! it yields for the project and for each of its targets.
use vstd::prelude::*;
use crate::opts::{copy_checksums, copy_opt_string, set_all, CheckSum, Opts, Vars};

verus! {

/// A target section of a configuration file, as read.
#[derive(Debug, Clone)]
pub struct LoadedTarget {
    pub name: String,
    pub opts: Opts,
    pub vars: Option<Vec<(String, String)>>,
    pub checksums: Option<Vec<(String, CheckSum)>>,
}

/// A configuration file, as read.
#[derive(Debug, Clone)]
pub struct LoadedTomlConfig {
    pub opts: Option<Opts>,
    pub vars: Option<Vec<(String, String)>>,
    pub checksums: Option<Vec<(String, CheckSum)>>,
    pub targets: Option<Vec<LoadedTarget>>,
}

/// A configuration: the file it came from, the options of the project and
/// those of each target.
#[derive(Debug, Clone)]
pub struct TomlConfig {
    pub file: String,
    pub opts: Opts,
    pub targets: Vec<Opts>,
}

/// Why a configuration could not be had.
#[derive(Debug, Clone, PartialEq, Eq)]
pub enum ConfigErrorType {
    MissingConfigArg,
    InvalidDir(String),
    MissingConfigFile(String),
    /// The file, the parser's message, and the line and column (from one)
    /// at which it stopped.
    ParseError(String, String, usize, usize),
}

/// The pairs of an optional list, or none.
pub open spec fn pairs_or_empty(v: Option<Vec<(String, String)>>) -> Seq<(String, String)> {
    match v {
        Some(p) => p@,
        None => Seq::empty(),
    }
}

/// The checksums of an optional list, or `default`.
pub open spec fn checksums_or(
    v: Option<Vec<(String, CheckSum)>>,
    default: Seq<(String, CheckSum)>,
) -> Seq<(String, CheckSum)> {
    match v {
        Some(c) => c@,
        None => default,
    }
}

/// `a` has the settings of `b`, but for the variables, checksums, run
/// directory and target name, which a configuration sets.
pub open spec fn keeps_file_settings(a: Opts, b: Opts) -> bool {
    &&& a.verbose == b.verbose
    &&& a.no_async == b.no_async
    &&& a.build_type == b.build_type
    &&& a.cpu == b.cpu
    &&& a.project_file == b.project_file
    &&& a.mem_size == b.mem_size
    &&& a.max_errors == b.max_errors
    &&& a.metadata == b.metadata
    &&& a.deps_file == b.deps_file
    &&& a.source_mapping == b.source_mapping
    &&& a.as6809_lst == b.as6809_lst
    &&& a.as6809_sym == b.as6809_sym
    &&& a.lst_file == b.lst_file
    &&& a.ast_file == b.ast_file
    &&& a.trailing_comments == b.trailing_comments
    &&& a.star_comments == b.star_comments
    &&& a.ignore_relative_offset_errors == b.ignore_relative_offset_errors
    &&& a.bin_references@ == b.bin_references@
}

/// The options of a target: its own settings, the common variables with its
/// own laid over them, its own checksums or else the common ones, the run
/// directory, and its name.
pub open spec fn target_opts_from(
    res: Opts,
    t: LoadedTarget,
    common_vars: Seq<(String, String)>,
    common_checksums: Seq<(String, CheckSum)>,
    run_dir: Option<String>,
) -> bool {
    &&& res.wf()
    &&& keeps_file_settings(res, t.opts)
    &&& res.vars@ == set_all(set_all(Map::empty(), common_vars), pairs_or_empty(t.vars))
    &&& res.checksums@ == checksums_or(t.checksums, common_checksums)
    &&& res.assemble_dir == run_dir
    &&& res.target_name == Some(t.name)
}

/// The options of a configuration file's `[opts]` section, or the defaults,
/// with the variables `vars`, the checksums `checksums` and the run
/// directory `run_dir`.
pub fn opts_with_common(
    opts: Option<Opts>,
    vars: &Vec<(String, String)>,
    checksums: Vec<(String, CheckSum)>,
    run_dir: Option<String>,
) -> (res: Opts)
    ensures
        res.wf(),
        match opts {
            Some(o) => keeps_file_settings(res, o) && res.target_name == o.target_name,
            None => res.has_default_settings() && res.target_name is None,
        },
        res.vars@ == set_all(Map::empty(), vars@),
        res.checksums@ == checksums@,
        res.assemble_dir == run_dir,
{
    let mut res = match opts {
        Some(o) => o,
        None => Opts::new(),
    };
    let mut new_vars = Vars::new();
    new_vars.set_vars(vars);
    res.vars = new_vars;
    res.checksums = checksums;
    res.assemble_dir = run_dir;
    res
}

impl TomlConfig {
    /// The configuration that the file `file`, read as `loaded`, gives when
    /// run from `run_dir`. The project's options are those of `[opts]` (or
    /// the defaults) with the common variables and checksums. Each target
    /// keeps its own settings, lays its variables over the common ones,
    /// takes its own checksums or else the common ones, and is named.
    pub fn from_loaded(file: String, run_dir: Option<String>, loaded: LoadedTomlConfig) -> (res:
        TomlConfig)
        ensures
            res.file == file,
            res.opts.wf(),
            match loaded.opts {
                Some(o) => keeps_file_settings(res.opts, o) && res.opts.target_name == o.target_name,
                None => res.opts.has_default_settings() && res.opts.target_name is None,
            },
            res.opts.vars@ == set_all(Map::empty(), pairs_or_empty(loaded.vars)),
            res.opts.checksums@ == checksums_or(loaded.checksums, Seq::empty()),
            res.opts.assemble_dir == run_dir,
            res.targets@.len() == match loaded.targets {
                Some(t) => t@.len(),
                None => 0,
            },
            forall|i: int|
                0 <= i < res.targets@.len() ==> target_opts_from(
                    #[trigger] res.targets@[i],
                    loaded.targets->0@[i],
                    pairs_or_empty(loaded.vars),
                    checksums_or(loaded.checksums, Seq::empty()),
                    run_dir,
                ),
    {
        let LoadedTomlConfig { opts, vars, checksums, targets } = loaded;
        let common_vars: Vec<(String, String)> = match vars {
            Some(v) => v,
            None => Vec::new(),
        };
        let common_checksums: Vec<(String, CheckSum)> = match checksums {
            Some(c) => c,
            None => Vec::new(),
        };
        let project_opts = opts_with_common(
            opts,
            &common_vars,
            copy_checksums(&common_checksums),
            copy_opt_string(&run_dir),
        );
        let mut pending: Vec<LoadedTarget> = match targets {
            Some(t) => t,
            None => Vec::new(),
        };
        let ghost all = pending@;
        let mut out: Vec<Opts> = Vec::new();
        while pending.len() > 0
            invariant
                out@.len() + pending@.len() == all.len(),
                pending@ == all.subrange(out@.len() as int, all.len() as int),
                forall|i: int|
                    0 <= i < out@.len() ==> target_opts_from(
                        #[trigger] out@[i],
                        all[i],
                        common_vars@,
                        common_checksums@,
                        run_dir,
                    ),
            decreases pending@.len(),
        {
            let t = pending.remove(0);
            let ghost t_spec = t;
            let LoadedTarget { name, opts: t_opts, vars: t_vars, checksums: t_checksums } = t;
            let own_checksums = match t_checksums {
                Some(c) => c,
                None => copy_checksums(&common_checksums),
            };
            let mut target = opts_with_common(
                Some(t_opts),
                &common_vars,
                own_checksums,
                copy_opt_string(&run_dir),
            );
            match t_vars {
                Some(v) => target.vars.set_vars(&v),
                None => {},
            }
            target.target_name = Some(name);
            proof {
                assert(t_spec == all[out@.len() as int]);
            }
            out.push(target);
            proof {
                assert(pending@ =~= all.subrange(out@.len() as int, all.len() as int));
            }
        }
        TomlConfig { file, opts: project_opts, targets: out }
    }
}

/// The line and column, each counted from zero and in bytes, of byte
/// `offset` of `text`: the number of line feeds before it, and its distance
/// from the byte after the last of them (or from the start).
pub open spec fn text_pos(text: Seq<u8>, offset: int) -> (int, int)
    decreases offset,
{
    if offset <= 0 {
        (0, 0)
    } else if text[offset - 1] == 10u8 {
        (text_pos(text, offset - 1).0 + 1, 0)
    } else {
        (text_pos(text, offset - 1).0, text_pos(text, offset - 1).1 + 1)
    }
}

/// The line and column, each counted from zero and in bytes, of byte
/// `offset` of `text`.
pub fn offset_to_text_pos(text: &[u8], offset: usize) -> (res: (usize, usize))
    requires
        offset <= text@.len(),
    ensures
        res.0 == text_pos(text@, offset as int).0,
        res.1 == text_pos(text@, offset as int).1,
        res.0 <= offset,
        res.1 <= offset,
{
    let mut line: usize = 0;
    let mut col: usize = 0;
    let mut i: usize = 0;
    while i < offset
        invariant
            i <= offset <= text@.len(),
            line == text_pos(text@, i as int).0,
            col == text_pos(text@, i as int).1,
            line <= i,
            col <= i,
        decreases offset - i,
    {
        if text[i] == 10u8 {
            line = line + 1;
            col = 0;
        } else {
            col = col + 1;
        }
        i = i + 1;
    }
    (line, col)
}

impl ConfigErrorType {
    /// The error for a file `file` whose text, in bytes `text`, the parser
    /// stopped on at byte `offset`, with message `message`: its line and
    /// column counted from one.
    pub fn parse_error(file: String, text: &[u8], message: String, offset: usize) -> (res:
        ConfigErrorType)
        requires
            offset <= text@.len(),
            offset < usize::MAX,
        ensures
            res == ConfigErrorType::ParseError(
                file,
                message,
                (text_pos(text@, offset as int).0 + 1) as usize,
                (text_pos(text@, offset as int).1 + 1) as usize,
            ),
    {
        let (line, col) = offset_to_text_pos(text, offset);
        ConfigErrorType::ParseError(file, message, line + 1, col + 1)
    }
}

/// The number of line feeds among the first `n` bytes of `text`.
pub open spec fn line_feeds(text: Seq<u8>, n: int) -> int
    decreases n,
{
    if n <= 0 {
        0
    } else {
        line_feeds(text, n - 1) + if text[n - 1] == 10u8 {
            1int
        } else {
            0int
        }
    }
}

/// The line of a byte is the number of line feeds before it, and its
/// column its distance from the start of its line: the bytes from the
/// start of the line up to it hold no line feed, and the line starts at
/// the start of the text or just after a line feed.
pub proof fn lemma_text_pos_meaning(text: Seq<u8>, offset: int)
    requires
        0 <= offset <= text.len(),
    ensures
        text_pos(text, offset).0 == line_feeds(text, offset),
        0 <= text_pos(text, offset).1 <= offset,
        forall|j: int| offset - text_pos(text, offset).1 <= j < offset ==> text[j] != 10u8,
        offset - text_pos(text, offset).1 == 0 || text[offset - text_pos(text, offset).1 - 1] == 10u8,
    decreases offset,
{
    if offset > 0 {
        lemma_text_pos_meaning(text, offset - 1);
    }
}

} // verus!
