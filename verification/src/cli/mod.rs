//! The command line: the options it overrides, and the options it builds
//! for a one-off assembly.
pub mod config;
pub mod cpukind;
pub mod styling;

use vstd::prelude::*;
use crate::opts::{copy_opt_string, set_all, BuildType, Opts, Verbosity, Vars};
use self::config::TomlConfig;
use self::cpukind::CpuKind;

verus! {

/// Why the options could not be had.
#[derive(Debug, Clone, PartialEq, Eq)]
pub enum ConfigErrorType {
    MissingConfigArg,
    InvalidDir(String),
    MissingConfigFile(String),
    /// The file, the parser's message, and the line and column (from one)
    /// at which it stopped.
    ParseError(String, String, usize, usize),
}

/// The verbosity that `count` uses of `-v` ask for.
pub open spec fn verbosity_for_count(count: u8) -> Verbosity {
    if count == 0 {
        Verbosity::Silent
    } else if count == 1 {
        Verbosity::Normal
    } else if count == 2 {
        Verbosity::Info
    } else if count == 3 {
        Verbosity::Interesting
    } else {
        Verbosity::Debug
    }
}

/// What the global switches of the command line override in the options
/// that a configuration gives.
#[derive(Debug, Clone, Copy, PartialEq, Eq)]
pub struct Overides {
    pub no_async: Option<bool>,
    pub verbosity: Option<Verbosity>,
}

impl Default for Overides {
    fn default() -> (res: Overides)
        ensures
            res.no_async is None,
            res.verbosity is None,
    {
        Overides { no_async: None, verbosity: None }
    }
}

impl Overides {
    /// The overrides of a command line on which `--no-async` was given or
    /// not, and `-v` was given `verbose_count` times.
    pub fn new(no_async_given: bool, verbose_count: u8) -> (res: Overides)
        ensures
            res.no_async == (if no_async_given {
                Some(true)
            } else {
                None::<bool>
            }),
            res.verbosity == Some(verbosity_for_count(verbose_count)),
    {
        let verbosity = match verbose_count {
            0 => Verbosity::Silent,
            1 => Verbosity::Normal,
            2 => Verbosity::Info,
            3 => Verbosity::Interesting,
            _ => Verbosity::Debug,
        };
        Overides {
            no_async: if no_async_given {
                Some(true)
            } else {
                None
            },
            verbosity: Some(verbosity),
        }
    }

    /// `opts` with the overrides applied: each override that is set
    /// replaces its option, and every other option is kept.
    pub fn apply_overides(&self, opts: &Opts) -> (res: Opts)
        ensures
            res.wf() == opts.wf(),
            Opts::same_settings(res, *opts),
            res.verbose == match self.verbosity {
                Some(v) => v,
                None => opts.verbose,
            },
            res.no_async == match self.no_async {
                Some(v) => v,
                None => opts.no_async,
            },
    {
        let mut ret = opts.duplicate();
        if let Some(v) = self.verbosity {
            ret.verbose = v;
        }
        if let Some(v) = self.no_async {
            ret.no_async = v;
        }
        ret
    }
}

/// The path of the configuration file: the one named on the command line,
/// or `gazm.toml`; where the named path is a directory, `gazm.toml` in it.
pub fn config_file_path(arg: Option<String>, arg_is_dir: bool) -> (res: String)
    ensures
        res@ == match arg {
            Some(a) => if arg_is_dir {
                if a@.len() > 0 && a@.last() == '/' {
                    a@ + "gazm.toml"@
                } else {
                    a@ + "/gazm.toml"@
                }
            } else {
                a@
            },
            None => "gazm.toml"@,
        },
{
    match arg {
        Some(a) => {
            if arg_is_dir {
                let n = a.as_str().unicode_len();
                if n > 0 && a.as_str().get_char(n - 1) == '/' {
                    a.concat("gazm.toml")
                } else {
                    a.concat("/gazm.toml")
                }
            } else {
                a
            }
        },
        None => "gazm.toml".to_owned(),
    }
}

/// The options of a configuration for a run of kind `build_type`, with the
/// overrides of the command line.
pub fn load_opts_with_build_type(conf: TomlConfig, build_type: BuildType, overides: &Overides) -> (res:
    Opts)
    ensures
        res.wf() == conf.opts.wf(),
        res.build_type == build_type,
        Opts::same_settings(res, (Opts { build_type, ..conf.opts })),
        res.verbose == match overides.verbosity {
            Some(v) => v,
            None => conf.opts.verbose,
        },
        res.no_async == match overides.no_async {
            Some(v) => v,
            None => conf.opts.no_async,
        },
{
    let mut conf = conf;
    conf.opts.build_type = build_type;
    overides.apply_overides(&conf.opts)
}

/// What the `asm` command was given.
#[derive(Debug, Clone)]
pub struct AsmArgs {
    pub project_file: String,
    pub deps: Option<String>,
    pub source_mapping: Option<String>,
    pub as6809_lst: Option<String>,
    pub as6809_sym: Option<String>,
    pub trailing_comments: bool,
    pub star_comments: bool,
    pub ignore_relative_offset_errors: bool,
    pub lst_file: Option<String>,
    pub ast_file: Option<String>,
    pub mem_size: Option<usize>,
    pub max_errors: Option<usize>,
    /// The `--set name value` pairs, in order.
    pub set: Vec<(String, String)>,
}

impl Opts {
    /// The options of a `test` command on `project_file` run in `cwd`: the
    /// defaults for a test run, with the overrides of the command line.
    pub fn for_test_run(project_file: String, cwd: String, overides: &Overides) -> (res: Opts)
        ensures
            res.wf(),
            res.build_type == BuildType::Test,
            res.project_file == project_file,
            res.assemble_dir == Some(cwd),
            res.mem_size == crate::opts::DEFAULT_MEM_SIZE,
            res.max_errors == crate::opts::DEFAULT_MAX_ERRORS,
            res.vars@ == Map::<Seq<char>, Seq<char>>::empty(),
            res.target_name is None,
            res.cpu == CpuKind::Cpu6809,
            !res.metadata,
            res.deps_file is None,
            res.source_mapping is None,
            res.as6809_lst is None,
            res.as6809_sym is None,
            res.lst_file is None,
            res.ast_file is None,
            !res.trailing_comments,
            !res.star_comments,
            !res.ignore_relative_offset_errors,
            res.checksums@.len() == 0,
            res.bin_references@.len() == 0,
            res.verbose == match overides.verbosity {
                Some(v) => v,
                None => Verbosity::Silent,
            },
            res.no_async == match overides.no_async {
                Some(v) => v,
                None => false,
            },
    {
        let mut opts = Opts::new();
        opts.build_type = BuildType::Test;
        opts.project_file = project_file;
        opts.assemble_dir = Some(cwd);
        overides.apply_overides(&opts)
    }

    /// The options of an `asm` command run in `cwd`: the defaults, with what
    /// the command names, the variables it sets (a later one winning), and
    /// the overrides of the command line.
    pub fn from_asm_args(args: AsmArgs, cwd: String, overides: &Overides) -> (res: Opts)
        ensures
            res.wf(),
            res.project_file == args.project_file,
            res.deps_file == args.deps,
            res.source_mapping == args.source_mapping,
            res.as6809_lst == args.as6809_lst,
            res.as6809_sym == args.as6809_sym,
            res.trailing_comments == args.trailing_comments,
            res.star_comments == args.star_comments,
            res.ignore_relative_offset_errors == args.ignore_relative_offset_errors,
            res.lst_file == args.lst_file,
            res.ast_file == args.ast_file,
            res.assemble_dir == Some(cwd),
            res.mem_size == match args.mem_size {
                Some(m) => m,
                None => crate::opts::DEFAULT_MEM_SIZE,
            },
            res.max_errors == match args.max_errors {
                Some(m) => m,
                None => crate::opts::DEFAULT_MAX_ERRORS,
            },
            res.vars@ == set_all(Map::empty(), args.set@),
            res.build_type == BuildType::Build,
            res.cpu == CpuKind::Cpu6809,
            res.target_name is None,
            !res.metadata,
            res.checksums@.len() == 0,
            res.bin_references@.len() == 0,
            res.verbose == match overides.verbosity {
                Some(v) => v,
                None => Verbosity::Silent,
            },
            res.no_async == match overides.no_async {
                Some(v) => v,
                None => false,
            },
    {
        let mut opts = Opts::new();
        opts.deps_file = args.deps;
        opts.source_mapping = args.source_mapping;
        opts.as6809_lst = args.as6809_lst;
        opts.as6809_sym = args.as6809_sym;
        opts.trailing_comments = args.trailing_comments;
        opts.star_comments = args.star_comments;
        opts.ignore_relative_offset_errors = args.ignore_relative_offset_errors;
        opts.project_file = args.project_file;
        opts.lst_file = args.lst_file;
        opts.ast_file = args.ast_file;
        opts.assemble_dir = Some(cwd);
        if let Some(m) = args.mem_size {
            opts.mem_size = m;
        }
        if let Some(m) = args.max_errors {
            opts.max_errors = m;
        }
        let mut vars = Vars::new();
        vars.set_vars(&args.set);
        opts.vars = vars;
        overides.apply_overides(&opts)
    }
}

} // verus!
