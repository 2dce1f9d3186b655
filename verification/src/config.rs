//! The older project configuration: a file with options, variables and
//! checksums, and no targets.
use vstd::prelude::*;
use crate::cli::config::{checksums_or, keeps_file_settings, opts_with_common, pairs_or_empty};
use crate::opts::{set_all, CheckSum, Opts};

verus! {

/// A configuration file, as read.
#[derive(Debug, Clone)]
pub struct LoadedYamlConfig {
    pub opts: Option<Opts>,
    pub vars: Option<Vec<(String, String)>>,
    pub checksums: Option<Vec<(String, CheckSum)>>,
}

/// A configuration: the file it came from and the options it gives.
#[derive(Debug, Clone)]
pub struct YamlConfig {
    pub file: String,
    pub opts: Opts,
}

/// A project, by name.
#[derive(Debug, Clone, PartialEq, Eq)]
pub struct Project {
    pub name: String,
}

impl Default for Project {
    fn default() -> (res: Project)
        ensures
            res.name@.len() == 0,
    {
        Project { name: String::new() }
    }
}

impl YamlConfig {
    /// The configuration that the file `file`, read as `loaded`, gives when
    /// run from `run_dir`: the options of `[opts]` (or the defaults) with its
    /// variables and checksums.
    pub fn from_loaded(file: String, run_dir: Option<String>, loaded: LoadedYamlConfig) -> (res:
        YamlConfig)
        ensures
            res.file == file,
            res.opts.wf(),
            match loaded.opts {
                Some(o) => keeps_file_settings(res.opts, o) && res.opts.target_name == o.target_name,
                None => res.opts.has_default_settings() && res.opts.target_name is None,
            },
            res.opts.vars@ == set_all(Map::empty(), pairs_or_empty(loaded.vars)),
            res.opts.checksums@ == checksums_or(loaded.checksums, Seq::empty()),
            res.opts.assemble_dir == run_dir,
    {
        let LoadedYamlConfig { opts, vars, checksums } = loaded;
        let vars: Vec<(String, String)> = match vars {
            Some(v) => v,
            None => Vec::new(),
        };
        let checksums: Vec<(String, CheckSum)> = match checksums {
            Some(c) => c,
            None => Vec::new(),
        };
        let opts = opts_with_common(opts, &vars, checksums, run_dir);
        YamlConfig { file, opts }
    }
}

} // verus!
