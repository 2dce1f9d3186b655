use gazm::cli::config::{ConfigErrorType, LoadedTarget, LoadedTomlConfig, TomlConfig};
use gazm::cli::cpukind::CpuKind;
use gazm::cli::{config_file_path, load_opts_with_build_type, AsmArgs, Overides};
use gazm::config::{LoadedYamlConfig, Project, YamlConfig};
use gazm::opts::{BuildType, CheckSum, Opts, Vars, Verbosity, DEFAULT_MAX_ERRORS, DEFAULT_MEM_SIZE};

#[test]
fn yaml_test() {}

#[test]
fn config_yaml_test() {}

fn pairs(v: &[(&str, &str)]) -> Vec<(String, String)> {
    v.iter().map(|(a, b)| (a.to_string(), b.to_string())).collect()
}

fn checksum(name: &str, addr: usize) -> (String, CheckSum) {
    (
        name.to_string(),
        CheckSum { addr, size: 0x1000, sha1: "f003a5a9319c4eb8991fa2aae3f10c72d6b8e81a".to_string() },
    )
}

#[test]
fn vars_last_binding_wins() {
    let mut v = Vars::new();
    assert_eq!(v.get_var("A"), None);
    v.set_var("A", "1");
    v.set_var("B", "2");
    v.set_var("A", "3");
    assert_eq!(v.get_var("A").map(|s| s.as_str()), Some("3"));
    assert_eq!(v.get_var("B").map(|s| s.as_str()), Some("2"));
    assert_eq!(v.get_var("C"), None);
    assert_eq!(v.pairs().len(), 2);
    let copy = v.duplicate();
    assert_eq!(copy.get_var("A").map(|s| s.as_str()), Some("3"));
}

#[test]
fn cpu_names_ignore_case() {
    assert_eq!(CpuKind::try_from("6800"), Ok(CpuKind::Cpu6800));
    assert_eq!(CpuKind::try_from("6809"), Ok(CpuKind::Cpu6809));
    assert_eq!(CpuKind::try_from("Z80"), Ok(CpuKind::CpuZ80));
    assert_eq!(CpuKind::try_from("z80"), Ok(CpuKind::CpuZ80));
    assert_eq!(CpuKind::try_from("6502"), Ok(CpuKind::Cpu6809));
    assert_eq!(CpuKind::try_from("65C02"), Ok(CpuKind::Cpu6809));
    assert_eq!(CpuKind::default(), CpuKind::Cpu6809);
}

#[test]
fn overides_from_verbosity_count() {
    let o = Overides::new(false, 0);
    assert_eq!(o.no_async, None);
    assert_eq!(o.verbosity, Some(Verbosity::Silent));
    assert_eq!(Overides::new(true, 1).no_async, Some(true));
    assert_eq!(Overides::new(false, 1).verbosity, Some(Verbosity::Normal));
    assert_eq!(Overides::new(false, 2).verbosity, Some(Verbosity::Info));
    assert_eq!(Overides::new(false, 3).verbosity, Some(Verbosity::Interesting));
    assert_eq!(Overides::new(false, 4).verbosity, Some(Verbosity::Debug));
    assert_eq!(Overides::new(false, 200).verbosity, Some(Verbosity::Debug));
}

#[test]
fn apply_overides_keeps_other_settings() {
    let mut opts = Opts::new();
    opts.project_file = "game.gazm".to_string();
    opts.mem_size = 0x8000;
    opts.vars.set_var("LIVES", "3");
    opts.verbose = Verbosity::Info;
    opts.no_async = false;

    let none = Overides::default();
    let same = none.apply_overides(&opts);
    assert_eq!(same.verbose, Verbosity::Info);
    assert!(!same.no_async);

    let o = Overides::new(true, 4);
    let res = o.apply_overides(&opts);
    assert_eq!(res.verbose, Verbosity::Debug);
    assert!(res.no_async);
    assert_eq!(res.project_file, "game.gazm");
    assert_eq!(res.mem_size, 0x8000);
    assert_eq!(res.vars.get_var("LIVES").map(|s| s.as_str()), Some("3"));
}

#[test]
fn default_options() {
    let o = Opts::default();
    assert_eq!(o.mem_size, DEFAULT_MEM_SIZE);
    assert_eq!(o.max_errors, DEFAULT_MAX_ERRORS);
    assert_eq!(o.build_type, BuildType::Build);
    assert_eq!(o.cpu, CpuKind::Cpu6809);
    assert_eq!(o.verbose, Verbosity::Silent);
    assert!(o.target_name.is_none());
    assert!(o.vars.pairs().is_empty());
}

#[test]
fn config_path_from_argument() {
    assert_eq!(config_file_path(None, false), "gazm.toml");
    assert_eq!(config_file_path(Some("proj.toml".to_string()), false), "proj.toml");
    assert_eq!(config_file_path(Some("dir".to_string()), true), "dir/gazm.toml");
    assert_eq!(config_file_path(Some("dir/".to_string()), true), "dir/gazm.toml");
}

#[test]
fn asm_args_build_options() {
    let args = AsmArgs {
        project_file: "prog.gazm".to_string(),
        deps: Some("prog.d".to_string()),
        source_mapping: None,
        as6809_lst: None,
        as6809_sym: None,
        trailing_comments: true,
        star_comments: false,
        ignore_relative_offset_errors: true,
        lst_file: Some("prog.lst".to_string()),
        ast_file: None,
        mem_size: Some(0x4000),
        max_errors: None,
        set: pairs(&[("X", "1"), ("Y", "2"), ("X", "5")]),
    };
    let opts = Opts::from_asm_args(args, "/work".to_string(), &Overides::new(false, 2));
    assert_eq!(opts.project_file, "prog.gazm");
    assert_eq!(opts.deps_file.as_deref(), Some("prog.d"));
    assert_eq!(opts.lst_file.as_deref(), Some("prog.lst"));
    assert!(opts.trailing_comments);
    assert!(!opts.star_comments);
    assert!(opts.ignore_relative_offset_errors);
    assert_eq!(opts.mem_size, 0x4000);
    assert_eq!(opts.max_errors, DEFAULT_MAX_ERRORS);
    assert_eq!(opts.assemble_dir.as_deref(), Some("/work"));
    assert_eq!(opts.vars.get_var("X").map(|s| s.as_str()), Some("5"));
    assert_eq!(opts.vars.get_var("Y").map(|s| s.as_str()), Some("2"));
    assert_eq!(opts.verbose, Verbosity::Info);
}

fn sample_config() -> LoadedTomlConfig {
    let mut base = Opts::new();
    base.project_file = "main.gazm".to_string();
    base.mem_size = 94208;
    let mut t1 = Opts::new();
    t1.project_file = "t1.gazm".to_string();
    let mut t2 = Opts::new();
    t2.project_file = "t2.gazm".to_string();
    LoadedTomlConfig {
        opts: Some(base),
        vars: Some(pairs(&[("LEVEL", "1"), ("DEBUG", "0")])),
        checksums: Some(vec![checksum("rom_1", 0)]),
        targets: Some(vec![
            LoadedTarget {
                name: "release".to_string(),
                opts: t1,
                vars: Some(pairs(&[("DEBUG", "1"), ("EXTRA", "x")])),
                checksums: None,
            },
            LoadedTarget {
                name: "test".to_string(),
                opts: t2,
                vars: None,
                checksums: Some(vec![checksum("rom_2", 0x1000), checksum("rom_3", 0x2000)]),
            },
        ]),
    }
}

#[test]
fn toml_config_merges_common_settings() {
    let conf = TomlConfig::from_loaded(
        "dir/gazm.toml".to_string(),
        Some("/abs/dir".to_string()),
        sample_config(),
    );
    assert_eq!(conf.file, "dir/gazm.toml");
    assert_eq!(conf.opts.project_file, "main.gazm");
    assert_eq!(conf.opts.mem_size, 94208);
    assert_eq!(conf.opts.assemble_dir.as_deref(), Some("/abs/dir"));
    assert_eq!(conf.opts.vars.get_var("DEBUG").map(|s| s.as_str()), Some("0"));
    assert_eq!(conf.opts.checksums.len(), 1);
    assert!(conf.opts.target_name.is_none());

    assert_eq!(conf.targets.len(), 2);
    let release = &conf.targets[0];
    assert_eq!(release.target_name.as_deref(), Some("release"));
    assert_eq!(release.project_file, "t1.gazm");
    assert_eq!(release.vars.get_var("LEVEL").map(|s| s.as_str()), Some("1"));
    assert_eq!(release.vars.get_var("DEBUG").map(|s| s.as_str()), Some("1"));
    assert_eq!(release.vars.get_var("EXTRA").map(|s| s.as_str()), Some("x"));
    assert_eq!(release.checksums.len(), 1);
    assert_eq!(release.checksums[0].0, "rom_1");
    assert_eq!(release.assemble_dir.as_deref(), Some("/abs/dir"));

    let test = &conf.targets[1];
    assert_eq!(test.target_name.as_deref(), Some("test"));
    assert_eq!(test.vars.get_var("DEBUG").map(|s| s.as_str()), Some("0"));
    assert_eq!(test.checksums.len(), 2);
    assert_eq!(test.checksums[1].1.addr, 0x2000);
}

#[test]
fn toml_config_without_sections_uses_defaults() {
    let loaded = LoadedTomlConfig { opts: None, vars: None, checksums: None, targets: None };
    let conf = TomlConfig::from_loaded("gazm.toml".to_string(), None, loaded);
    assert_eq!(conf.opts.mem_size, DEFAULT_MEM_SIZE);
    assert!(conf.opts.vars.pairs().is_empty());
    assert!(conf.opts.checksums.is_empty());
    assert!(conf.opts.assemble_dir.is_none());
    assert!(conf.targets.is_empty());
}

#[test]
fn build_type_and_overides_applied_to_config() {
    let conf = TomlConfig::from_loaded("gazm.toml".to_string(), None, sample_config());
    let opts = load_opts_with_build_type(conf, BuildType::Check, &Overides::new(true, 1));
    assert_eq!(opts.build_type, BuildType::Check);
    assert_eq!(opts.verbose, Verbosity::Normal);
    assert!(opts.no_async);
    assert_eq!(opts.project_file, "main.gazm");
}

#[test]
fn yaml_config_merges_vars_and_checksums() {
    let loaded = LoadedYamlConfig {
        opts: None,
        vars: Some(pairs(&[("A", "b")])),
        checksums: Some(vec![checksum("rom", 0)]),
    };
    let conf = YamlConfig::from_loaded("gazm.toml".to_string(), Some("here".to_string()), loaded);
    assert_eq!(conf.file, "gazm.toml");
    assert_eq!(conf.opts.vars.get_var("A").map(|s| s.as_str()), Some("b"));
    assert_eq!(conf.opts.checksums.len(), 1);
    assert_eq!(conf.opts.assemble_dir.as_deref(), Some("here"));
    assert_eq!(Project::default().name, "");
}

#[test]
fn parse_error_position_counts_from_one() {
    let text = b"[opts]\nmem-size = x\n";
    let e = ConfigErrorType::parse_error("gazm.toml".to_string(), text, "bad".to_string(), 18);
    assert_eq!(
        e,
        ConfigErrorType::ParseError("gazm.toml".to_string(), "bad".to_string(), 2, 12)
    );
    let e = ConfigErrorType::parse_error("f".to_string(), text, "m".to_string(), 0);
    assert_eq!(e, ConfigErrorType::ParseError("f".to_string(), "m".to_string(), 1, 1));
    let e = ConfigErrorType::parse_error("f".to_string(), text, "m".to_string(), text.len());
    assert_eq!(e, ConfigErrorType::ParseError("f".to_string(), "m".to_string(), 3, 1));
}

#[test]
fn test_run_options() {
    let o = Opts::for_test_run("t.gazm".to_string(), "/w".to_string(), &Overides::new(false, 0));
    assert_eq!(o.build_type, BuildType::Test);
    assert_eq!(o.project_file, "t.gazm");
    assert_eq!(o.assemble_dir.as_deref(), Some("/w"));
}
