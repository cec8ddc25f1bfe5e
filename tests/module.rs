use mrow::{
    gather_includes, get_all_steps, AurHelper, ConfigTable, Error, Includes, LoadOutcome, MrowFile,
    RawMrowFile, RawStep,
};

fn s(x: &str) -> String {
    x.to_string()
}

fn file(config: Option<ConfigTable>, includes: Includes, steps: Vec<RawStep>) -> RawMrowFile {
    RawMrowFile { config, includes, steps }
}

fn helper_config() -> Option<ConfigTable> {
    Some(ConfigTable { aur_helper: Some(AurHelper::Yay), host_includes: vec![] })
}

#[test]
fn includes_empty_and_paths() {
    assert!(Includes::Absent.empty());
    assert!(Includes::One(s("")).empty());
    assert!(!Includes::One(s("a.toml")).empty());
    assert!(Includes::Many(vec![]).empty());
    assert_eq!(Includes::Many(vec![s("a"), s("b")]).paths(), vec![s("a"), s("b")]);
    assert_eq!(Includes::One(s("a")).paths(), vec![s("a")]);
    assert!(Includes::Absent.paths().is_empty());
    assert!(matches!(Includes::default(), Includes::Absent));
}

#[test]
fn noop_module_is_detected() {
    assert!(file(None, Includes::Absent, vec![]).is_noop());
    assert!(!file(None, Includes::One(s("x")), vec![]).is_noop());
    assert!(!file(None, Includes::Absent, vec![RawStep::Command(s("ls"))]).is_noop());
}

#[test]
fn new_module_keeps_config_only_for_root() {
    let raw = file(helper_config(), Includes::Absent, vec![RawStep::Command(s("ls"))]);
    let root = MrowFile::new("/cfg", "/cfg/mrow.toml", s("/real/mrow.toml"), raw.clone(), true, &None).unwrap();
    assert!(root.config.is_some());
    assert_eq!(root.dir, "/cfg");
    assert_eq!(root.path, "/real/mrow.toml");
    assert_eq!(root.relative_path_str, "mrow.toml");
    let child = MrowFile::new("/cfg", "/cfg/sub/mrow.toml", s("/cfg/sub/mrow.toml"), raw, false, &None).unwrap();
    assert!(child.config.is_none());
    assert_eq!(child.relative_path_str, "sub/mrow.toml");
}

#[test]
fn new_module_refuses_invalid_step() {
    let raw = file(None, Includes::Absent, vec![RawStep::Command(s("ls")), RawStep::Other(s("1.5"))]);
    let r = MrowFile::new("/cfg", "/cfg/m.toml", s("/cfg/m.toml"), raw, false, &None);
    assert!(matches!(r, Err(Error::InvalidStep { index: 1, .. })));
}

#[test]
fn gather_loads_each_include_in_order() {
    let base = MrowFile::new(
        "/cfg",
        "/cfg/mrow.toml",
        s("/cfg/mrow.toml"),
        file(None, Includes::Absent, vec![]),
        true,
        &None,
    )
    .unwrap();
    let load = |p: &str| -> LoadOutcome {
        LoadOutcome::Loaded { canonical: p.to_string(), file: file(None, Includes::Absent, vec![]) }
    };
    let chain = vec![s("/cfg/mrow.toml")];
    let got = gather_includes(&load, "/cfg", &None, &base, &vec![s("b.toml"), s("a/a.toml")], &chain).unwrap();
    let paths: Vec<String> = got.iter().map(|m| m.path.clone()).collect();
    assert_eq!(paths, vec![s("/cfg/b.toml"), s("/cfg/a/a.toml")]);
    let mut chain = Vec::new();
    let steps = get_all_steps(&load, "/cfg", &None, &base, &vec![s("b.toml")], &mut chain, 3).unwrap();
    assert!(steps.is_empty());
    assert!(chain.is_empty());
}
