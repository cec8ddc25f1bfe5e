use mrow::{
    process_with_home, AurHelper, ConfigTable, Error, Field, FieldName, HostInclude, Includes,
    Item, LoadOutcome, RawMrowFile, RawStep, Step, StepError, StepKind,
};

fn s(x: &str) -> String {
    x.to_string()
}

fn module(includes: Includes, steps: Vec<RawStep>) -> RawMrowFile {
    RawMrowFile { config: None, includes, steps }
}

fn loaded(canonical: &str, file: RawMrowFile) -> LoadOutcome {
    LoadOutcome::Loaded { canonical: s(canonical), file }
}

fn command(c: &str) -> RawStep {
    RawStep::Command(s(c))
}

fn describe(step: &Step) -> String {
    let kind = match &step.kind {
        StepKind::RunCommand { command } => format!("cmd {command}"),
        StepKind::RunCommands { commands } => format!("cmds {}", commands.join("|")),
        StepKind::InstallPackage { package, aur } => format!("pkg {package} {aur}"),
        StepKind::InstallPackages { packages, aur } => format!("pkgs {} {aur}", packages.join("|")),
        StepKind::CopyFile { from, to, as_root } => format!("copy {from} {to} {as_root}"),
        StepKind::Symlink { from, to, delete_existing } => {
            format!("link {from} {to} {delete_existing}")
        }
        StepKind::RunScript { path } => format!("script {path}"),
    };
    format!("{} @ {}", kind, step.relative_path_str)
}

fn assemble_with<F: Fn(&str) -> LoadOutcome>(
    hostname: &str,
    load: F,
) -> Result<(Vec<String>, Option<AurHelper>), Error> {
    let home = Some(s("/home/u"));
    let (steps, helper) = process_with_home("/cfg", "/cfg/mrow.toml", hostname, &home, &load)?;
    Ok((steps.iter().map(describe).collect(), helper))
}

#[test]
fn scenario_root_lists_then_sub_module() {
    let r = assemble_with("box", |p| match p {
        "/cfg/mrow.toml" => loaded(
            "/cfg/mrow.toml",
            module(
                Includes::Many(vec![s("sub.module")]),
                vec![
                    command("echo a"),
                    RawStep::Commands(vec![Item::Str(s("echo b")), Item::Str(s("echo c"))]),
                ],
            ),
        ),
        "/cfg/sub.module" => loaded(
            "/cfg/sub.module",
            module(Includes::Absent, vec![command("echo d")]),
        ),
        _ => LoadOutcome::Missing,
    })
    .unwrap();
    assert_eq!(
        r.0,
        vec![
            s("cmd echo a @ mrow.toml"),
            s("cmds echo b|echo c @ mrow.toml"),
            s("cmd echo d @ sub.module"),
        ]
    );
    assert_eq!(r.1, None);
}

#[test]
fn root_without_includes_keeps_its_order() {
    let r = assemble_with("box", |p| match p {
        "/cfg/mrow.toml" => loaded(
            "/real/mrow.toml",
            module(Includes::Absent, vec![command("b"), command("a"), command("c")]),
        ),
        _ => LoadOutcome::Missing,
    })
    .unwrap();
    assert_eq!(r.0, vec![s("cmd b @ mrow.toml"), s("cmd a @ mrow.toml"), s("cmd c @ mrow.toml")]);
}

fn tree(p: &str) -> LoadOutcome {
    match p {
        "/cfg/mrow.toml" => loaded(
            "/cfg/mrow.toml",
            module(Includes::Many(vec![s("a.toml"), s("b/b.toml")]), vec![command("root")]),
        ),
        "/cfg/a.toml" => loaded(
            "/cfg/a.toml",
            module(Includes::One(s("c.toml")), vec![command("a")]),
        ),
        "/cfg/c.toml" => loaded("/cfg/c.toml", module(Includes::Absent, vec![command("c")])),
        "/cfg/b/b.toml" => loaded(
            "/cfg/b/b.toml",
            module(Includes::One(s("d.toml")), vec![command("b")]),
        ),
        "/cfg/b/d.toml" => loaded("/cfg/b/d.toml", module(Includes::Absent, vec![command("d")])),
        _ => LoadOutcome::Missing,
    }
}

#[test]
fn includes_assemble_in_pre_order() {
    let r = assemble_with("box", tree).unwrap();
    assert_eq!(
        r.0,
        vec![
            s("cmd root @ mrow.toml"),
            s("cmd a @ a.toml"),
            s("cmd c @ c.toml"),
            s("cmd b @ b/b.toml"),
            s("cmd d @ b/d.toml"),
        ]
    );
}

fn with_hosts(p: &str) -> LoadOutcome {
    match p {
        "/cfg/mrow.toml" => loaded(
            "/cfg/mrow.toml",
            RawMrowFile {
                config: Some(ConfigTable {
                    aur_helper: Some(AurHelper::Paru),
                    host_includes: vec![
                        HostInclude { hostname: s("laptop"), includes: Includes::One(s("h1.toml")) },
                        HostInclude { hostname: s("laptop"), includes: Includes::One(s("h2.toml")) },
                    ],
                }),
                includes: Includes::One(s("common.toml")),
                steps: vec![command("root")],
            },
        ),
        "/cfg/h1.toml" => loaded("/cfg/h1.toml", module(Includes::Absent, vec![command("h1")])),
        "/cfg/h2.toml" => loaded("/cfg/h2.toml", module(Includes::Absent, vec![command("h2")])),
        "/cfg/common.toml" => {
            loaded("/cfg/common.toml", module(Includes::Absent, vec![command("common")]))
        }
        _ => LoadOutcome::Missing,
    }
}

#[test]
fn host_includes_come_before_the_root_includes() {
    let r = assemble_with("laptop", with_hosts).unwrap();
    assert_eq!(
        r.0,
        vec![s("cmd root @ mrow.toml"), s("cmd h1 @ h1.toml"), s("cmd common @ common.toml")]
    );
    assert_eq!(r.1, Some(AurHelper::Paru));
}

#[test]
fn unmatched_host_assembles_as_if_absent() {
    let r = assemble_with("desktop", with_hosts).unwrap();
    assert_eq!(r.0, vec![s("cmd root @ mrow.toml"), s("cmd common @ common.toml")]);
}

#[test]
fn config_of_an_included_module_is_ignored() {
    let r = assemble_with("box", |p| match p {
        "/cfg/mrow.toml" => {
            loaded("/cfg/mrow.toml", module(Includes::One(s("x.toml")), vec![]))
        }
        "/cfg/x.toml" => loaded(
            "/cfg/x.toml",
            RawMrowFile {
                config: Some(ConfigTable {
                    aur_helper: Some(AurHelper::Yay),
                    host_includes: vec![HostInclude {
                        hostname: s("box"),
                        includes: Includes::One(s("y.toml")),
                    }],
                }),
                includes: Includes::Absent,
                steps: vec![command("x")],
            },
        ),
        _ => LoadOutcome::Missing,
    })
    .unwrap();
    assert_eq!(r.0, vec![s("cmd x @ x.toml")]);
    assert_eq!(r.1, None);
}

#[test]
fn invalid_step_in_a_descendant_fails_everything() {
    let r = assemble_with("box", |p| match p {
        "/cfg/c.toml" => loaded(
            "/cfg/c.toml",
            module(Includes::Absent, vec![command("c"), RawStep::Other(s("42"))]),
        ),
        other => tree(other),
    });
    match r {
        Err(Error::InvalidStep { module, index, error: StepError::Shape { text } }) => {
            assert_eq!(module, "/cfg/c.toml");
            assert_eq!(index, 1);
            assert_eq!(text, "42");
        }
        other => panic!("unexpected {other:?}"),
    }
}

#[test]
fn missing_include_is_named() {
    let r = assemble_with("box", |p| match p {
        "/cfg/c.toml" => LoadOutcome::Missing,
        other => tree(other),
    });
    match r {
        Err(Error::ImportNotFound { referrer, target }) => {
            assert_eq!(referrer, "/cfg/a.toml");
            assert_eq!(target, "/cfg/c.toml");
        }
        other => panic!("unexpected {other:?}"),
    }
}

#[test]
fn missing_root_is_reported() {
    let r = assemble_with("box", |_| LoadOutcome::Missing);
    match r {
        Err(Error::RootNotFound { path }) => assert_eq!(path, "/cfg/mrow.toml"),
        other => panic!("unexpected {other:?}"),
    }
}

#[test]
fn unreadable_module_is_reported() {
    let r = assemble_with("box", |p| match p {
        "/cfg/b/d.toml" => LoadOutcome::Unreadable {
            canonical: s("/cfg/b/d.toml"),
            diagnostic: s("expected `=`"),
        },
        other => tree(other),
    });
    match r {
        Err(Error::Unreadable { path, diagnostic }) => {
            assert_eq!(path, "/cfg/b/d.toml");
            assert_eq!(diagnostic, "expected `=`");
        }
        other => panic!("unexpected {other:?}"),
    }
}

#[test]
fn include_cycle_is_an_error() {
    let r = assemble_with("box", |p| match p {
        "/cfg/mrow.toml" => {
            loaded("/cfg/mrow.toml", module(Includes::One(s("a.toml")), vec![command("r")]))
        }
        "/cfg/a.toml" => {
            loaded("/cfg/a.toml", module(Includes::One(s("mrow.toml")), vec![command("a")]))
        }
        _ => LoadOutcome::Missing,
    });
    match r {
        Err(Error::IncludeCycle { referrer, target }) => {
            assert_eq!(referrer, "/cfg/a.toml");
            assert_eq!(target, "/cfg/mrow.toml");
        }
        other => panic!("unexpected {other:?}"),
    }
}

#[test]
fn shared_module_without_cycle_is_walked_twice() {
    let r = assemble_with("box", |p| match p {
        "/cfg/mrow.toml" => loaded(
            "/cfg/mrow.toml",
            module(Includes::Many(vec![s("a.toml"), s("a.toml")]), vec![]),
        ),
        "/cfg/a.toml" => loaded("/cfg/a.toml", module(Includes::Absent, vec![command("a")])),
        _ => LoadOutcome::Missing,
    })
    .unwrap();
    assert_eq!(r.0, vec![s("cmd a @ a.toml"), s("cmd a @ a.toml")]);
}

#[test]
fn module_outside_the_root_is_refused() {
    let r = assemble_with("box", |p| match p {
        "/cfg/mrow.toml" => {
            loaded("/cfg/mrow.toml", module(Includes::One(s("/elsewhere/x.toml")), vec![]))
        }
        "/elsewhere/x.toml" => {
            loaded("/elsewhere/x.toml", module(Includes::Absent, vec![command("x")]))
        }
        _ => LoadOutcome::Missing,
    });
    match r {
        Err(Error::OutsideRoot { path }) => assert_eq!(path, "/elsewhere/x.toml"),
        other => panic!("unexpected {other:?}"),
    }
}

#[test]
fn cycle_through_another_path_is_an_error() {
    let r = assemble_with("box", |p| match p {
        "/cfg/mrow.toml" => {
            loaded("/cfg/mrow.toml", module(Includes::One(s("d/next.toml")), vec![]))
        }
        _ => loaded("/cfg/loop.toml", module(Includes::One(s("next.toml")), vec![command("x")])),
    });
    match r {
        Err(Error::IncludeCycle { referrer, target }) => {
            assert_eq!(referrer, "/cfg/loop.toml");
            assert_eq!(target, "/cfg/loop.toml");
        }
        other => panic!("unexpected {other:?}"),
    }
}

#[test]
fn deep_acyclic_chain_assembles() {
    let r = assemble_with("box", |p| {
        let depth = p.matches("/d").count();
        let includes = if depth < 100 { Includes::One(s("d/m.toml")) } else { Includes::Absent };
        loaded(p, module(includes, vec![command("x")]))
    })
    .unwrap();
    assert_eq!(r.0.len(), 101);
}

#[test]
fn typed_steps_resolve_paths_against_the_module_directory() {
    let table = |pairs: Vec<(&str, Field)>| -> RawStep {
        RawStep::Table(pairs.into_iter().map(|(k, v)| (s(k), v)).collect())
    };
    let text = |x: &str| Field::Item(Item::Str(s(x)));
    let r = assemble_with("box", |p| match p {
        "/cfg/mrow.toml" => loaded(
            "/cfg/mrow.toml",
            module(Includes::One(s("sub/m.toml")), vec![]),
        ),
        "/cfg/sub/m.toml" => loaded(
            "/cfg/sub/m.toml",
            module(
                Includes::Absent,
                vec![
                    table(vec![("kind", text("copy-file")), ("from", text("a.conf")), ("to", text("~/.a.conf"))]),
                    table(vec![
                        ("kind", text("symlink")),
                        ("from", text("/etc/x")),
                        ("to", text("y")),
                        ("delete-existing", Field::Item(Item::Bool(true))),
                    ]),
                    table(vec![("kind", text("run-script")), ("path", text("go.sh"))]),
                    table(vec![
                        ("kind", text("install-packages")),
                        ("packages", Field::List(vec![Item::Str(s("git")), Item::Str(s("vim"))])),
                        ("aur", Field::Item(Item::Bool(true))),
                    ]),
                ],
            ),
        ),
        _ => LoadOutcome::Missing,
    })
    .unwrap();
    assert_eq!(
        r.0,
        vec![
            s("copy /cfg/sub/a.conf /home/u/.a.conf false @ sub/m.toml"),
            s("link /etc/x /cfg/sub/y true @ sub/m.toml"),
            s("script /cfg/sub/go.sh @ sub/m.toml"),
            s("pkgs git|vim true @ sub/m.toml"),
        ]
    );
}

#[test]
fn wrong_field_type_names_the_field() {
    let r = assemble_with("box", |p| match p {
        "/cfg/mrow.toml" => loaded(
            "/cfg/mrow.toml",
            module(
                Includes::Absent,
                vec![RawStep::Table(vec![
                    (s("kind"), Field::Item(Item::Str(s("install-package")))),
                    (s("package"), Field::Item(Item::Str(s("git")))),
                    (s("aur"), Field::Item(Item::Str(s("yes")))),
                ])],
            ),
        ),
        _ => LoadOutcome::Missing,
    });
    assert!(matches!(
        r,
        Err(Error::InvalidStep { index: 0, error: StepError::WrongType { field: FieldName::Aur }, .. })
    ));
}
