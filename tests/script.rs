use mrow::{AurHelper, Error, ScriptSession, StepKind};

fn s(x: &str) -> String {
    x.to_string()
}

fn session() -> ScriptSession {
    ScriptSession::new(s("/cfg"), None, Some(s("/home/u")))
}

#[test]
fn caller_is_first_script_in_trace() {
    let trace = "[string \"src/main.rs:611:9\"]:1\n[string \"x\"]:1 function install_package\n/cfg/modules/term.luau:1\n/cfg/hosts/nya.luau:3\n";
    assert_eq!(session().caller_path(trace), "/cfg/modules/term.luau");
}

#[test]
fn caller_defaults_to_root_script() {
    assert_eq!(session().caller_path("[string \"a\"]:1\n"), "/cfg/mrow.luau");
    let single = ScriptSession::new(s("/cfg"), Some(s("/cfg/one.luau")), None);
    assert_eq!(single.caller_path(""), "/cfg/one.luau");
}

#[test]
fn steps_are_logged_in_call_order_with_owner() {
    let mut sess = session();
    sess.run_command(s("/cfg/a/m.luau"), s("echo 1")).unwrap();
    sess.copy_file(s("/cfg/a/m.luau"), s("f.conf"), s("~/.f"), Some(true)).unwrap();
    sess.install_package(s("/cfg/mrow.luau"), s("git"), None).unwrap();
    sess.run_script(s("/cfg/a/m.luau"), s("go.sh")).unwrap();
    let (steps, helper) = sess.finish();
    assert_eq!(helper, None);
    assert_eq!(steps.len(), 4);
    assert_eq!(steps[0].relative_path_str, "a/m.luau");
    assert!(matches!(&steps[1].kind, StepKind::CopyFile { from, to, as_root: true } if from == "/cfg/a/f.conf" && to == "/home/u/.f"));
    assert!(matches!(&steps[2].kind, StepKind::InstallPackage { aur: false, .. }));
    assert_eq!(steps[2].owner, "/cfg/mrow.luau");
    assert!(matches!(&steps[3].kind, StepKind::RunScript { path } if path == "/cfg/a/go.sh"));
}

#[test]
fn step_of_script_outside_base_is_refused() {
    let mut sess = session();
    let r = sess.symlink(s("/other/x.luau"), s("a"), s("b"), None);
    assert!(matches!(r, Err(Error::OutsideRoot { .. })));
    assert_eq!(sess.finish().0.len(), 0);
}

#[test]
fn helper_selection_ignores_case_and_last_wins() {
    let mut sess = session();
    assert_eq!(sess.set_aur_helper("YAY"), Ok(()));
    assert_eq!(sess.set_aur_helper("Paru"), Ok(()));
    assert_eq!(sess.set_aur_helper("pamac"), Err(()));
    assert_eq!(sess.finish().1, Some(AurHelper::Paru));
}

#[test]
fn require_paths() {
    let sess = session();
    assert_eq!(sess.require_path("/cfg/hosts/nya.luau", "@/modules/term.luau"), "/cfg/modules/term.luau");
    assert_eq!(sess.require_path("/cfg/hosts/nya.luau", "../lib.luau"), "/cfg/hosts/../lib.luau");
}

#[test]
fn packages_and_commands_lists() {
    let mut sess = session();
    sess.install_packages(s("/cfg/mrow.luau"), vec![s("a"), s("b")], Some(true)).unwrap();
    sess.run_commands(s("/cfg/mrow.luau"), vec![s("x"), s("y")]).unwrap();
    let (steps, _) = sess.finish();
    assert!(matches!(&steps[0].kind, StepKind::InstallPackages { packages, aur: true } if packages.len() == 2));
    assert!(matches!(&steps[1].kind, StepKind::RunCommands { commands } if commands == &vec![s("x"), s("y")]));
}
