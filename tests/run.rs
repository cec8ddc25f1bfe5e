use mrow::{
    bootstrap_invocations, bootstrap_next, check_os_release, install_packages, plan_step,
    run_commands, unhelped_aur_step, AurHelper, BootstrapStage, CommandOutcome, Invocation, Step,
    StepKind,
};

fn s(x: &str) -> String {
    x.to_string()
}

fn argvs(v: &[Invocation]) -> Vec<Vec<String>> {
    v.iter().map(|i| i.argv.clone()).collect()
}

fn step(kind: StepKind) -> Step {
    Step { owner: s("/cfg/mrow.toml"), relative_path_str: s("mrow.toml"), kind }
}

#[test]
fn install_through_pacman_without_helper() {
    assert_eq!(
        install_packages(&vec![s("git"), s("vim")], false, None),
        vec!["sudo", "pacman", "-Sy", "--noconfirm", "--needed", "git", "vim"]
    );
}

#[test]
fn install_through_helpers() {
    assert_eq!(
        install_packages(&vec![s("x")], true, Some(AurHelper::Yay)),
        vec!["yay", "-Sy", "--noconfirm", "--needed", "x"]
    );
    assert_eq!(
        install_packages(&vec![s("x")], true, Some(AurHelper::Paru)),
        vec!["paru", "-Sya", "--noconfirm", "--needed", "x"]
    );
    assert_eq!(
        install_packages(&vec![s("x")], false, Some(AurHelper::Paru)),
        vec!["paru", "-Sy", "--noconfirm", "--needed", "x"]
    );
}

#[test]
fn chained_commands_are_split_and_trimmed() {
    let v = run_commands(&vec![s("cd /tmp  &&  ls -l"), s("echo hi")]);
    assert_eq!(
        argvs(&v),
        vec![vec![s("cd"), s("/tmp")], vec![s("ls"), s("-l")], vec![s("echo"), s("hi")]]
    );
    assert!(v.iter().all(|i| i.dir.is_none()));
}

#[test]
fn aur_step_without_helper_is_found() {
    let steps = vec![
        step(StepKind::RunCommand { command: s("ls") }),
        step(StepKind::InstallPackage { package: s("a"), aur: false }),
        step(StepKind::InstallPackages { packages: vec![s("b")], aur: true }),
        step(StepKind::InstallPackage { package: s("c"), aur: true }),
    ];
    assert_eq!(unhelped_aur_step(&steps, None), Some(2));
    assert_eq!(unhelped_aur_step(&steps, Some(AurHelper::Yay)), None);
}

#[test]
fn no_aur_step_needs_no_helper() {
    let steps = vec![step(StepKind::InstallPackage { package: s("a"), aur: false })];
    assert_eq!(unhelped_aur_step(&steps, None), None);
}

#[test]
fn plan_copy_as_root() {
    let k = StepKind::CopyFile { from: s("/a/x"), to: s("/etc/x"), as_root: true };
    let v = plan_step(&k, None, false).unwrap();
    assert_eq!(argvs(&v), vec![vec![s("sudo"), s("cp"), s("/a/x"), s("/etc/x")]]);
}

#[test]
fn plan_symlink_skips_or_links() {
    let keep = StepKind::Symlink { from: s("/a/x"), to: s("/h/.x"), delete_existing: false };
    assert!(plan_step(&keep, None, true).is_none());
    let v = plan_step(&keep, None, false).unwrap();
    assert_eq!(argvs(&v), vec![vec![s("ln"), s("-s"), s("/a/x"), s("/h/.x")]]);
    let replace = StepKind::Symlink { from: s("/a/x"), to: s("/h/.x"), delete_existing: true };
    let v = plan_step(&replace, None, true).unwrap();
    assert_eq!(
        argvs(&v),
        vec![vec![s("mkdir"), s("-p"), s("/h")], vec![s("ln"), s("-s"), s("/a/x"), s("/h/.x")]]
    );
}

#[test]
fn plan_script_runs_in_its_directory() {
    let v = plan_step(&StepKind::RunScript { path: s("/cfg/s/go.sh") }, None, false).unwrap();
    assert_eq!(argvs(&v), vec![vec![s("sh"), s("/cfg/s/go.sh")]]);
    assert_eq!(v[0].dir, Some(s("/cfg/s")));
}

#[test]
fn plan_aur_package_uses_helper_only_for_aur() {
    let aur = StepKind::InstallPackage { package: s("p"), aur: true };
    let v = plan_step(&aur, Some(AurHelper::Yay), false).unwrap();
    assert_eq!(argvs(&v), vec![vec![s("yay"), s("-Sy"), s("--noconfirm"), s("--needed"), s("p")]]);
    let plain = StepKind::InstallPackage { package: s("p"), aur: false };
    let v = plan_step(&plain, Some(AurHelper::Yay), false).unwrap();
    assert_eq!(argvs(&v)[0][0], "sudo");
}

#[test]
fn bootstrap_transitions() {
    let (check, prereq, clone, build, done) = (
        BootstrapStage::Check,
        BootstrapStage::InstallPrerequisites,
        BootstrapStage::CloneSource,
        BootstrapStage::Build,
        BootstrapStage::Done,
    );
    assert_eq!(bootstrap_next(check, CommandOutcome::Succeeded), Ok(done));
    assert_eq!(bootstrap_next(check, CommandOutcome::Failed), Ok(prereq));
    assert_eq!(bootstrap_next(check, CommandOutcome::NotStarted), Err(check));
    assert_eq!(bootstrap_next(prereq, CommandOutcome::Succeeded), Ok(clone));
    assert_eq!(bootstrap_next(clone, CommandOutcome::Succeeded), Ok(build));
    assert_eq!(bootstrap_next(build, CommandOutcome::Succeeded), Ok(done));
    assert_eq!(bootstrap_next(clone, CommandOutcome::Failed), Err(clone));
}

#[test]
fn bootstrap_commands_for_paru() {
    let v = bootstrap_invocations(BootstrapStage::Check, AurHelper::Paru, "lily");
    assert_eq!(argvs(&v), vec![vec![s("pacman"), s("-Qi"), s("paru-bin")]]);
    let v = bootstrap_invocations(BootstrapStage::CloneSource, AurHelper::Paru, "lily");
    assert_eq!(
        argvs(&v),
        vec![
            vec![s("sudo"), s("git"), s("clone"), s("https://aur.archlinux.org/paru-bin.git"), s("/opt/paru-bin")],
            vec![s("sudo"), s("chown"), s("-R"), s("lily:"), s("/opt/paru-bin")],
        ]
    );
    let v = bootstrap_invocations(BootstrapStage::Build, AurHelper::Yay, "lily");
    assert_eq!(argvs(&v), vec![vec![s("makepkg"), s("-si"), s("--noconfirm")]]);
    assert_eq!(v[0].dir, Some(s("/opt/yay")));
    let v = bootstrap_invocations(BootstrapStage::InstallPrerequisites, AurHelper::Yay, "lily");
    assert_eq!(
        argvs(&v),
        vec![vec![s("sudo"), s("pacman"), s("-Sy"), s("--noconfirm"), s("--needed"), s("base-devel"), s("git")]]
    );
}

#[test]
fn os_release_arch_and_derivatives() {
    assert_eq!(check_os_release("NAME=\"Arch Linux\"\nID=arch\n"), Ok(true));
    assert_eq!(check_os_release("NAME=\"EndeavourOS\"\nID=endeavouros\nID_LIKE=\"Arch\"\n"), Ok(true));
    assert_eq!(check_os_release("NAME=Debian\nID=debian\n"), Ok(false));
}

#[test]
fn os_release_unreadable_line() {
    assert_eq!(check_os_release("ID=debian\nnot a pair\nID_LIKE=arch\n"), Err(1));
}

#[test]
fn os_release_blank_and_comment_lines_are_skipped() {
    assert_eq!(check_os_release("# generated\n\nID=arch\n"), Ok(true));
}

#[test]
fn chained_pieces_trim_unicode_whitespace() {
    let v = run_commands(&vec![s("\u{3000}pacman -Qi yay\t&&\u{a0}ls\n")]);
    assert_eq!(argvs(&v), vec![vec![s("pacman"), s("-Qi"), s("yay")], vec![s("ls")]]);
}
