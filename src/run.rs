//! What running the assembled steps takes: the commands each step runs,
//! the check that AUR packages have a helper, the helper's bootstrap, and
//! the platform check. Running the commands is left to the caller.

use vstd::prelude::*;
use crate::assembly::Step;
use crate::paths::{parent, parent_dir, segments, split_on, strs};
use crate::step::{AurHelper, StepKind, StepKindView};
use crate::text::{
    captures, lines_of, lower_of, regex_captures, split_chain, split_chained, text_lines, to_lower,
    trim, trimmed,
};

verus! {

/// One command to run: program and arguments, and the directory to run it
/// in (the current one when `None`).
#[derive(Debug, Clone)]
pub struct Invocation {
    pub argv: Vec<String>,
    pub dir: Option<String>,
}

pub struct InvocationView {
    pub argv: Seq<Seq<char>>,
    pub dir: Option<Seq<char>>,
}

impl View for Invocation {
    type V = InvocationView;

    open spec fn view(&self) -> InvocationView {
        InvocationView {
            argv: strs(self.argv@),
            dir: match self.dir {
                Some(d) => Some(d@),
                None => None,
            },
        }
    }
}

pub open spec fn invocations_view(v: Seq<Invocation>) -> Seq<InvocationView> {
    v.map_values(|i: Invocation| i@)
}

/// The program and arguments of a plain command: its words between single
/// spaces.
pub open spec fn argv_of(command: Seq<char>) -> Seq<Seq<char>> {
    segments(command, ' ')
}

pub fn command_argv(command: &str) -> (r: Vec<String>)
    ensures
        strs(r@) == argv_of(command@),
{
    split_on(command, ' ')
}

/// The commands one command line runs: its pieces between `&&`, each
/// trimmed and split into words.
pub open spec fn chain_invocations(command: Seq<char>) -> Seq<InvocationView> {
    split_chain(command).map_values(
        |p: Seq<char>| InvocationView { argv: argv_of(trimmed(p)), dir: None },
    )
}

/// The commands that the command lines `commands` run, in order.
pub open spec fn commands_invocations(commands: Seq<Seq<char>>) -> Seq<InvocationView>
    decreases commands.len(),
{
    if commands.len() == 0 {
        Seq::empty()
    } else {
        commands_invocations(commands.drop_last()) + chain_invocations(commands.last())
    }
}

/// The commands that the command lines `commands` run, in order.
pub fn run_commands(commands: &Vec<String>) -> (r: Vec<Invocation>)
    ensures
        invocations_view(r@) == commands_invocations(strs(commands@)),
{
    let ghost cs = strs(commands@);
    let mut r: Vec<Invocation> = Vec::new();
    let mut i: usize = 0;
    proof {
        assert(cs.subrange(0, 0) =~= Seq::<Seq<char>>::empty());
        assert(invocations_view(r@) =~= Seq::<InvocationView>::empty());
    }
    while i < commands.len()
        invariant
            cs == strs(commands@),
            i <= commands@.len(),
            invocations_view(r@) == commands_invocations(cs.subrange(0, i as int)),
        decreases commands@.len() - i,
    {
        let pieces = split_chained(commands[i].as_str());
        let ghost before = invocations_view(r@);
        let ghost ps = strs(pieces@);
        let mut j: usize = 0;
        proof {
            assert(cs.subrange(0, i + 1).drop_last() =~= cs.subrange(0, i as int));
            assert(ps.subrange(0, 0).map_values(
                |p: Seq<char>| InvocationView { argv: argv_of(trimmed(p)), dir: None },
            ) =~= Seq::<InvocationView>::empty());
            assert(before + Seq::<InvocationView>::empty() =~= before);
        }
        while j < pieces.len()
            invariant
                ps == strs(pieces@),
                j <= pieces@.len(),
                invocations_view(r@) == before + ps.subrange(0, j as int).map_values(
                    |p: Seq<char>| InvocationView { argv: argv_of(trimmed(p)), dir: None },
                ),
            decreases pieces@.len() - j,
        {
            let t = trim(pieces[j].as_str());
            let inv = Invocation { argv: command_argv(t.as_str()), dir: None };
            proof {
                assert(invocations_view(r@.push(inv)) =~= invocations_view(r@).push(inv@));
                assert(ps.subrange(0, j + 1).map_values(
                    |p: Seq<char>| InvocationView { argv: argv_of(trimmed(p)), dir: None },
                ) =~= ps.subrange(0, j as int).map_values(
                    |p: Seq<char>| InvocationView { argv: argv_of(trimmed(p)), dir: None },
                ).push(InvocationView { argv: argv_of(trimmed(ps[j as int])), dir: None }));
            }
            r.push(inv);
            j = j + 1;
        }
        proof {
            assert(ps.subrange(0, pieces@.len() as int) =~= ps);
            assert(cs.subrange(0, i + 1).last() == commands@[i as int]@);
        }
        i = i + 1;
    }
    proof {
        assert(cs.subrange(0, commands@.len() as int) =~= cs);
    }
    r
}

/// The command that installs `packages`: through the helper when one is
/// given (`-Sya` for paru on AUR packages), else through pacman with sudo;
/// never asking, and skipping what is installed.
pub open spec fn install_argv(packages: Seq<Seq<char>>, aur_flag: bool, aur_helper: Option<AurHelper>) -> Seq<
    Seq<char>,
> {
    let head = match aur_helper {
        Some(AurHelper::Yay) => seq!["yay"@, "-Sy"@],
        Some(AurHelper::Paru) => seq![
            "paru"@,
            if aur_flag {
                "-Sya"@
            } else {
                "-Sy"@
            },
        ],
        None => seq!["sudo"@, "pacman"@, "-Sy"@],
    };
    head + seq!["--noconfirm"@, "--needed"@] + packages
}

fn push_str(v: &mut Vec<String>, s: &str)
    ensures
        strs(final(v)@) == strs(old(v)@).push(s@),
{
    let x = String::from_str(s);
    proof {
        assert(strs(v@.push(x)) =~= strs(v@).push(x@));
    }
    v.push(x);
}

/// The command that installs `packages` (see `install_argv`).
pub fn install_packages(packages: &Vec<String>, aur_flag: bool, aur_helper: Option<AurHelper>) -> (r:
    Vec<String>)
    ensures
        strs(r@) == install_argv(strs(packages@), aur_flag, aur_helper),
{
    let mut r: Vec<String> = Vec::new();
    match aur_helper {
        Some(AurHelper::Yay) => {
            push_str(&mut r, "yay");
            push_str(&mut r, "-Sy");
        },
        Some(AurHelper::Paru) => {
            push_str(&mut r, "paru");
            if aur_flag {
                push_str(&mut r, "-Sya");
            } else {
                push_str(&mut r, "-Sy");
            }
        },
        None => {
            push_str(&mut r, "sudo");
            push_str(&mut r, "pacman");
            push_str(&mut r, "-Sy");
        },
    }
    push_str(&mut r, "--noconfirm");
    push_str(&mut r, "--needed");
    let ghost head = strs(r@);
    let mut i: usize = 0;
    while i < packages.len()
        invariant
            i <= packages@.len(),
            strs(r@) == head + strs(packages@).subrange(0, i as int),
        decreases packages@.len() - i,
    {
        let p = packages[i].clone();
        proof {
            assert(strs(r@.push(p)) =~= strs(r@).push(p@));
            assert(head + strs(packages@).subrange(0, i + 1) =~= (head + strs(packages@).subrange(
                0,
                i as int,
            )).push(p@));
        }
        r.push(p);
        i = i + 1;
    }
    proof {
        assert(strs(packages@).subrange(0, packages@.len() as int) =~= strs(packages@));
        assert(head =~= install_argv(Seq::empty(), aur_flag, aur_helper));
        assert(install_argv(strs(packages@), aur_flag, aur_helper) =~= head + strs(packages@));
    }
    r
}

/// Whether the step installs AUR packages.
pub open spec fn wants_aur(k: StepKindView) -> bool {
    match k {
        StepKindView::InstallPackage { aur, .. } => aur,
        StepKindView::InstallPackages { aur, .. } => aur,
        _ => false,
    }
}

/// The first step that installs AUR packages when no helper is selected;
/// `None` when a helper is selected or no step needs one. Nothing may run
/// when this is `Some`.
pub fn unhelped_aur_step(steps: &Vec<Step>, aur_helper: Option<AurHelper>) -> (r: Option<usize>)
    ensures
        match r {
            Some(i) => {
                &&& aur_helper is None
                &&& i < steps@.len()
                &&& wants_aur(steps@[i as int].kind@)
                &&& forall|j: int| 0 <= j < i ==> !wants_aur(#[trigger] steps@[j].kind@)
            },
            None => aur_helper is Some || forall|j: int|
                0 <= j < steps@.len() ==> !wants_aur(#[trigger] steps@[j].kind@),
        },
{
    if aur_helper.is_some() {
        return None;
    }
    let mut i: usize = 0;
    while i < steps.len()
        invariant
            aur_helper is None,
            i <= steps@.len(),
            forall|j: int| 0 <= j < i ==> !wants_aur(#[trigger] steps@[j].kind@),
        decreases steps@.len() - i,
    {
        let wants = match &steps[i].kind {
            StepKind::InstallPackage { aur, .. } => *aur,
            StepKind::InstallPackages { aur, .. } => *aur,
            _ => false,
        };
        if wants {
            return Some(i);
        }
        i = i + 1;
    }
    None
}

proof fn lemma_single_command(c: Seq<char>)
    ensures
        commands_invocations(seq![c]) == chain_invocations(c),
{
    assert(seq![c].drop_last() =~= Seq::<Seq<char>>::empty());
    assert(commands_invocations(Seq::<Seq<char>>::empty()) == Seq::<InvocationView>::empty());
    assert(seq![c].last() == c);
    assert(Seq::<InvocationView>::empty() + chain_invocations(c) =~= chain_invocations(c));
}

/// The commands that one command line runs.
fn run_command_line(line: String) -> (r: Vec<Invocation>)
    ensures
        invocations_view(r@) == chain_invocations(line@),
{
    let ghost l = line@;
    let mut v: Vec<String> = Vec::new();
    v.push(line);
    proof {
        assert(strs(v@) =~= seq![l]);
        lemma_single_command(l);
    }
    run_commands(&v)
}

/// The commands that running step `k` takes, with `aur_helper` the
/// selected helper and `destination_exists` whether a symlink's
/// destination is already there; `None` when the step is skipped (a
/// symlink whose destination exists and may not be deleted).
pub open spec fn step_plan(k: StepKindView, aur_helper: Option<AurHelper>, destination_exists: bool) -> Option<
    Seq<InvocationView>,
> {
    match k {
        StepKindView::InstallPackage { package, aur } => Some(
            seq![
                InvocationView {
                    argv: install_argv(
                        seq![package],
                        aur,
                        if aur {
                            aur_helper
                        } else {
                            None
                        },
                    ),
                    dir: None,
                },
            ],
        ),
        StepKindView::InstallPackages { packages, aur } => Some(
            seq![
                InvocationView {
                    argv: install_argv(
                        packages,
                        aur,
                        if aur {
                            aur_helper
                        } else {
                            None
                        },
                    ),
                    dir: None,
                },
            ],
        ),
        StepKindView::CopyFile { from, to, as_root } => Some(
            chain_invocations(
                (if as_root {
                    "sudo "@
                } else {
                    Seq::empty()
                }) + "cp "@ + from + " "@ + to,
            ),
        ),
        StepKindView::Symlink { from, to, delete_existing } => if destination_exists
            && !delete_existing {
            None
        } else {
            Some(
                (if destination_exists && parent(to) is Some {
                    chain_invocations("mkdir -p "@ + parent(to)->0)
                } else {
                    Seq::empty()
                }) + chain_invocations("ln -s "@ + from + " "@ + to),
            )
        },
        StepKindView::RunCommand { command } => Some(chain_invocations(command)),
        StepKindView::RunCommands { commands } => Some(commands_invocations(commands)),
        StepKindView::RunScript { path } => Some(
            seq![InvocationView { argv: seq!["sh"@, path], dir: parent(path) }],
        ),
    }
}

/// The commands that running step `k` takes (see `step_plan`).
pub fn plan_step(k: &StepKind, aur_helper: Option<AurHelper>, destination_exists: bool) -> (r: Option<
    Vec<Invocation>,
>)
    ensures
        match r {
            Some(v) => step_plan(k@, aur_helper, destination_exists) == Some(invocations_view(v@)),
            None => step_plan(k@, aur_helper, destination_exists) is None,
        },
{
    match k {
        StepKind::InstallPackage { package, aur } => {
            let mut ps: Vec<String> = Vec::new();
            ps.push(package.clone());
            proof {
                assert(strs(ps@) =~= seq![package@]);
            }
            let helper = if *aur {
                aur_helper
            } else {
                None
            };
            let mut v: Vec<Invocation> = Vec::new();
            v.push(Invocation { argv: install_packages(&ps, *aur, helper), dir: None });
            proof {
                assert(invocations_view(v@) =~= step_plan(k@, aur_helper, destination_exists)->0);
            }
            Some(v)
        },
        StepKind::InstallPackages { packages, aur } => {
            let helper = if *aur {
                aur_helper
            } else {
                None
            };
            let mut v: Vec<Invocation> = Vec::new();
            v.push(Invocation { argv: install_packages(packages, *aur, helper), dir: None });
            proof {
                assert(invocations_view(v@) =~= step_plan(k@, aur_helper, destination_exists)->0);
            }
            Some(v)
        },
        StepKind::CopyFile { from, to, as_root } => {
            let mut line = String::new();
            if *as_root {
                line.append("sudo ");
            }
            line.append("cp ");
            line.append(from.as_str());
            line.append(" ");
            line.append(to.as_str());
            proof {
                if !*as_root {
                    assert(line@ =~= Seq::<char>::empty() + "cp "@ + from@ + " "@ + to@);
                }
            }
            Some(run_command_line(line))
        },
        StepKind::Symlink { from, to, delete_existing } => {
            if destination_exists && !*delete_existing {
                return None;
            }
            let mut v: Vec<Invocation> = Vec::new();
            if destination_exists {
                match parent_dir(to.as_str()) {
                    Some(d) => {
                        let mut line = String::from_str("mkdir -p ");
                        line.append(d.as_str());
                        v = run_command_line(line);
                    },
                    None => {},
                }
            }
            let ghost first = invocations_view(v@);
            let mut line = String::from_str("ln -s ");
            line.append(from.as_str());
            line.append(" ");
            line.append(to.as_str());
            let mut w = run_command_line(line);
            proof {
                assert(invocations_view(v@.add(w@)) =~= invocations_view(v@) + invocations_view(
                    w@,
                ));
                if !(destination_exists && parent(to@) is Some) {
                    assert(first =~= Seq::<InvocationView>::empty());
                }
            }
            v.append(&mut w);
            Some(v)
        },
        StepKind::RunCommand { command } => Some(run_command_line(command.clone())),
        StepKind::RunCommands { commands } => Some(run_commands(commands)),
        StepKind::RunScript { path } => {
            let mut argv: Vec<String> = Vec::new();
            push_str(&mut argv, "sh");
            let p = path.clone();
            proof {
                assert(strs(argv@.push(p)) =~= strs(argv@).push(p@));
            }
            argv.push(p);
            let dir = parent_dir(path.as_str());
            let mut v: Vec<Invocation> = Vec::new();
            v.push(Invocation { argv, dir });
            proof {
                assert(strs(argv@) =~= seq!["sh"@, path@]);
                assert(invocations_view(v@) =~= step_plan(k@, aur_helper, destination_exists)->0);
            }
            Some(v)
        },
    }
}

/// The stages of bringing the selected helper in before any step runs.
#[derive(Debug, Clone, Copy, PartialEq, Eq, Structural)]
pub enum BootstrapStage {
    /// Ask the package manager whether the helper is installed.
    Check,
    /// Install what building the helper takes.
    InstallPrerequisites,
    /// Fetch the helper's sources.
    CloneSource,
    /// Build and install the helper.
    Build,
    Done,
}

/// How the commands of a stage ended.
#[derive(Debug, Clone, Copy, PartialEq, Eq, Structural)]
pub enum CommandOutcome {
    Succeeded,
    /// A command ran and reported failure.
    Failed,
    /// A command could not be started.
    NotStarted,
}

/// The stage after `stage` ended with `outcome`, or `Err` with the stage
/// whose failure ends the run. Only the check may fail without ending it:
/// a helper that is not installed is then bootstrapped.
pub open spec fn next_stage(stage: BootstrapStage, outcome: CommandOutcome) -> Result<
    BootstrapStage,
    BootstrapStage,
> {
    match stage {
        BootstrapStage::Check => match outcome {
            CommandOutcome::Succeeded => Ok(BootstrapStage::Done),
            CommandOutcome::Failed => Ok(BootstrapStage::InstallPrerequisites),
            CommandOutcome::NotStarted => Err(stage),
        },
        BootstrapStage::Done => Ok(BootstrapStage::Done),
        _ => if outcome == CommandOutcome::Succeeded {
            Ok(
                match stage {
                    BootstrapStage::InstallPrerequisites => BootstrapStage::CloneSource,
                    BootstrapStage::CloneSource => BootstrapStage::Build,
                    _ => BootstrapStage::Done,
                },
            )
        } else {
            Err(stage)
        },
    }
}

pub fn bootstrap_next(stage: BootstrapStage, outcome: CommandOutcome) -> (r: Result<
    BootstrapStage,
    BootstrapStage,
>)
    ensures
        r == next_stage(stage, outcome),
{
    match stage {
        BootstrapStage::Check => match outcome {
            CommandOutcome::Succeeded => Ok(BootstrapStage::Done),
            CommandOutcome::Failed => Ok(BootstrapStage::InstallPrerequisites),
            CommandOutcome::NotStarted => Err(stage),
        },
        BootstrapStage::Done => Ok(BootstrapStage::Done),
        BootstrapStage::InstallPrerequisites => match outcome {
            CommandOutcome::Succeeded => Ok(BootstrapStage::CloneSource),
            _ => Err(stage),
        },
        BootstrapStage::CloneSource => match outcome {
            CommandOutcome::Succeeded => Ok(BootstrapStage::Build),
            _ => Err(stage),
        },
        BootstrapStage::Build => match outcome {
            CommandOutcome::Succeeded => Ok(BootstrapStage::Done),
            _ => Err(stage),
        },
    }
}

/// The package the helper is installed as.
pub open spec fn helper_package(h: AurHelper) -> Seq<char> {
    match h {
        AurHelper::Yay => "yay"@,
        AurHelper::Paru => "paru-bin"@,
    }
}

/// Where the helper's sources are fetched to and built.
pub open spec fn helper_dir(h: AurHelper) -> Seq<char> {
    "/opt/"@ + helper_package(h)
}

/// The commands of bootstrap stage `stage` for helper `h`, run by the user
/// named `username`.
pub open spec fn stage_invocations(stage: BootstrapStage, h: AurHelper, username: Seq<char>) -> Seq<
    InvocationView,
> {
    match stage {
        BootstrapStage::Check => chain_invocations("pacman -Qi "@ + helper_package(h)),
        BootstrapStage::InstallPrerequisites => seq![
            InvocationView {
                argv: install_argv(seq!["base-devel"@, "git"@], false, None),
                dir: None,
            },
        ],
        BootstrapStage::CloneSource => commands_invocations(
            seq![
                "sudo git clone https://aur.archlinux.org/"@ + helper_package(h) + ".git "@
                    + helper_dir(h),
                "sudo chown -R "@ + username + ": "@ + helper_dir(h),
            ],
        ),
        BootstrapStage::Build => seq![
            InvocationView {
                argv: seq!["makepkg"@, "-si"@, "--noconfirm"@],
                dir: Some(helper_dir(h)),
            },
        ],
        BootstrapStage::Done => Seq::empty(),
    }
}

fn helper_package_name(h: AurHelper) -> (r: String)
    ensures
        r@ == helper_package(h),
{
    match h {
        AurHelper::Yay => String::from_str("yay"),
        AurHelper::Paru => String::from_str("paru-bin"),
    }
}

fn helper_directory(h: AurHelper) -> (r: String)
    ensures
        r@ == helper_dir(h),
{
    let mut d = String::from_str("/opt/");
    let name = helper_package_name(h);
    d.append(name.as_str());
    d
}

/// The commands of bootstrap stage `stage` (see `stage_invocations`).
pub fn bootstrap_invocations(stage: BootstrapStage, h: AurHelper, username: &str) -> (r: Vec<
    Invocation,
>)
    ensures
        invocations_view(r@) == stage_invocations(stage, h, username@),
{
    let name = helper_package_name(h);
    match stage {
        BootstrapStage::Check => {
            let mut line = String::from_str("pacman -Qi ");
            line.append(name.as_str());
            run_command_line(line)
        },
        BootstrapStage::InstallPrerequisites => {
            let mut ps: Vec<String> = Vec::new();
            push_str(&mut ps, "base-devel");
            push_str(&mut ps, "git");
            let mut v: Vec<Invocation> = Vec::new();
            v.push(Invocation { argv: install_packages(&ps, false, None), dir: None });
            proof {
                assert(strs(ps@) =~= seq!["base-devel"@, "git"@]);
                assert(invocations_view(v@) =~= stage_invocations(stage, h, username@));
            }
            v
        },
        BootstrapStage::CloneSource => {
            let dir = helper_directory(h);
            let mut clone = String::from_str("sudo git clone https://aur.archlinux.org/");
            clone.append(name.as_str());
            clone.append(".git ");
            clone.append(dir.as_str());
            let mut chown = String::from_str("sudo chown -R ");
            chown.append(username);
            chown.append(": ");
            chown.append(dir.as_str());
            let ghost c1 = clone@;
            let ghost c2 = chown@;
            let mut lines: Vec<String> = Vec::new();
            lines.push(clone);
            lines.push(chown);
            proof {
                assert(strs(lines@) =~= seq![c1, c2]);
            }
            run_commands(&lines)
        },
        BootstrapStage::Build => {
            let mut argv: Vec<String> = Vec::new();
            push_str(&mut argv, "makepkg");
            push_str(&mut argv, "-si");
            push_str(&mut argv, "--noconfirm");
            let mut v: Vec<Invocation> = Vec::new();
            v.push(Invocation { argv, dir: Some(helper_directory(h)) });
            proof {
                assert(strs(argv@) =~= seq!["makepkg"@, "-si"@, "--noconfirm"@]);
                assert(invocations_view(v@) =~= stage_invocations(stage, h, username@));
            }
            v
        },
        BootstrapStage::Done => {
            let v: Vec<Invocation> = Vec::new();
            proof {
                assert(invocations_view(v@) =~= Seq::<InvocationView>::empty());
            }
            v
        },
    }
}

/// How a line of the os-release file is read: `KEY=value` or
/// `KEY="value"`.
pub open spec fn release_pattern() -> Seq<char> {
    "(\\w+)=\"?([^\"|^\\n]+)"@
}

/// A blank line or a `#` comment.
pub open spec fn is_blank_or_comment(line: Seq<char>) -> bool {
    line.len() == 0 || line[0] == '#'
}

/// The key and the lower-cased value of an os-release line, or `None` when
/// the line is not of that form. A blank or comment line reads as an entry
/// with empty key and value, which marks nothing.
pub open spec fn release_entry(line: Seq<char>) -> Option<(Seq<char>, Seq<char>)> {
    if is_blank_or_comment(line) {
        Some((Seq::empty(), Seq::empty()))
    } else {
        release_match(line)
    }
}

pub open spec fn release_match(line: Seq<char>) -> Option<(Seq<char>, Seq<char>)> {
    match regex_captures(release_pattern(), line) {
        Some(g) => if g.len() > 2 && g[1] is Some && g[2] is Some {
            Some((g[1]->0, lower_of(g[2]->0)))
        } else {
            None
        },
        None => None,
    }
}

/// Whether entries from line `i` on mark an Arch system (`ID` or `ID_LIKE`
/// is `arch`); `Err` with the first line that could not be read before one
/// does.
pub open spec fn arch_from(entries: Seq<Option<(Seq<char>, Seq<char>)>>, i: int) -> Result<bool, int>
    decreases entries.len() - i,
{
    if i < 0 || i >= entries.len() {
        Ok(false)
    } else {
        match entries[i] {
            None => Err(i),
            Some((k, v)) => if (k == "ID"@ || k == "ID_LIKE"@) && v == "arch"@ {
                Ok(true)
            } else {
                arch_from(entries, i + 1)
            },
        }
    }
}

pub open spec fn entries_view(e: Seq<Option<(String, String)>>) -> Seq<Option<(Seq<char>, Seq<char>)>> {
    e.map_values(
        |x: Option<(String, String)>|
            match x {
                Some((k, v)) => Some((k@, v@)),
                None => None,
            },
    )
}

/// Decides from the read lines of an os-release file (key and lower-cased
/// value, or `None` for a line of no such form) whether the system is
/// Arch or derived from it.
pub fn release_is_arch(entries: &Vec<Option<(String, String)>>) -> (r: Result<bool, usize>)
    ensures
        match r {
            Ok(b) => arch_from(entries_view(entries@), 0) == Ok::<bool, int>(b),
            Err(i) => arch_from(entries_view(entries@), 0) == Err::<bool, int>(i as int),
        },
{
    let ghost ev = entries_view(entries@);
    let mut i: usize = 0;
    while i < entries.len()
        invariant
            ev == entries_view(entries@),
            i <= entries@.len(),
            arch_from(ev, 0) == arch_from(ev, i as int),
        decreases entries@.len() - i,
    {
        match &entries[i] {
            None => {
                return Err(i);
            },
            Some((k, v)) => {
                let id = crate::step::str_eq(k.as_str(), "ID") || crate::step::str_eq(
                    k.as_str(),
                    "ID_LIKE",
                );
                if id && crate::step::str_eq(v.as_str(), "arch") {
                    return Ok(true);
                }
            },
        }
        i = i + 1;
    }
    Ok(false)
}

/// Whether the os-release file `text` marks an Arch system; `Err` with the
/// first line that could not be read before one does.
pub fn check_os_release(text: &str) -> (r: Result<bool, usize>)
    ensures
        match r {
            Ok(b) => arch_from(lines_of(text@).map_values(|l: Seq<char>| release_entry(l)), 0)
                == Ok::<bool, int>(b),
            Err(i) => arch_from(lines_of(text@).map_values(|l: Seq<char>| release_entry(l)), 0)
                == Err::<bool, int>(i as int),
        },
{
    let lines = text_lines(text);
    let ghost ls = strs(lines@);
    let mut entries: Vec<Option<(String, String)>> = Vec::new();
    let mut i: usize = 0;
    while i < lines.len()
        invariant
            ls == strs(lines@),
            i <= lines@.len(),
            entries_view(entries@) == ls.subrange(0, i as int).map_values(
                |l: Seq<char>| release_entry(l),
            ),
        decreases lines@.len() - i,
    {
        let pattern = "(\\w+)=\"?([^\"|^\\n]+)";
        let line = lines[i].as_str();
        let blank = line.unicode_len() == 0 || line.get_char(0) == '#';
        let e = if blank {
            let (k, v) = (String::new(), String::new());
            Some((k, v))
        } else {
            match captures(pattern, line) {
                Some(g) => {
                    if g.len() > 2 {
                        match (&g[1], &g[2]) {
                            (Some(k), Some(v)) => Some((k.clone(), to_lower(v.as_str()))),
                            _ => None,
                        }
                    } else {
                        None
                    }
                },
                None => None,
            }
        };
        proof {
            assert(pattern@ == release_pattern());
            assert(entries_view(entries@.push(e)) =~= entries_view(entries@).push(
                release_entry(ls[i as int]),
            ));
            assert(ls.subrange(0, i + 1).map_values(|l: Seq<char>| release_entry(l))
                =~= ls.subrange(0, i as int).map_values(|l: Seq<char>| release_entry(l)).push(
                release_entry(ls[i as int]),
            ));
        }
        entries.push(e);
        i = i + 1;
    }
    proof {
        assert(ls.subrange(0, lines@.len() as int) =~= ls);
    }
    release_is_arch(&entries)
}

} // verus!
