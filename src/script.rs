//! The decisions of a scripting session: each host call of a module script
//! (a step operation, the helper selection, an inclusion) becomes a change
//! to the session's step log. Running the interpreter is left to the
//! caller, which hands over each call with the interpreter's trace.

use vstd::prelude::*;
use crate::assembly::{Step, StepView, steps_view};
use crate::module::Error;
use crate::paths::{
    collapse, collapse_path, join, join_path, opt_view, parent, parent_dir, resolve, resolve_path,
    strs,
};
use crate::step::{str_eq, AurHelper, StepKind, StepKindView};
use crate::text::{captures, lines_of, lower_of, regex_captures, text_lines, to_lower};

verus! {

/// The step log of one scripting session.
pub struct ScriptSession {
    /// The directory of the root script.
    pub base_dir: String,
    /// The one script being run on its own, when there is one.
    pub exec_single: Option<String>,
    pub home: Option<String>,
    pub steps: Vec<Step>,
    pub aur_helper: Option<AurHelper>,
}

pub struct SessionView {
    pub base_dir: Seq<char>,
    pub exec_single: Option<Seq<char>>,
    pub home: Option<Seq<char>>,
    pub steps: Seq<StepView>,
    pub aur_helper: Option<AurHelper>,
}

impl View for ScriptSession {
    type V = SessionView;

    open spec fn view(&self) -> SessionView {
        SessionView {
            base_dir: self.base_dir@,
            exec_single: opt_view(self.exec_single),
            home: opt_view(self.home),
            steps: steps_view(self.steps@),
            aur_helper: self.aur_helper,
        }
    }
}

/// How a trace line names a script file: a path with a separator, ending
/// in `.luau`, then the line number.
pub open spec fn trace_pattern() -> Seq<char> {
    "^(.+[/|\\\\].+.luau):\\d+[.+]?$"@
}

/// The script file a trace line names, if any.
pub open spec fn trace_file(line: Seq<char>) -> Option<Seq<char>> {
    match regex_captures(trace_pattern(), line) {
        Some(g) => if g.len() > 1 && g[1] is Some {
            Some(g[1]->0)
        } else {
            None
        },
        None => None,
    }
}

/// The first of `files` that is present, searching from position `i`.
pub open spec fn first_present(files: Seq<Option<Seq<char>>>, i: int) -> Option<Seq<char>>
    decreases files.len() - i,
{
    if i < 0 || i >= files.len() {
        None
    } else if files[i] is Some {
        files[i]
    } else {
        first_present(files, i + 1)
    }
}

/// The script that a call is attributed to when the trace names none.
pub open spec fn default_owner(s: SessionView) -> Seq<char> {
    match s.exec_single {
        Some(e) => e,
        None => join(s.base_dir, "mrow.luau"@),
    }
}

/// The script a host call came from: the first script file the trace
/// names (innermost frame first), else the default owner.
pub open spec fn caller_of(s: SessionView, trace: Seq<char>) -> Seq<char> {
    match first_present(lines_of(trace).map_values(|l: Seq<char>| trace_file(l)), 0) {
        Some(p) => p,
        None => default_owner(s),
    }
}

/// A step of `owner` appended to the log; `None` when `owner` does not lie
/// under the base directory.
pub open spec fn with_step(s: SessionView, owner: Seq<char>, k: StepKindView) -> Option<SessionView> {
    match collapse(s.base_dir, owner) {
        Some(display) => Some(
            SessionView { steps: s.steps.push(StepView { owner, display, kind: k }), ..s },
        ),
        None => None,
    }
}

/// A path that a script writes, resolved against the script's directory.
pub open spec fn resolve_in(s: SessionView, owner: Seq<char>, raw: Seq<char>) -> Seq<char> {
    match parent(owner) {
        Some(d) => resolve(raw, d, s.home),
        None => resolve(raw, Seq::empty(), s.home),
    }
}

/// The file that an inclusion by the script `caller` names: a path after
/// `@/` is relative to the base directory, any other to `caller`'s
/// directory.
pub open spec fn require_target(s: SessionView, caller: Seq<char>, rel: Seq<char>) -> Seq<char> {
    if rel.len() >= 2 && rel[0] == '@' && rel[1] == '/' {
        join(s.base_dir, rel.subrange(2, rel.len() as int))
    } else {
        match parent(caller) {
            Some(d) => join(d, rel),
            None => join(Seq::empty(), rel),
        }
    }
}

/// The helper a name selects, in any case of letters.
pub open spec fn helper_named(lowered: Seq<char>) -> Option<AurHelper> {
    if lowered == "yay"@ {
        Some(AurHelper::Yay)
    } else if lowered == "paru"@ {
        Some(AurHelper::Paru)
    } else {
        None
    }
}

/// The helper that the lower-cased name `lowered` selects.
pub fn helper_from_lowered(lowered: &str) -> (r: Option<AurHelper>)
    ensures
        r == helper_named(lowered@),
{
    if str_eq(lowered, "yay") {
        Some(AurHelper::Yay)
    } else if str_eq(lowered, "paru") {
        Some(AurHelper::Paru)
    } else {
        None
    }
}

impl ScriptSession {
    pub fn new(base_dir: String, exec_single: Option<String>, home: Option<String>) -> (r: Self)
        ensures
            r@.base_dir == base_dir@,
            r@.exec_single == opt_view(exec_single),
            r@.home == opt_view(home),
            r@.steps.len() == 0,
            r@.aur_helper is None,
    {
        let r = ScriptSession { base_dir, exec_single, home, steps: Vec::new(), aur_helper: None };
        proof {
            assert(steps_view(r.steps@) =~= Seq::<StepView>::empty());
        }
        r
    }

    /// A session for the scripts under `base_dir`, with the current user's
    /// home directory (whatever the environment gives) for `~/`.
    pub fn start(base_dir: String, exec_single: Option<String>) -> (r: Self)
        ensures
            r@.base_dir == base_dir@,
            r@.exec_single == opt_view(exec_single),
            r@.steps.len() == 0,
            r@.aur_helper is None,
    {
        let home = crate::assembly::home_directory();
        ScriptSession::new(base_dir, exec_single, home)
    }

    /// The script attributed a host call, given for each line of the trace
    /// the script file it names, if any.
    pub fn caller_from_files(&self, files: &Vec<Option<String>>) -> (r: String)
        ensures
            r@ == match first_present(
                files@.map_values(|f: Option<String>| opt_view(f)),
                0,
            ) {
                Some(p) => p,
                None => default_owner(self@),
            },
    {
        let ghost fv = files@.map_values(|f: Option<String>| opt_view(f));
        let mut i: usize = 0;
        while i < files.len()
            invariant
                fv == files@.map_values(|f: Option<String>| opt_view(f)),
                i <= files@.len(),
                first_present(fv, 0) == first_present(fv, i as int),
            decreases files@.len() - i,
        {
            match &files[i] {
                Some(p) => {
                    return p.clone();
                },
                None => {},
            }
            i = i + 1;
        }
        match &self.exec_single {
            Some(e) => e.clone(),
            None => join_path(self.base_dir.as_str(), "mrow.luau"),
        }
    }

    /// The script a host call came from, read from the interpreter's trace.
    pub fn caller_path(&self, trace: &str) -> (r: String)
        ensures
            r@ == caller_of(self@, trace@),
    {
        let lines = text_lines(trace);
        let ghost ls = strs(lines@);
        let mut files: Vec<Option<String>> = Vec::new();
        let mut i: usize = 0;
        while i < lines.len()
            invariant
                ls == strs(lines@),
                i <= lines@.len(),
                files@.map_values(|f: Option<String>| opt_view(f)) == ls.subrange(
                    0,
                    i as int,
                ).map_values(|l: Seq<char>| trace_file(l)),
            decreases lines@.len() - i,
        {
            let pattern = "^(.+[/|\\\\].+.luau):\\d+[.+]?$";
            let f = match captures(pattern, lines[i].as_str()) {
                Some(g) => {
                    if g.len() > 1 {
                        match &g[1] {
                            Some(p) => Some(p.clone()),
                            None => None,
                        }
                    } else {
                        None
                    }
                },
                None => None,
            };
            proof {
                assert(pattern@ == trace_pattern());
                assert(files@.push(f).map_values(|f: Option<String>| opt_view(f)) =~= files@.map_values(
                    |f: Option<String>| opt_view(f),
                ).push(trace_file(ls[i as int])));
                assert(ls.subrange(0, i + 1).map_values(|l: Seq<char>| trace_file(l))
                    =~= ls.subrange(0, i as int).map_values(|l: Seq<char>| trace_file(l)).push(
                    trace_file(ls[i as int]),
                ));
            }
            files.push(f);
            i = i + 1;
        }
        proof {
            assert(ls.subrange(0, lines@.len() as int) =~= ls);
        }
        self.caller_from_files(&files)
    }

    /// Appends a step of the script `owner`.
    pub fn record(&mut self, owner: String, kind: StepKind) -> (r: Result<(), Error>)
        ensures
            match with_step(old(self)@, owner@, kind@) {
                Some(s) => r is Ok && final(self)@ == s,
                None => r == Err::<(), Error>(Error::OutsideRoot { path: owner })
                    && final(self)@ == old(self)@,
            },
    {
        match collapse_path(self.base_dir.as_str(), owner.as_str()) {
            Some(display) => {
                let st = Step { owner, relative_path_str: display, kind };
                proof {
                    assert(steps_view(self.steps@.push(st)) =~= steps_view(self.steps@).push(st@));
                }
                self.steps.push(st);
                Ok(())
            },
            None => Err(Error::OutsideRoot { path: owner }),
        }
    }

    fn resolve_for(&self, owner: &str, raw: &str) -> (r: String)
        ensures
            r@ == resolve_in(self@, owner@, raw@),
    {
        match parent_dir(owner) {
            Some(d) => resolve_path(raw, d.as_str(), &self.home),
            None => {
                proof {
                    reveal_strlit("");
                    assert(""@ =~= Seq::<char>::empty());
                }
                resolve_path(raw, "", &self.home)
            },
        }
    }

    pub fn install_package(&mut self, owner: String, package: String, aur: Option<bool>) -> (r: Result<
        (),
        Error,
    >)
        ensures
            match with_step(
                old(self)@,
                owner@,
                StepKindView::InstallPackage { package: package@, aur: aur == Some(true) },
            ) {
                Some(s) => r is Ok && final(self)@ == s,
                None => r is Err && final(self)@ == old(self)@,
            },
    {
        let aur = match aur {
            Some(b) => b,
            None => false,
        };
        self.record(owner, StepKind::InstallPackage { package, aur })
    }

    pub fn install_packages(&mut self, owner: String, packages: Vec<String>, aur: Option<bool>) -> (r:
        Result<(), Error>)
        ensures
            match with_step(
                old(self)@,
                owner@,
                StepKindView::InstallPackages { packages: strs(packages@), aur: aur == Some(true) },
            ) {
                Some(s) => r is Ok && final(self)@ == s,
                None => r is Err && final(self)@ == old(self)@,
            },
    {
        let aur = match aur {
            Some(b) => b,
            None => false,
        };
        self.record(owner, StepKind::InstallPackages { packages, aur })
    }

    pub fn copy_file(&mut self, owner: String, from: String, to: String, as_root: Option<bool>) -> (r:
        Result<(), Error>)
        ensures
            match with_step(
                old(self)@,
                owner@,
                StepKindView::CopyFile {
                    from: resolve_in(old(self)@, owner@, from@),
                    to: resolve_in(old(self)@, owner@, to@),
                    as_root: as_root == Some(true),
                },
            ) {
                Some(s) => r is Ok && final(self)@ == s,
                None => r is Err && final(self)@ == old(self)@,
            },
    {
        let from = self.resolve_for(owner.as_str(), from.as_str());
        let to = self.resolve_for(owner.as_str(), to.as_str());
        let as_root = match as_root {
            Some(b) => b,
            None => false,
        };
        self.record(owner, StepKind::CopyFile { from, to, as_root })
    }

    pub fn symlink(&mut self, owner: String, from: String, to: String, delete_existing: Option<bool>) -> (r:
        Result<(), Error>)
        ensures
            match with_step(
                old(self)@,
                owner@,
                StepKindView::Symlink {
                    from: resolve_in(old(self)@, owner@, from@),
                    to: resolve_in(old(self)@, owner@, to@),
                    delete_existing: delete_existing == Some(true),
                },
            ) {
                Some(s) => r is Ok && final(self)@ == s,
                None => r is Err && final(self)@ == old(self)@,
            },
    {
        let from = self.resolve_for(owner.as_str(), from.as_str());
        let to = self.resolve_for(owner.as_str(), to.as_str());
        let delete_existing = match delete_existing {
            Some(b) => b,
            None => false,
        };
        self.record(owner, StepKind::Symlink { from, to, delete_existing })
    }

    pub fn run_command(&mut self, owner: String, command: String) -> (r: Result<(), Error>)
        ensures
            match with_step(old(self)@, owner@, StepKindView::RunCommand { command: command@ }) {
                Some(s) => r is Ok && final(self)@ == s,
                None => r is Err && final(self)@ == old(self)@,
            },
    {
        self.record(owner, StepKind::RunCommand { command })
    }

    pub fn run_commands(&mut self, owner: String, commands: Vec<String>) -> (r: Result<(), Error>)
        ensures
            match with_step(
                old(self)@,
                owner@,
                StepKindView::RunCommands { commands: strs(commands@) },
            ) {
                Some(s) => r is Ok && final(self)@ == s,
                None => r is Err && final(self)@ == old(self)@,
            },
    {
        self.record(owner, StepKind::RunCommands { commands })
    }

    pub fn run_script(&mut self, owner: String, path: String) -> (r: Result<(), Error>)
        ensures
            match with_step(
                old(self)@,
                owner@,
                StepKindView::RunScript { path: resolve_in(old(self)@, owner@, path@) },
            ) {
                Some(s) => r is Ok && final(self)@ == s,
                None => r is Err && final(self)@ == old(self)@,
            },
    {
        let path = self.resolve_for(owner.as_str(), path.as_str());
        self.record(owner, StepKind::RunScript { path })
    }

    /// Selects the helper that `name` names, in any case of letters; the
    /// last selection wins. `Err` leaves the session as it was when the
    /// name is no helper's.
    pub fn set_aur_helper(&mut self, name: &str) -> (r: Result<(), ()>)
        ensures
            match helper_named(lower_of(name@)) {
                Some(h) => r is Ok && final(self)@ == SessionView {
                    aur_helper: Some(h),
                    ..old(self)@
                },
                None => r is Err && final(self)@ == old(self)@,
            },
    {
        let lowered = to_lower(name);
        match helper_from_lowered(lowered.as_str()) {
            Some(h) => {
                self.aur_helper = Some(h);
                Ok(())
            },
            None => Err(()),
        }
    }

    /// The file that an inclusion `relative_path` by the script `caller`
    /// names.
    pub fn require_path(&self, caller: &str, relative_path: &str) -> (r: String)
        ensures
            r@ == require_target(self@, caller@, relative_path@),
    {
        let n = relative_path.unicode_len();
        if n >= 2 && relative_path.get_char(0) == '@' && relative_path.get_char(1) == '/' {
            join_path(self.base_dir.as_str(), relative_path.substring_char(2, n))
        } else {
            match parent_dir(caller) {
                Some(d) => join_path(d.as_str(), relative_path),
                None => {
                    proof {
                        reveal_strlit("");
                        assert(""@ =~= Seq::<char>::empty());
                    }
                    join_path("", relative_path)
                },
            }
        }
    }

    /// The steps logged, in call order, and the helper selected last.
    pub fn finish(self) -> (r: (Vec<Step>, Option<AurHelper>))
        ensures
            steps_view(r.0@) == self@.steps,
            r.1 == self@.aur_helper,
    {
        (self.steps, self.aur_helper)
    }
}

} // verus!
