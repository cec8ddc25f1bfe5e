//! Module files: what one file declares (configuration, includes, steps),
//! and a loaded module with its steps validated.

use vstd::prelude::*;
use crate::paths::{opt_view, strs};
use crate::step::{
    parse_step, step_of, AurHelper, RawStep, RawStepView, StepError, StepErrorView, StepKind,
    StepKindView,
};

verus! {

/// The includes of a module: none, one path, or a list of paths, each
/// relative to the module's directory.
#[derive(Debug, Clone)]
pub enum Includes {
    Absent,
    One(String),
    Many(Vec<String>),
}

impl View for Includes {
    type V = Seq<Seq<char>>;

    /// The included paths in declared order.
    open spec fn view(&self) -> Seq<Seq<char>> {
        match self {
            Includes::Absent => Seq::empty(),
            Includes::One(s) => seq![s@],
            Includes::Many(v) => strs(v@),
        }
    }
}

pub fn copy_strings(v: &Vec<String>) -> (r: Vec<String>)
    ensures
        strs(r@) == strs(v@),
{
    let mut r: Vec<String> = Vec::new();
    let mut i: usize = 0;
    while i < v.len()
        invariant
            i <= v@.len(),
            strs(r@) == strs(v@).subrange(0, i as int),
        decreases v@.len() - i,
    {
        let c = v[i].clone();
        proof {
            assert(strs(r@.push(c)) =~= strs(r@).push(c@));
            assert(strs(v@).subrange(0, i + 1) =~= strs(v@).subrange(0, i as int).push(c@));
        }
        r.push(c);
        i = i + 1;
    }
    proof {
        assert(strs(v@).subrange(0, v@.len() as int) =~= strs(v@));
    }
    r
}

impl Default for Includes {
    fn default() -> (r: Self)
        ensures
            r is Absent,
    {
        Includes::Absent
    }
}

impl Includes {
    /// Whether nothing is included (a single empty path counts as nothing).
    pub fn empty(&self) -> (r: bool)
        ensures
            r == match self {
                Includes::Absent => true,
                Includes::One(s) => s@.len() == 0,
                Includes::Many(v) => v@.len() == 0,
            },
    {
        match self {
            Includes::Absent => true,
            Includes::One(p) => p.as_str().unicode_len() == 0,
            Includes::Many(includes) => includes.len() == 0,
        }
    }

    /// The included paths as a list.
    pub fn paths(&self) -> (r: Vec<String>)
        ensures
            strs(r@) == self@,
    {
        match self {
            Includes::Absent => Vec::new(),
            Includes::One(p) => {
                let mut r = Vec::new();
                r.push(p.clone());
                proof {
                    assert(strs(r@) =~= seq![p@]);
                }
                r
            },
            Includes::Many(includes) => copy_strings(includes),
        }
    }
}

/// Includes that apply only on the host named `hostname`.
#[derive(Debug, Clone)]
pub struct HostInclude {
    pub hostname: String,
    pub includes: Includes,
}

pub struct HostView {
    pub hostname: Seq<char>,
    pub includes: Seq<Seq<char>>,
}

impl View for HostInclude {
    type V = HostView;

    open spec fn view(&self) -> HostView {
        HostView { hostname: self.hostname@, includes: self.includes@ }
    }
}

/// The configuration block; only the root module's is honored.
#[derive(Debug, Clone)]
pub struct ConfigTable {
    pub aur_helper: Option<AurHelper>,
    pub host_includes: Vec<HostInclude>,
}

pub struct ConfigView {
    pub aur_helper: Option<AurHelper>,
    pub host_includes: Seq<HostView>,
}

impl View for ConfigTable {
    type V = ConfigView;

    open spec fn view(&self) -> ConfigView {
        ConfigView {
            aur_helper: self.aur_helper,
            host_includes: self.host_includes@.map_values(|h: HostInclude| h@),
        }
    }
}

pub open spec fn config_view(c: Option<ConfigTable>) -> Option<ConfigView> {
    match c {
        Some(c) => Some(c@),
        None => None,
    }
}

/// The includes of the first entry for `hostname`; none when no entry
/// names it.
pub open spec fn host_includes_for(hosts: Seq<HostView>, hostname: Seq<char>) -> Seq<Seq<char>>
    decreases hosts.len(),
{
    if hosts.len() == 0 {
        Seq::empty()
    } else if hosts[0].hostname == hostname {
        hosts[0].includes
    } else {
        host_includes_for(hosts.drop_first(), hostname)
    }
}

/// Host selection: the first entry that names `hostname` decides; with no
/// entry for it, no host includes apply.
pub proof fn lemma_host_selection(hosts: Seq<HostView>, hostname: Seq<char>, i: int)
    requires
        0 <= i <= hosts.len(),
        forall|j: int| 0 <= j < i ==> (#[trigger] hosts[j]).hostname != hostname,
    ensures
        i < hosts.len() && hosts[i].hostname == hostname ==> host_includes_for(hosts, hostname)
            == hosts[i].includes,
        i == hosts.len() ==> host_includes_for(hosts, hostname) == Seq::<Seq<char>>::empty(),
    decreases i,
{
    if i > 0 {
        let rest = hosts.drop_first();
        assert forall|j: int| 0 <= j < i - 1 implies (#[trigger] rest[j]).hostname != hostname by {
            assert(rest[j] == hosts[j + 1]);
        }
        lemma_host_selection(rest, hostname, i - 1);
        if i < hosts.len() {
            assert(rest[i - 1] == hosts[i]);
        }
    }
}

/// One module file as written, before validation.
#[derive(Debug, Clone)]
pub struct RawMrowFile {
    pub config: Option<ConfigTable>,
    pub includes: Includes,
    pub steps: Vec<RawStep>,
}

pub struct RawFileView {
    pub config: Option<ConfigView>,
    pub includes: Seq<Seq<char>>,
    pub steps: Seq<RawStepView>,
}

impl View for RawMrowFile {
    type V = RawFileView;

    open spec fn view(&self) -> RawFileView {
        RawFileView {
            config: config_view(self.config),
            includes: self.includes@,
            steps: self.steps@.map_values(|s: RawStep| s@),
        }
    }
}

impl RawMrowFile {
    /// A module that declares no step and includes nothing does nothing.
    pub fn is_noop(&self) -> (r: bool)
        ensures
            r == (self.steps@.len() == 0 && match self.includes {
                Includes::Absent => true,
                Includes::One(s) => s@.len() == 0,
                Includes::Many(v) => v@.len() == 0,
            }),
    {
        self.steps.len() == 0 && self.includes.empty()
    }
}

/// Why a module tree could not be assembled.
#[derive(Debug, Clone)]
pub enum Error {
    /// The root module file does not exist.
    RootNotFound { path: String },
    /// A module includes a path where no file exists.
    ImportNotFound { referrer: String, target: String },
    /// A module file could not be read or parsed.
    Unreadable { path: String, diagnostic: String },
    /// A module includes one of the modules it is itself included by.
    IncludeCycle { referrer: String, target: String },
    /// A module path that names no file under the root directory.
    OutsideRoot { path: String },
    /// A declared step was refused; `index` is its position in the module.
    InvalidStep { module: String, index: usize, error: StepError },
    /// Includes nested deeper than the walk follows.
    TooDeep { module: String },
}

pub enum ErrorView {
    RootNotFound { path: Seq<char> },
    ImportNotFound { referrer: Seq<char>, target: Seq<char> },
    Unreadable { path: Seq<char>, diagnostic: Seq<char> },
    IncludeCycle { referrer: Seq<char>, target: Seq<char> },
    OutsideRoot { path: Seq<char> },
    InvalidStep { module: Seq<char>, index: int, error: StepErrorView },
    TooDeep { module: Seq<char> },
}

impl View for Error {
    type V = ErrorView;

    open spec fn view(&self) -> ErrorView {
        match self {
            Error::RootNotFound { path } => ErrorView::RootNotFound { path: path@ },
            Error::ImportNotFound { referrer, target } => ErrorView::ImportNotFound {
                referrer: referrer@,
                target: target@,
            },
            Error::Unreadable { path, diagnostic } => ErrorView::Unreadable {
                path: path@,
                diagnostic: diagnostic@,
            },
            Error::IncludeCycle { referrer, target } => ErrorView::IncludeCycle {
                referrer: referrer@,
                target: target@,
            },
            Error::OutsideRoot { path } => ErrorView::OutsideRoot { path: path@ },
            Error::InvalidStep { module, index, error } => ErrorView::InvalidStep {
                module: module@,
                index: *index as int,
                error: error@,
            },
            Error::TooDeep { module } => ErrorView::TooDeep { module: module@ },
        }
    }
}

pub open spec fn kinds_view(v: Seq<StepKind>) -> Seq<StepKindView> {
    v.map_values(|k: StepKind| k@)
}

/// The steps that `raws` declare in a module whose directory is `dir`, in
/// order, or the first refused one with its position.
pub open spec fn steps_of(raws: Seq<RawStepView>, dir: Seq<char>, home: Option<Seq<char>>) -> Result<
    Seq<StepKindView>,
    (int, StepErrorView),
>
    decreases raws.len(),
{
    if raws.len() == 0 {
        Ok(Seq::empty())
    } else {
        match steps_of(raws.drop_last(), dir, home) {
            Err(e) => Err(e),
            Ok(v) => match step_of(raws.last(), dir, home) {
                Ok(k) => Ok(v.push(k)),
                Err(e) => Err((raws.len() - 1, e)),
            },
        }
    }
}

proof fn lemma_steps_of_prefix_err(
    raws: Seq<RawStepView>,
    dir: Seq<char>,
    home: Option<Seq<char>>,
    j: int,
)
    requires
        0 <= j <= raws.len(),
        steps_of(raws.subrange(0, j), dir, home) is Err,
    ensures
        steps_of(raws, dir, home) == steps_of(raws.subrange(0, j), dir, home),
    decreases raws.len() - j,
{
    if j < raws.len() {
        assert(raws.subrange(0, j + 1).drop_last() =~= raws.subrange(0, j));
        lemma_steps_of_prefix_err(raws, dir, home, j + 1);
    } else {
        assert(raws.subrange(0, j) =~= raws);
    }
}

/// Validates every declared step of a module, in order; the first refused
/// step ends the validation.
pub fn parse_steps(raws: &Vec<RawStep>, dir: &str, home: &Option<String>) -> (r: Result<
    Vec<StepKind>,
    (usize, StepError),
>)
    ensures
        match r {
            Ok(v) => steps_of(raws@.map_values(|s: RawStep| s@), dir@, opt_view(*home)) == Ok::<
                _,
                (int, StepErrorView),
            >(kinds_view(v@)),
            Err((i, e)) => steps_of(raws@.map_values(|s: RawStep| s@), dir@, opt_view(*home))
                == Err::<Seq<StepKindView>, _>((i as int, e@)),
        },
{
    let ghost rv = raws@.map_values(|s: RawStep| s@);
    let ghost hv = opt_view(*home);
    let mut out: Vec<StepKind> = Vec::new();
    let mut i: usize = 0;
    proof {
        assert(rv.subrange(0, 0) =~= Seq::<RawStepView>::empty());
        assert(kinds_view(out@) =~= Seq::<StepKindView>::empty());
    }
    while i < raws.len()
        invariant
            rv == raws@.map_values(|s: RawStep| s@),
            hv == opt_view(*home),
            i <= raws@.len(),
            steps_of(rv.subrange(0, i as int), dir@, hv) == Ok::<_, (int, StepErrorView)>(
                kinds_view(out@),
            ),
        decreases raws@.len() - i,
    {
        proof {
            assert(rv.subrange(0, i + 1).drop_last() =~= rv.subrange(0, i as int));
            assert(rv.subrange(0, i + 1).last() == raws@[i as int]@);
        }
        match parse_step(&raws[i], dir, home) {
            Ok(k) => {
                proof {
                    assert(kinds_view(out@.push(k)) =~= kinds_view(out@).push(k@));
                }
                out.push(k);
            },
            Err(e) => {
                proof {
                    lemma_steps_of_prefix_err(rv, dir@, hv, i + 1);
                }
                return Err((i, e));
            },
        }
        i = i + 1;
    }
    proof {
        assert(rv.subrange(0, raws@.len() as int) =~= rv);
    }
    Ok(out)
}

} // verus!
