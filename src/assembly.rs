//! The include-graph walk: from a root module to the complete, ordered list
//! of steps of the whole module tree. Reading module files is left to a
//! loader that the caller supplies.

use vstd::prelude::*;
use crate::module::{
    config_view, host_includes_for, kinds_view, steps_of, ConfigTable, ConfigView, Error,
    ErrorView, Includes, RawFileView, RawMrowFile, copy_strings, parse_steps,
};
use crate::paths::{collapse, collapse_path, join, join_path, opt_view, parent, parent_dir, strs};
use crate::step::{str_eq, view_result, AurHelper, StepKind, StepKindView};

verus! {

/// How far includes are followed below the root module: further than any
/// tree of files reaches; the cycle check is what ends a walk.
pub const MAX_INCLUDE_DEPTH: u64 = 0xffff_ffff_ffff_ffff;

/// One step of the assembled list, with the module that declared it: its
/// canonical path (`owner`) and its path relative to the root directory.
#[derive(Debug, Clone)]
pub struct Step {
    pub owner: String,
    pub relative_path_str: String,
    pub kind: StepKind,
}

pub struct StepView {
    pub owner: Seq<char>,
    pub display: Seq<char>,
    pub kind: StepKindView,
}

impl View for Step {
    type V = StepView;

    open spec fn view(&self) -> StepView {
        StepView { owner: self.owner@, display: self.relative_path_str@, kind: self.kind@ }
    }
}

pub open spec fn steps_view(v: Seq<Step>) -> Seq<StepView> {
    v.map_values(|s: Step| s@)
}

/// What the loader found at a path.
#[derive(Debug)]
pub enum LoadOutcome {
    /// No file exists there.
    Missing,
    /// The file exists but could not be read or parsed.
    Unreadable { canonical: String, diagnostic: String },
    /// The file, under its canonical path.
    Loaded { canonical: String, file: RawMrowFile },
}

pub enum LoadView {
    Missing,
    Unreadable { canonical: Seq<char>, diagnostic: Seq<char> },
    Loaded { canonical: Seq<char>, file: RawFileView },
}

impl View for LoadOutcome {
    type V = LoadView;

    open spec fn view(&self) -> LoadView {
        match self {
            LoadOutcome::Missing => LoadView::Missing,
            LoadOutcome::Unreadable { canonical, diagnostic } => LoadView::Unreadable {
                canonical: canonical@,
                diagnostic: diagnostic@,
            },
            LoadOutcome::Loaded { canonical, file } => LoadView::Loaded {
                canonical: canonical@,
                file: file@,
            },
        }
    }
}

/// A loaded module with its steps validated.
#[derive(Debug, Clone)]
pub struct MrowFile {
    /// The directory the module was found in, as reached from the root.
    pub dir: String,
    /// The canonical path of the module file.
    pub path: String,
    /// The module's path relative to the root directory.
    pub relative_path_str: String,
    pub config: Option<ConfigTable>,
    pub includes: Includes,
    pub steps: Vec<StepKind>,
}

pub struct ModuleView {
    pub dir: Seq<char>,
    pub path: Seq<char>,
    pub display: Seq<char>,
    pub config: Option<ConfigView>,
    pub includes: Seq<Seq<char>>,
    pub steps: Seq<StepKindView>,
}

impl View for MrowFile {
    type V = ModuleView;

    open spec fn view(&self) -> ModuleView {
        ModuleView {
            dir: self.dir@,
            path: self.path@,
            display: self.relative_path_str@,
            config: config_view(self.config),
            includes: self.includes@,
            steps: kinds_view(self.steps@),
        }
    }
}

/// The module that the file `file`, found at `path` (canonically
/// `canonical`), makes; its configuration is kept only when it is the root.
pub open spec fn new_module(
    root_dir: Seq<char>,
    path: Seq<char>,
    canonical: Seq<char>,
    file: RawFileView,
    is_root: bool,
    home: Option<Seq<char>>,
) -> Result<ModuleView, ErrorView> {
    match collapse(root_dir, path) {
        None => Err(ErrorView::OutsideRoot { path }),
        Some(display) => match parent(path) {
            None => Err(ErrorView::OutsideRoot { path }),
            Some(dir) => match steps_of(file.steps, dir, home) {
                Err((index, error)) => Err(
                    ErrorView::InvalidStep { module: canonical, index, error },
                ),
                Ok(steps) => Ok(
                    ModuleView {
                        dir,
                        path: canonical,
                        display,
                        config: if is_root {
                            file.config
                        } else {
                            None
                        },
                        includes: file.includes,
                        steps,
                    },
                ),
            },
        },
    }
}

impl MrowFile {
    /// Validates the module file `raw`, found at `path` under the root
    /// directory `root_dir` and canonically at `canonical`.
    pub fn new(
        root_dir: &str,
        path: &str,
        canonical: String,
        raw: RawMrowFile,
        is_root: bool,
        home: &Option<String>,
    ) -> (r: Result<MrowFile, Error>)
        ensures
            view_result(r) == new_module(root_dir@, path@, canonical@, raw@, is_root, opt_view(*home)),
    {
        let relative_path = match collapse_path(root_dir, path) {
            Some(p) => p,
            None => {
                return Err(Error::OutsideRoot { path: String::from_str(path) });
            },
        };
        let dir = match parent_dir(path) {
            Some(d) => d,
            None => {
                return Err(Error::OutsideRoot { path: String::from_str(path) });
            },
        };
        let steps = match parse_steps(&raw.steps, dir.as_str(), home) {
            Ok(v) => v,
            Err((index, error)) => {
                return Err(Error::InvalidStep { module: canonical, index, error });
            },
        };
        let config = if is_root {
            raw.config
        } else {
            None
        };
        Ok(
            MrowFile {
                dir,
                path: canonical,
                relative_path_str: relative_path,
                config,
                includes: raw.includes,
                steps,
            },
        )
    }
}

/// A loader answers like the table `g`: whatever it returns for a path is
/// what `g` gives for that path.
pub open spec fn answers<F: Fn(&str) -> LoadOutcome>(load: F, g: spec_fn(Seq<char>) -> LoadView) -> bool {
    forall|p: &str, o: LoadOutcome| #[trigger] load.ensures((p,), o) ==> o@ == g(p@)
}

/// The module found at `path`, included by `referrer` below the chain of
/// modules `chain`.
pub open spec fn load_module(
    o: LoadView,
    path: Seq<char>,
    referrer: Seq<char>,
    chain: Seq<Seq<char>>,
    root_dir: Seq<char>,
    home: Option<Seq<char>>,
    is_root: bool,
) -> Result<ModuleView, ErrorView> {
    match o {
        LoadView::Missing => Err(ErrorView::ImportNotFound { referrer, target: path }),
        LoadView::Unreadable { canonical, diagnostic } => Err(
            ErrorView::Unreadable { path: canonical, diagnostic },
        ),
        LoadView::Loaded { canonical, file } => if chain.contains(canonical) {
            Err(ErrorView::IncludeCycle { referrer, target: canonical })
        } else {
            new_module(root_dir, path, canonical, file, is_root, home)
        },
    }
}

/// The modules that `incs` name, relative to the directory of `m`, loaded
/// in order; the first that fails ends the list.
pub open spec fn gather(
    g: spec_fn(Seq<char>) -> LoadView,
    root_dir: Seq<char>,
    home: Option<Seq<char>>,
    m: ModuleView,
    incs: Seq<Seq<char>>,
    chain: Seq<Seq<char>>,
) -> Result<Seq<ModuleView>, ErrorView>
    decreases incs.len(),
{
    if incs.len() == 0 {
        Ok(Seq::empty())
    } else {
        match gather(g, root_dir, home, m, incs.drop_last(), chain) {
            Err(e) => Err(e),
            Ok(ms) => {
                let path = join(m.dir, incs.last());
                match load_module(g(path), path, m.path, chain, root_dir, home, false) {
                    Ok(c) => Ok(ms.push(c)),
                    Err(e) => Err(e),
                }
            },
        }
    }
}

/// The steps `m` declares, attributed to `m`.
pub open spec fn own_steps(m: ModuleView) -> Seq<StepView> {
    m.steps.map_values(|k: StepKindView| StepView { owner: m.path, display: m.display, kind: k })
}

/// All steps of the tree below `m`: its own steps, then those of each
/// module it includes (`host` first, then its own includes), in order.
/// `chain` holds the canonical paths of the modules above `m`.
pub open spec fn all_steps(
    g: spec_fn(Seq<char>) -> LoadView,
    root_dir: Seq<char>,
    home: Option<Seq<char>>,
    m: ModuleView,
    host: Seq<Seq<char>>,
    chain: Seq<Seq<char>>,
    fuel: nat,
) -> Result<Seq<StepView>, ErrorView>
    decreases fuel, 0nat,
{
    let incs = host + m.includes;
    if incs.len() == 0 {
        Ok(own_steps(m))
    } else if fuel == 0 {
        Err(ErrorView::TooDeep { module: m.path })
    } else {
        match gather(g, root_dir, home, m, incs, chain.push(m.path)) {
            Err(e) => Err(e),
            Ok(children) => match children_steps(
                g,
                root_dir,
                home,
                children,
                chain.push(m.path),
                (fuel - 1) as nat,
            ) {
                Err(e) => Err(e),
                Ok(s) => Ok(own_steps(m) + s),
            },
        }
    }
}

/// The steps of the trees below `children`, one after the other.
pub open spec fn children_steps(
    g: spec_fn(Seq<char>) -> LoadView,
    root_dir: Seq<char>,
    home: Option<Seq<char>>,
    children: Seq<ModuleView>,
    chain: Seq<Seq<char>>,
    fuel: nat,
) -> Result<Seq<StepView>, ErrorView>
    decreases fuel, children.len() + 1,
{
    if children.len() == 0 {
        Ok(Seq::empty())
    } else {
        match children_steps(g, root_dir, home, children.drop_last(), chain, fuel) {
            Err(e) => Err(e),
            Ok(a) => match all_steps(g, root_dir, home, children.last(), Seq::empty(), chain, fuel) {
                Err(e) => Err(e),
                Ok(b) => Ok(a + b),
            },
        }
    }
}

fn contains_string(v: &Vec<String>, s: &String) -> (r: bool)
    ensures
        r == strs(v@).contains(s@),
{
    let mut i: usize = 0;
    while i < v.len()
        invariant
            i <= v@.len(),
            forall|j: int| 0 <= j < i ==> v@[j]@ != s@,
        decreases v@.len() - i,
    {
        if v[i] == *s {
            proof {
                assert(strs(v@)[i as int] == s@);
            }
            return true;
        }
        i = i + 1;
    }
    proof {
        if strs(v@).contains(s@) {
            let j = choose|j: int| 0 <= j < strs(v@).len() && strs(v@)[j] == s@;
            assert(v@[j]@ == s@);
        }
    }
    false
}

/// Loads the module at `path` through `load` and validates it.
fn load_module_exec<F: Fn(&str) -> LoadOutcome>(
    load: &F,
    root_dir: &str,
    home: &Option<String>,
    path: &str,
    referrer: &String,
    chain: &Vec<String>,
    is_root: bool,
) -> (r: Result<MrowFile, Error>)
    requires
        forall|p: &str| load.requires((p,)),
    ensures
        forall|g: spec_fn(Seq<char>) -> LoadView| #[trigger]
            answers(*load, g) ==> view_result(r) == load_module(
                g(path@),
                path@,
                referrer@,
                strs(chain@),
                root_dir@,
                opt_view(*home),
                is_root,
            ),
{
    let o = load(path);
    let ghost ov = o@;
    assert forall|g: spec_fn(Seq<char>) -> LoadView| #[trigger] answers(*load, g) implies g(
        path@,
    ) == ov by {
        assert(load.ensures((path,), o));
    }
    match o {
        LoadOutcome::Missing => Err(
            Error::ImportNotFound { referrer: referrer.clone(), target: String::from_str(path) },
        ),
        LoadOutcome::Unreadable { canonical, diagnostic } => Err(
            Error::Unreadable { path: canonical, diagnostic },
        ),
        LoadOutcome::Loaded { canonical, file } => {
            if contains_string(chain, &canonical) {
                Err(Error::IncludeCycle { referrer: referrer.clone(), target: canonical })
            } else {
                MrowFile::new(root_dir, path, canonical, file, is_root, home)
            }
        },
    }
}

pub open spec fn modules_view(v: Seq<MrowFile>) -> Seq<ModuleView> {
    v.map_values(|m: MrowFile| m@)
}

proof fn lemma_gather_prefix_err(
    g: spec_fn(Seq<char>) -> LoadView,
    root_dir: Seq<char>,
    home: Option<Seq<char>>,
    m: ModuleView,
    incs: Seq<Seq<char>>,
    chain: Seq<Seq<char>>,
    j: int,
)
    requires
        0 <= j <= incs.len(),
        gather(g, root_dir, home, m, incs.subrange(0, j), chain) is Err,
    ensures
        gather(g, root_dir, home, m, incs, chain) == gather(
            g,
            root_dir,
            home,
            m,
            incs.subrange(0, j),
            chain,
        ),
    decreases incs.len() - j,
{
    if j < incs.len() {
        assert(incs.subrange(0, j + 1).drop_last() =~= incs.subrange(0, j));
        lemma_gather_prefix_err(g, root_dir, home, m, incs, chain, j + 1);
    } else {
        assert(incs.subrange(0, j) =~= incs);
    }
}

/// Loads, in order, the modules that `includes` name relative to the
/// directory of `file`; `chain` holds the canonical paths of `file` and the
/// modules above it.
pub fn gather_includes<F: Fn(&str) -> LoadOutcome>(
    load: &F,
    root_dir: &str,
    home: &Option<String>,
    file: &MrowFile,
    includes: &Vec<String>,
    chain: &Vec<String>,
) -> (r: Result<Vec<MrowFile>, Error>)
    requires
        forall|p: &str| load.requires((p,)),
    ensures
        forall|g: spec_fn(Seq<char>) -> LoadView| #[trigger]
            answers(*load, g) ==> match r {
                Ok(v) => gather(g, root_dir@, opt_view(*home), file@, strs(includes@), strs(chain@))
                    == Ok::<_, ErrorView>(modules_view(v@)),
                Err(e) => gather(
                    g,
                    root_dir@,
                    opt_view(*home),
                    file@,
                    strs(includes@),
                    strs(chain@),
                ) == Err::<Seq<ModuleView>, _>(e@),
            },
{
    let ghost incs = strs(includes@);
    let ghost hv = opt_view(*home);
    let mut out: Vec<MrowFile> = Vec::new();
    let mut i: usize = 0;
    proof {
        assert(incs.subrange(0, 0) =~= Seq::<Seq<char>>::empty());
        assert(modules_view(out@) =~= Seq::<ModuleView>::empty());
    }
    while i < includes.len()
        invariant
            forall|p: &str| load.requires((p,)),
            incs == strs(includes@),
            hv == opt_view(*home),
            i <= includes@.len(),
            forall|g: spec_fn(Seq<char>) -> LoadView| #[trigger]
                answers(*load, g) ==> gather(
                    g,
                    root_dir@,
                    hv,
                    file@,
                    incs.subrange(0, i as int),
                    strs(chain@),
                ) == Ok::<_, ErrorView>(modules_view(out@)),
        decreases includes@.len() - i,
    {
        let path = join_path(file.dir.as_str(), includes[i].as_str());
        proof {
            assert(incs.subrange(0, i + 1).drop_last() =~= incs.subrange(0, i as int));
            assert(incs.subrange(0, i + 1).last() == includes@[i as int]@);
        }
        match load_module_exec(load, root_dir, home, path.as_str(), &file.path, chain, false) {
            Ok(c) => {
                proof {
                    assert(modules_view(out@.push(c)) =~= modules_view(out@).push(c@));
                }
                out.push(c);
            },
            Err(e) => {
                proof {
                    assert forall|g: spec_fn(Seq<char>) -> LoadView| #[trigger]
                        answers(*load, g) implies gather(
                        g,
                        root_dir@,
                        hv,
                        file@,
                        incs,
                        strs(chain@),
                    ) == Err::<Seq<ModuleView>, _>(e@) by {
                        lemma_gather_prefix_err(
                            g,
                            root_dir@,
                            hv,
                            file@,
                            incs,
                            strs(chain@),
                            i + 1,
                        );
                    }
                }
                return Err(e);
            },
        }
        i = i + 1;
    }
    proof {
        assert(incs.subrange(0, includes@.len() as int) =~= incs);
    }
    Ok(out)
}

proof fn lemma_children_prefix_err(
    g: spec_fn(Seq<char>) -> LoadView,
    root_dir: Seq<char>,
    home: Option<Seq<char>>,
    children: Seq<ModuleView>,
    chain: Seq<Seq<char>>,
    fuel: nat,
    j: int,
)
    requires
        0 <= j <= children.len(),
        children_steps(g, root_dir, home, children.subrange(0, j), chain, fuel) is Err,
    ensures
        children_steps(g, root_dir, home, children, chain, fuel) == children_steps(
            g,
            root_dir,
            home,
            children.subrange(0, j),
            chain,
            fuel,
        ),
    decreases children.len() - j,
{
    if j < children.len() {
        assert(children.subrange(0, j + 1).drop_last() =~= children.subrange(0, j));
        lemma_children_prefix_err(g, root_dir, home, children, chain, fuel, j + 1);
    } else {
        assert(children.subrange(0, j) =~= children);
    }
}

/// The steps `base` declares, attributed to it.
fn module_own_steps(base: &MrowFile) -> (r: Vec<Step>)
    ensures
        steps_view(r@) == own_steps(base@),
{
    let mut r: Vec<Step> = Vec::new();
    let mut i: usize = 0;
    while i < base.steps.len()
        invariant
            i <= base.steps@.len(),
            steps_view(r@) == own_steps(base@).subrange(0, i as int),
        decreases base.steps@.len() - i,
    {
        let st = Step {
            owner: base.path.clone(),
            relative_path_str: base.relative_path_str.clone(),
            kind: base.steps[i].duplicate(),
        };
        proof {
            assert(st@ == own_steps(base@)[i as int]);
            assert(steps_view(r@.push(st)) =~= steps_view(r@).push(st@));
            assert(own_steps(base@).subrange(0, i + 1) =~= own_steps(base@).subrange(
                0,
                i as int,
            ).push(own_steps(base@)[i as int]));
        }
        r.push(st);
        i = i + 1;
    }
    proof {
        assert(own_steps(base@).subrange(0, base.steps@.len() as int) =~= own_steps(base@));
    }
    r
}

/// All steps of the tree below `base`: its own steps, then those of the
/// modules `host_includes` names, then those of its own includes, each
/// tree in declared order. `chain` holds the canonical paths of the
/// modules above `base`; `fuel` is how much deeper includes are followed.
#[verifier::loop_isolation(false)]
pub fn get_all_steps<F: Fn(&str) -> LoadOutcome>(
    load: &F,
    root_dir: &str,
    home: &Option<String>,
    base: &MrowFile,
    host_includes: &Vec<String>,
    chain: &mut Vec<String>,
    fuel: u64,
) -> (r: Result<Vec<Step>, Error>)
    requires
        forall|p: &str| load.requires((p,)),
    ensures
        strs(final(chain)@) == strs(old(chain)@),
        forall|g: spec_fn(Seq<char>) -> LoadView| #[trigger]
            answers(*load, g) ==> match r {
                Ok(v) => all_steps(
                    g,
                    root_dir@,
                    opt_view(*home),
                    base@,
                    strs(host_includes@),
                    strs(old(chain)@),
                    fuel as nat,
                ) == Ok::<_, ErrorView>(steps_view(v@)),
                Err(e) => all_steps(
                    g,
                    root_dir@,
                    opt_view(*home),
                    base@,
                    strs(host_includes@),
                    strs(old(chain)@),
                    fuel as nat,
                ) == Err::<Seq<StepView>, _>(e@),
            },
    decreases fuel,
{
    let ghost hv = opt_view(*home);
    let ghost chain0 = strs(chain@);
    let mut incs = copy_strings(host_includes);
    let mut own_incs = base.includes.paths();
    proof {
        assert(strs(incs@.add(own_incs@)) =~= strs(incs@) + strs(own_incs@));
    }
    incs.append(&mut own_incs);
    let steps = module_own_steps(base);
    if incs.len() == 0 {
        return Ok(steps);
    }
    if fuel == 0 {
        return Err(Error::TooDeep { module: base.path.clone() });
    }
    chain.push(base.path.clone());
    proof {
        assert(strs(chain@) =~= chain0.push(base@.path));
    }
    let ghost chain1 = strs(chain@);
    let children = match gather_includes(load, root_dir, home, base, &incs, chain) {
        Ok(c) => c,
        Err(e) => {
            let ghost before = chain@;
            chain.pop();
            proof {
                assert(strs(before.drop_last()) =~= strs(before).drop_last());
                assert(strs(chain@) =~= chain0);
            }
            return Err(e);
        },
    };
    let ghost cv = modules_view(children@);
    let mut acc: Vec<Step> = Vec::new();
    let mut i: usize = 0;
    proof {
        assert(cv.subrange(0, 0) =~= Seq::<ModuleView>::empty());
        assert(steps_view(acc@) =~= Seq::<StepView>::empty());
    }
    while i < children.len()
        invariant
            forall|p: &str| load.requires((p,)),
            0 < fuel,
            hv == opt_view(*home),
            cv == modules_view(children@),
            strs(chain@) == chain1,
            chain1 == chain0.push(base@.path),
            i <= children@.len(),
            forall|g: spec_fn(Seq<char>) -> LoadView| #[trigger]
                answers(*load, g) ==> children_steps(
                    g,
                    root_dir@,
                    hv,
                    cv.subrange(0, i as int),
                    chain1,
                    (fuel - 1) as nat,
                ) == Ok::<_, ErrorView>(steps_view(acc@)),
        decreases children@.len() - i,
    {
        let no_hosts: Vec<String> = Vec::new();
        proof {
            assert(strs(no_hosts@) =~= Seq::<Seq<char>>::empty());
            assert(cv.subrange(0, i + 1).drop_last() =~= cv.subrange(0, i as int));
            assert(cv.subrange(0, i + 1).last() == children@[i as int]@);
        }
        let mut sub = match get_all_steps(
            load,
            root_dir,
            home,
            &children[i],
            &no_hosts,
            chain,
            fuel - 1,
        ) {
            Ok(s) => s,
            Err(e) => {
                proof {
                    assert forall|g: spec_fn(Seq<char>) -> LoadView| #[trigger]
                        answers(*load, g) implies children_steps(
                        g,
                        root_dir@,
                        hv,
                        cv,
                        chain1,
                        (fuel - 1) as nat,
                    ) == Err::<Seq<StepView>, _>(e@) by {
                        lemma_children_prefix_err(
                            g,
                            root_dir@,
                            hv,
                            cv,
                            chain1,
                            (fuel - 1) as nat,
                            i + 1,
                        );
                    }
                }
                let ghost before = chain@;
                chain.pop();
                proof {
                    assert(strs(before.drop_last()) =~= strs(before).drop_last());
                    assert(strs(chain@) =~= chain0);
                }
                return Err(e);
            },
        };
        proof {
            assert(steps_view(acc@.add(sub@)) =~= steps_view(acc@) + steps_view(sub@));
        }
        acc.append(&mut sub);
        i = i + 1;
    }
    proof {
        assert(cv.subrange(0, children@.len() as int) =~= cv);
    }
    let ghost before = chain@;
    chain.pop();
    proof {
        assert(strs(before.drop_last()) =~= strs(before).drop_last());
        assert(strs(chain@) =~= chain0);
    }
    let mut all = steps;
    proof {
        assert(steps_view(all@.add(acc@)) =~= steps_view(all@) + steps_view(acc@));
    }
    all.append(&mut acc);
    Ok(all)
}

/// The includes configured for `hostname`, or none.
fn select_host_includes(config: &Option<ConfigTable>, hostname: &str) -> (r: Vec<String>)
    ensures
        strs(r@) == match config_view(*config) {
            Some(c) => host_includes_for(c.host_includes, hostname@),
            None => Seq::empty(),
        },
{
    match config {
        None => {
            let r = Vec::new();
            proof {
                assert(strs(r@) =~= Seq::<Seq<char>>::empty());
            }
            r
        },
        Some(c) => {
            let ghost hosts = c@.host_includes;
            let mut i: usize = 0;
            proof {
                assert(hosts.subrange(0, hosts.len() as int) =~= hosts);
            }
            while i < c.host_includes.len()
                invariant
                    hosts == c@.host_includes,
                    config_view(*config) == Some(c@),
                    i <= c.host_includes@.len(),
                    host_includes_for(hosts, hostname@) == host_includes_for(
                        hosts.subrange(i as int, hosts.len() as int),
                        hostname@,
                    ),
                decreases c.host_includes@.len() - i,
            {
                let ghost rest = hosts.subrange(i as int, hosts.len() as int);
                proof {
                    assert(rest.drop_first() =~= hosts.subrange(i + 1, hosts.len() as int));
                }
                if str_eq(c.host_includes[i].hostname.as_str(), hostname) {
                    proof {
                        assert(rest[0] == c.host_includes@[i as int]@);
                        assert(rest.len() > 0);
                        assert(host_includes_for(rest, hostname@) == rest[0].includes);
                        assert(config_view(*config) == Some(c@));
                    }
                    return c.host_includes[i].includes.paths();
                }
                i = i + 1;
            }
            let r = Vec::new();
            proof {
                assert(strs(r@) =~= Seq::<Seq<char>>::empty());
            }
            r
        },
    }
}

/// The whole tree of the root module `root_file` under the directory
/// `base_dir`, on the host named `hostname`: its steps in order, and the
/// helper that the root module selects.
pub open spec fn assemble(
    g: spec_fn(Seq<char>) -> LoadView,
    base_dir: Seq<char>,
    root_file: Seq<char>,
    hostname: Seq<char>,
    home: Option<Seq<char>>,
) -> Result<(Seq<StepView>, Option<AurHelper>), ErrorView> {
    match g(root_file) {
        LoadView::Missing => Err(ErrorView::RootNotFound { path: root_file }),
        o => match load_module(o, root_file, root_file, Seq::empty(), base_dir, home, true) {
            Err(e) => Err(e),
            Ok(root) => {
                let host = match root.config {
                    Some(c) => host_includes_for(c.host_includes, hostname),
                    None => Seq::empty(),
                };
                match all_steps(
                    g,
                    base_dir,
                    home,
                    root,
                    host,
                    Seq::empty(),
                    MAX_INCLUDE_DEPTH as nat,
                ) {
                    Err(e) => Err(e),
                    Ok(s) => Ok(
                        (
                            s,
                            match root.config {
                                Some(c) => c.aur_helper,
                                None => None,
                            },
                        ),
                    ),
                }
            },
        },
    }
}

/// `r` is the outcome `spec` describes.
pub open spec fn assembled_as(
    r: Result<(Vec<Step>, Option<AurHelper>), Error>,
    spec: Result<(Seq<StepView>, Option<AurHelper>), ErrorView>,
) -> bool {
    match r {
        Ok((v, h)) => spec == Ok::<_, ErrorView>((steps_view(v@), h)),
        Err(e) => spec == Err::<(Seq<StepView>, Option<AurHelper>), _>(e@),
    }
}

/// Assembles the module tree of `root_file` with `home` as the home
/// directory; `load` reads each module file.
pub fn process_with_home<F: Fn(&str) -> LoadOutcome>(
    base_dir: &str,
    root_file: &str,
    hostname: &str,
    home: &Option<String>,
    load: &F,
) -> (r: Result<(Vec<Step>, Option<AurHelper>), Error>)
    requires
        forall|p: &str| load.requires((p,)),
    ensures
        forall|g: spec_fn(Seq<char>) -> LoadView| #[trigger]
            answers(*load, g) ==> assembled_as(
                r,
                assemble(g, base_dir@, root_file@, hostname@, opt_view(*home)),
            ),
{
    let o = load(root_file);
    let ghost ov = o@;
    assert forall|g: spec_fn(Seq<char>) -> LoadView| #[trigger] answers(*load, g) implies g(
        root_file@,
    ) == ov by {
        assert(load.ensures((root_file,), o));
    }
    let root = match o {
        LoadOutcome::Missing => {
            return Err(Error::RootNotFound { path: String::from_str(root_file) });
        },
        LoadOutcome::Unreadable { canonical, diagnostic } => {
            return Err(Error::Unreadable { path: canonical, diagnostic });
        },
        LoadOutcome::Loaded { canonical, file } => {
            proof {
                assert(!Seq::<Seq<char>>::empty().contains(canonical@));
            }
            match MrowFile::new(base_dir, root_file, canonical, file, true, home) {
                Ok(m) => m,
                Err(e) => {
                    return Err(e);
                },
            }
        },
    };
    let aur_helper = match &root.config {
        Some(c) => c.aur_helper,
        None => None,
    };
    let host = select_host_includes(&root.config, hostname);
    let mut chain: Vec<String> = Vec::new();
    proof {
        assert(strs(chain@) =~= Seq::<Seq<char>>::empty());
    }
    let steps = get_all_steps(load, base_dir, home, &root, &host, &mut chain, MAX_INCLUDE_DEPTH)?;
    Ok((steps, aur_helper))
}

/// Relies on `dirs::home_dir`: the current user's home directory, when one
/// is known. Nothing is promised of it: it comes from the environment.
#[verifier::external_body]
pub(crate) fn home_directory() -> (r: Option<String>) {
    dirs::home_dir().map(|p| p.to_string_lossy().into_owned())
}

/// Assembles the module tree of `root_file` under `base_dir` on the host
/// named `hostname`, with the current user's home directory for `~/`;
/// `load` reads each module file. The outcome is the one that some home
/// directory gives.
pub fn process<F: Fn(&str) -> LoadOutcome>(
    base_dir: &str,
    root_file: &str,
    hostname: &str,
    load: &F,
) -> (r: Result<(Vec<Step>, Option<AurHelper>), Error>)
    requires
        forall|p: &str| load.requires((p,)),
    ensures
        forall|g: spec_fn(Seq<char>) -> LoadView| #[trigger]
            answers(*load, g) ==> exists|home: Option<Seq<char>>|
                assembled_as(r, #[trigger] assemble(g, base_dir@, root_file@, hostname@, home)),
{
    let home = home_directory();
    let r = process_with_home(base_dir, root_file, hostname, &home, load);
    assert forall|g: spec_fn(Seq<char>) -> LoadView| #[trigger] answers(*load, g) implies exists|
        h: Option<Seq<char>>,
    | assembled_as(r, #[trigger] assemble(g, base_dir@, root_file@, hostname@, h)) by {
        assert(assembled_as(r, assemble(g, base_dir@, root_file@, hostname@, opt_view(home))));
    }
    r
}

/// The root module found for `root_file`, when it loads.
pub open spec fn root_module(
    g: spec_fn(Seq<char>) -> LoadView,
    base_dir: Seq<char>,
    root_file: Seq<char>,
    home: Option<Seq<char>>,
) -> Result<ModuleView, ErrorView> {
    load_module(g(root_file), root_file, root_file, Seq::empty(), base_dir, home, true)
}

/// The includes a root module's configuration selects for `hostname`.
pub open spec fn host_part(m: ModuleView, hostname: Seq<char>) -> Seq<Seq<char>> {
    match m.config {
        Some(c) => host_includes_for(c.host_includes, hostname),
        None => Seq::empty(),
    }
}

/// A root module that includes nothing, on a host for which it configures
/// no includes, assembles to exactly its own steps: the i-th assembled step
/// is its i-th declared step.
pub proof fn lemma_root_alone(
    g: spec_fn(Seq<char>) -> LoadView,
    base_dir: Seq<char>,
    root_file: Seq<char>,
    hostname: Seq<char>,
    home: Option<Seq<char>>,
)
    requires
        g(root_file) !is Missing,
        root_module(g, base_dir, root_file, home) is Ok,
        root_module(g, base_dir, root_file, home)->Ok_0.includes.len() == 0,
        host_part(root_module(g, base_dir, root_file, home)->Ok_0, hostname).len() == 0,
    ensures
        assemble(g, base_dir, root_file, hostname, home) is Ok,
        ({
            let m = root_module(g, base_dir, root_file, home)->Ok_0;
            let s = assemble(g, base_dir, root_file, hostname, home)->Ok_0.0;
            &&& s == own_steps(m)
            &&& s.len() == m.steps.len()
            &&& forall|i: int| 0 <= i < s.len() ==> #[trigger] s[i].kind == m.steps[i] && s[i].owner
                == m.path
        }),
{
    let m = root_module(g, base_dir, root_file, home)->Ok_0;
    assert(host_part(m, hostname) + m.includes =~= Seq::<Seq<char>>::empty());
}

/// The steps of the tree below each of `children`, concatenated in order,
/// as far as each assembles.
pub open spec fn concat_trees(
    g: spec_fn(Seq<char>) -> LoadView,
    root_dir: Seq<char>,
    home: Option<Seq<char>>,
    children: Seq<ModuleView>,
    chain: Seq<Seq<char>>,
    fuel: nat,
) -> Seq<StepView>
    decreases children.len(),
{
    if children.len() == 0 {
        Seq::empty()
    } else {
        concat_trees(g, root_dir, home, children.drop_last(), chain, fuel) + all_steps(
            g,
            root_dir,
            home,
            children.last(),
            Seq::empty(),
            chain,
            fuel,
        )->Ok_0
    }
}

proof fn lemma_children_concat(
    g: spec_fn(Seq<char>) -> LoadView,
    root_dir: Seq<char>,
    home: Option<Seq<char>>,
    children: Seq<ModuleView>,
    chain: Seq<Seq<char>>,
    fuel: nat,
)
    requires
        children_steps(g, root_dir, home, children, chain, fuel) is Ok,
    ensures
        children_steps(g, root_dir, home, children, chain, fuel)->Ok_0 == concat_trees(
            g,
            root_dir,
            home,
            children,
            chain,
            fuel,
        ),
        forall|i: int|
            0 <= i < children.len() ==> #[trigger] all_steps(
                g,
                root_dir,
                home,
                children[i],
                Seq::empty(),
                chain,
                fuel,
            ) is Ok,
    decreases children.len(),
{
    if children.len() > 0 {
        lemma_children_concat(g, root_dir, home, children.drop_last(), chain, fuel);
        assert forall|i: int| 0 <= i < children.len() implies #[trigger] all_steps(
            g,
            root_dir,
            home,
            children[i],
            Seq::empty(),
            chain,
            fuel,
        ) is Ok by {
            if i < children.len() - 1 {
                assert(children[i] == children.drop_last()[i]);
            }
        }
    }
}

/// Pre-order: when the tree below a module assembles, its list is the
/// module's own steps followed by the assembled list of each module it
/// includes, in declared order; each of those assembles too.
pub proof fn lemma_preorder(
    g: spec_fn(Seq<char>) -> LoadView,
    root_dir: Seq<char>,
    home: Option<Seq<char>>,
    m: ModuleView,
    host: Seq<Seq<char>>,
    chain: Seq<Seq<char>>,
    fuel: nat,
)
    requires
        all_steps(g, root_dir, home, m, host, chain, fuel) is Ok,
        (host + m.includes).len() > 0,
    ensures
        fuel > 0,
        gather(g, root_dir, home, m, host + m.includes, chain.push(m.path)) is Ok,
        ({
            let children = gather(g, root_dir, home, m, host + m.includes, chain.push(m.path))->Ok_0;
            &&& all_steps(g, root_dir, home, m, host, chain, fuel)->Ok_0 == own_steps(m)
                + concat_trees(g, root_dir, home, children, chain.push(m.path), (fuel - 1) as nat)
            &&& forall|i: int|
                0 <= i < children.len() ==> #[trigger] all_steps(
                    g,
                    root_dir,
                    home,
                    children[i],
                    Seq::empty(),
                    chain.push(m.path),
                    (fuel - 1) as nat,
                ) is Ok
        }),
{
    let children = gather(g, root_dir, home, m, host + m.includes, chain.push(m.path))->Ok_0;
    lemma_children_concat(g, root_dir, home, children, chain.push(m.path), (fuel - 1) as nat);
}

proof fn lemma_gather_split(
    g: spec_fn(Seq<char>) -> LoadView,
    root_dir: Seq<char>,
    home: Option<Seq<char>>,
    m: ModuleView,
    a: Seq<Seq<char>>,
    b: Seq<Seq<char>>,
    chain: Seq<Seq<char>>,
)
    requires
        gather(g, root_dir, home, m, a + b, chain) is Ok,
    ensures
        gather(g, root_dir, home, m, a, chain) is Ok,
        gather(g, root_dir, home, m, b, chain) is Ok,
        gather(g, root_dir, home, m, a + b, chain)->Ok_0 == gather(g, root_dir, home, m, a, chain)->Ok_0
            + gather(g, root_dir, home, m, b, chain)->Ok_0,
    decreases b.len(),
{
    if b.len() == 0 {
        assert(a + b =~= a);
    } else {
        assert((a + b).drop_last() =~= a + b.drop_last());
        assert((a + b).last() == b.last());
        lemma_gather_split(g, root_dir, home, m, a, b.drop_last(), chain);
    }
}

proof fn lemma_concat_split(
    g: spec_fn(Seq<char>) -> LoadView,
    root_dir: Seq<char>,
    home: Option<Seq<char>>,
    a: Seq<ModuleView>,
    b: Seq<ModuleView>,
    chain: Seq<Seq<char>>,
    fuel: nat,
)
    ensures
        concat_trees(g, root_dir, home, a + b, chain, fuel) == concat_trees(
            g,
            root_dir,
            home,
            a,
            chain,
            fuel,
        ) + concat_trees(g, root_dir, home, b, chain, fuel),
    decreases b.len(),
{
    if b.len() == 0 {
        assert(a + b =~= a);
        assert(concat_trees(g, root_dir, home, a, chain, fuel) + Seq::<StepView>::empty()
            =~= concat_trees(g, root_dir, home, a, chain, fuel));
    } else {
        assert((a + b).drop_last() =~= a + b.drop_last());
        lemma_concat_split(g, root_dir, home, a, b.drop_last(), chain, fuel);
        assert(concat_trees(g, root_dir, home, a, chain, fuel) + concat_trees(
            g,
            root_dir,
            home,
            b.drop_last(),
            chain,
            fuel,
        ) + all_steps(g, root_dir, home, b.last(), Seq::empty(), chain, fuel)->Ok_0
            =~= concat_trees(g, root_dir, home, a, chain, fuel) + (concat_trees(
            g,
            root_dir,
            home,
            b.drop_last(),
            chain,
            fuel,
        ) + all_steps(g, root_dir, home, b.last(), Seq::empty(), chain, fuel)->Ok_0));
    }
}

/// Host includes come first: when the root's tree assembles, its list is
/// the root's own steps, then the trees of the includes configured for the
/// host, then the trees of the root's own includes. With no entry for the
/// host, the list is what the root's own includes alone give.
pub proof fn lemma_host_first(
    g: spec_fn(Seq<char>) -> LoadView,
    root_dir: Seq<char>,
    home: Option<Seq<char>>,
    m: ModuleView,
    host: Seq<Seq<char>>,
    fuel: nat,
)
    requires
        all_steps(g, root_dir, home, m, host, Seq::empty(), fuel) is Ok,
        (host + m.includes).len() > 0,
    ensures
        ({
            let chain = seq![m.path];
            let hs = gather(g, root_dir, home, m, host, chain)->Ok_0;
            let os = gather(g, root_dir, home, m, m.includes, chain)->Ok_0;
            &&& gather(g, root_dir, home, m, host, chain) is Ok
            &&& gather(g, root_dir, home, m, m.includes, chain) is Ok
            &&& all_steps(g, root_dir, home, m, host, Seq::empty(), fuel)->Ok_0 == own_steps(m)
                + concat_trees(g, root_dir, home, hs, chain, (fuel - 1) as nat) + concat_trees(
                g,
                root_dir,
                home,
                os,
                chain,
                (fuel - 1) as nat,
            )
        }),
        host.len() == 0 ==> all_steps(g, root_dir, home, m, host, Seq::empty(), fuel)
            == all_steps(g, root_dir, home, m, Seq::empty(), Seq::empty(), fuel),
{
    let chain = seq![m.path];
    assert(Seq::<Seq<char>>::empty().push(m.path) =~= chain);
    lemma_preorder(g, root_dir, home, m, host, Seq::empty(), fuel);
    lemma_gather_split(g, root_dir, home, m, host, m.includes, chain);
    let hs = gather(g, root_dir, home, m, host, chain)->Ok_0;
    let os = gather(g, root_dir, home, m, m.includes, chain)->Ok_0;
    lemma_concat_split(g, root_dir, home, hs, os, chain, (fuel - 1) as nat);
    assert(own_steps(m) + (concat_trees(g, root_dir, home, hs, chain, (fuel - 1) as nat)
        + concat_trees(g, root_dir, home, os, chain, (fuel - 1) as nat)) =~= own_steps(m)
        + concat_trees(g, root_dir, home, hs, chain, (fuel - 1) as nat) + concat_trees(
        g,
        root_dir,
        home,
        os,
        chain,
        (fuel - 1) as nat,
    ));
    if host.len() == 0 {
        assert(host + m.includes =~= Seq::<Seq<char>>::empty() + m.includes);
    }
}

/// A module that is refused stops the whole assembly: when any module that
/// `m` includes fails to load (a declared step is invalid, its file is
/// missing or unreadable), the tree below `m` yields no steps at all.
pub proof fn lemma_refused_module_aborts(
    g: spec_fn(Seq<char>) -> LoadView,
    root_dir: Seq<char>,
    home: Option<Seq<char>>,
    m: ModuleView,
    host: Seq<Seq<char>>,
    chain: Seq<Seq<char>>,
    fuel: nat,
    i: int,
)
    requires
        fuel > 0,
        0 <= i < (host + m.includes).len(),
        load_module(
            g(join(m.dir, (host + m.includes)[i])),
            join(m.dir, (host + m.includes)[i]),
            m.path,
            chain.push(m.path),
            root_dir,
            home,
            false,
        ) is Err,
    ensures
        all_steps(g, root_dir, home, m, host, chain, fuel) is Err,
{
    let incs = host + m.includes;
    let c = chain.push(m.path);
    lemma_gather_fails_at(g, root_dir, home, m, incs, c, i);
}

proof fn lemma_gather_fails_at(
    g: spec_fn(Seq<char>) -> LoadView,
    root_dir: Seq<char>,
    home: Option<Seq<char>>,
    m: ModuleView,
    incs: Seq<Seq<char>>,
    chain: Seq<Seq<char>>,
    i: int,
)
    requires
        0 <= i < incs.len(),
        load_module(
            g(join(m.dir, incs[i])),
            join(m.dir, incs[i]),
            m.path,
            chain,
            root_dir,
            home,
            false,
        ) is Err,
    ensures
        gather(g, root_dir, home, m, incs, chain) is Err,
    decreases incs.len(),
{
    if i < incs.len() - 1 {
        assert(incs.drop_last()[i] == incs[i]);
        lemma_gather_fails_at(g, root_dir, home, m, incs.drop_last(), chain, i);
    }
}

/// A root module with a step that is refused assembles to no steps at all.
pub proof fn lemma_refused_root_aborts(
    g: spec_fn(Seq<char>) -> LoadView,
    base_dir: Seq<char>,
    root_file: Seq<char>,
    hostname: Seq<char>,
    home: Option<Seq<char>>,
    dir: Seq<char>,
)
    requires
        g(root_file) is Loaded,
        parent(root_file) == Some(dir),
        steps_of(g(root_file)->Loaded_file.steps, dir, home) is Err,
    ensures
        assemble(g, base_dir, root_file, hostname, home) is Err,
{
}

/// Each of `incs`, read from the directory of `m`, that loads is a module
/// of lower rank than `m`.
pub open spec fn ranked(
    g: spec_fn(Seq<char>) -> LoadView,
    rank: spec_fn(Seq<char>) -> int,
    m: ModuleView,
    incs: Seq<Seq<char>>,
) -> bool {
    forall|i: int|
        0 <= i < incs.len() ==> match #[trigger] g(join(m.dir, incs[i])) {
            LoadView::Loaded { canonical, .. } => rank(canonical) < rank(m.path),
            _ => true,
        }
}

/// The include graph that `g` describes has no cycle: `rank` decreases
/// along every include of every module that loads.
pub open spec fn acyclic(
    g: spec_fn(Seq<char>) -> LoadView,
    root_dir: Seq<char>,
    home: Option<Seq<char>>,
    rank: spec_fn(Seq<char>) -> int,
) -> bool {
    forall|p: Seq<char>|
        #[trigger] g(p) is Loaded ==> match new_module(
            root_dir,
            p,
            g(p)->Loaded_canonical,
            g(p)->Loaded_file,
            false,
            home,
        ) {
            Ok(k) => ranked(g, rank, k, k.includes),
            Err(_) => true,
        }
}

pub open spec fn is_cycle_error(r: Result<Seq<StepView>, ErrorView>) -> bool {
    r matches Err(ErrorView::IncludeCycle { .. })
}

proof fn lemma_gather_ranked(
    g: spec_fn(Seq<char>) -> LoadView,
    root_dir: Seq<char>,
    home: Option<Seq<char>>,
    rank: spec_fn(Seq<char>) -> int,
    m: ModuleView,
    incs: Seq<Seq<char>>,
    chain: Seq<Seq<char>>,
)
    requires
        acyclic(g, root_dir, home, rank),
        ranked(g, rank, m, incs),
        forall|j: int| 0 <= j < chain.len() ==> rank(#[trigger] chain[j]) >= rank(m.path),
    ensures
        !(gather(g, root_dir, home, m, incs, chain) matches Err(ErrorView::IncludeCycle { .. })),
        gather(g, root_dir, home, m, incs, chain) is Ok ==> forall|i: int|
            0 <= i < gather(g, root_dir, home, m, incs, chain)->Ok_0.len() ==> {
                let k = #[trigger] gather(g, root_dir, home, m, incs, chain)->Ok_0[i];
                &&& ranked(g, rank, k, k.includes)
                &&& rank(k.path) < rank(m.path)
            },
    decreases incs.len(),
{
    if incs.len() > 0 {
        assert(ranked(g, rank, m, incs.drop_last())) by {
            assert forall|i: int| 0 <= i < incs.drop_last().len() implies match #[trigger] g(
                join(m.dir, incs.drop_last()[i]),
            ) {
                LoadView::Loaded { canonical, .. } => rank(canonical) < rank(m.path),
                _ => true,
            } by {
                assert(incs.drop_last()[i] == incs[i]);
            }
        }
        lemma_gather_ranked(g, root_dir, home, rank, m, incs.drop_last(), chain);
        let path = join(m.dir, incs.last());
        assert(incs.last() == incs[incs.len() - 1]);
        match g(path) {
            LoadView::Loaded { canonical, file } => {
                assert(rank(canonical) < rank(m.path));
                assert(!chain.contains(canonical)) by {
                    if chain.contains(canonical) {
                        let j = choose|j: int| 0 <= j < chain.len() && chain[j] == canonical;
                        assert(rank(chain[j]) >= rank(m.path));
                    }
                }
                assert(g(path) is Loaded);
            },
            _ => {},
        }
        match gather(g, root_dir, home, m, incs.drop_last(), chain) {
            Ok(ms) => {
                match load_module(g(path), path, m.path, chain, root_dir, home, false) {
                    Ok(c) => {
                        let all = ms.push(c);
                        assert forall|i: int| 0 <= i < all.len() implies {
                            let k = #[trigger] all[i];
                            &&& ranked(g, rank, k, k.includes)
                            &&& rank(k.path) < rank(m.path)
                        } by {
                            if i < ms.len() {
                                assert(all[i] == ms[i]);
                            }
                        }
                    },
                    Err(_) => {},
                }
            },
            Err(_) => {},
        }
    }
}

proof fn lemma_no_cycle_all(
    g: spec_fn(Seq<char>) -> LoadView,
    root_dir: Seq<char>,
    home: Option<Seq<char>>,
    rank: spec_fn(Seq<char>) -> int,
    m: ModuleView,
    host: Seq<Seq<char>>,
    chain: Seq<Seq<char>>,
    fuel: nat,
)
    requires
        acyclic(g, root_dir, home, rank),
        ranked(g, rank, m, host + m.includes),
        forall|j: int| 0 <= j < chain.len() ==> rank(#[trigger] chain[j]) > rank(m.path),
    ensures
        !is_cycle_error(all_steps(g, root_dir, home, m, host, chain, fuel)),
    decreases fuel, 0nat,
{
    let incs = host + m.includes;
    if incs.len() > 0 && fuel > 0 {
        let c = chain.push(m.path);
        assert forall|j: int| 0 <= j < c.len() implies rank(#[trigger] c[j]) >= rank(m.path) by {
            if j < chain.len() {
                assert(c[j] == chain[j]);
            }
        }
        lemma_gather_ranked(g, root_dir, home, rank, m, incs, c);
        match gather(g, root_dir, home, m, incs, c) {
            Ok(children) => {
                lemma_no_cycle_children(
                    g,
                    root_dir,
                    home,
                    rank,
                    children,
                    c,
                    (fuel - 1) as nat,
                    rank(m.path),
                );
            },
            Err(_) => {},
        }
    }
}

proof fn lemma_no_cycle_children(
    g: spec_fn(Seq<char>) -> LoadView,
    root_dir: Seq<char>,
    home: Option<Seq<char>>,
    rank: spec_fn(Seq<char>) -> int,
    children: Seq<ModuleView>,
    chain: Seq<Seq<char>>,
    fuel: nat,
    top: int,
)
    requires
        acyclic(g, root_dir, home, rank),
        forall|i: int|
            0 <= i < children.len() ==> {
                let k = #[trigger] children[i];
                &&& ranked(g, rank, k, k.includes)
                &&& rank(k.path) < top
            },
        forall|j: int| 0 <= j < chain.len() ==> rank(#[trigger] chain[j]) >= top,
    ensures
        !is_cycle_error(children_steps(g, root_dir, home, children, chain, fuel)),
    decreases fuel, children.len() + 1,
{
    if children.len() > 0 {
        assert forall|i: int| 0 <= i < children.drop_last().len() implies {
            let k = #[trigger] children.drop_last()[i];
            &&& ranked(g, rank, k, k.includes)
            &&& rank(k.path) < top
        } by {
            assert(children.drop_last()[i] == children[i]);
        }
        lemma_no_cycle_children(g, root_dir, home, rank, children.drop_last(), chain, fuel, top);
        let k = children.last();
        assert(k == children[children.len() - 1]);
        assert(Seq::<Seq<char>>::empty() + k.includes =~= k.includes);
        lemma_no_cycle_all(g, root_dir, home, rank, k, Seq::empty(), chain, fuel);
    }
}

/// An include graph without cycles (one whose modules can be ranked so
/// that every include leads to a lower rank) never makes assembly report a
/// cycle; and when the root includes anything and assembly succeeds, the
/// list is the root's own steps followed by the assembled list of each
/// included module, in declared order.
pub proof fn lemma_acyclic_assembly(
    g: spec_fn(Seq<char>) -> LoadView,
    base_dir: Seq<char>,
    root_file: Seq<char>,
    hostname: Seq<char>,
    home: Option<Seq<char>>,
    rank: spec_fn(Seq<char>) -> int,
)
    requires
        acyclic(g, base_dir, home, rank),
        root_module(g, base_dir, root_file, home) is Ok ==> {
            let m = root_module(g, base_dir, root_file, home)->Ok_0;
            ranked(g, rank, m, host_part(m, hostname) + m.includes)
        },
    ensures
        !(assemble(g, base_dir, root_file, hostname, home) matches Err(
            ErrorView::IncludeCycle { .. },
        )),
        assemble(g, base_dir, root_file, hostname, home) is Ok ==> {
            let m = root_module(g, base_dir, root_file, home)->Ok_0;
            let incs = host_part(m, hostname) + m.includes;
            let chain = seq![m.path];
            incs.len() > 0 ==> {
                &&& gather(g, base_dir, home, m, incs, chain) is Ok
                &&& assemble(g, base_dir, root_file, hostname, home)->Ok_0.0 == own_steps(m)
                    + concat_trees(
                    g,
                    base_dir,
                    home,
                    gather(g, base_dir, home, m, incs, chain)->Ok_0,
                    chain,
                    (MAX_INCLUDE_DEPTH - 1) as nat,
                )
            }
        },
{
    if g(root_file) !is Missing && root_module(g, base_dir, root_file, home) is Ok {
        let m = root_module(g, base_dir, root_file, home)->Ok_0;
        let host = host_part(m, hostname);
        lemma_no_cycle_all(
            g,
            base_dir,
            home,
            rank,
            m,
            host,
            Seq::empty(),
            MAX_INCLUDE_DEPTH as nat,
        );
        assert(Seq::<Seq<char>>::empty().push(m.path) =~= seq![m.path]);
        if all_steps(g, base_dir, home, m, host, Seq::empty(), MAX_INCLUDE_DEPTH as nat) is Ok && (
        host + m.includes).len() > 0 {
            lemma_preorder(
                g,
                base_dir,
                home,
                m,
                host,
                Seq::empty(),
                MAX_INCLUDE_DEPTH as nat,
            );
        }
    }
}

} // verus!
