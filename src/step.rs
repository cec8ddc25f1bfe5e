//! Steps: the typed provisioning actions, the values a module file declares
//! them with, and the validator that turns the one into the other.

use vstd::prelude::*;
use crate::paths::{opt_view, resolve, resolve_path, strs};

verus! {

/// A package-installation tool for community-repository packages.
#[derive(Debug, Clone, Copy, PartialEq, Eq, Structural)]
pub enum AurHelper {
    Yay,
    Paru,
}

/// A value that is neither a list nor a table, as a module file holds it.
/// Any value the steps never read as such (a number, a date, a nested
/// list or table) is kept as its text, to be shown in an error.
#[derive(Debug, Clone)]
pub enum Item {
    Str(String),
    Bool(bool),
    Other(String),
}

pub enum ItemView {
    Str(Seq<char>),
    Bool(bool),
    Other(Seq<char>),
}

impl View for Item {
    type V = ItemView;

    open spec fn view(&self) -> ItemView {
        match self {
            Item::Str(s) => ItemView::Str(s@),
            Item::Bool(b) => ItemView::Bool(*b),
            Item::Other(t) => ItemView::Other(t@),
        }
    }
}

impl Item {
    /// An equal copy.
    pub fn duplicate(&self) -> (r: Item)
        ensures
            r@ == self@,
    {
        match self {
            Item::Str(s) => Item::Str(s.clone()),
            Item::Bool(b) => Item::Bool(*b),
            Item::Other(t) => Item::Other(t.clone()),
        }
    }
}

pub open spec fn items_view(v: Seq<Item>) -> Seq<ItemView> {
    v.map_values(|i: Item| i@)
}

/// The value under one key of a step table.
#[derive(Debug, Clone)]
pub enum Field {
    Item(Item),
    List(Vec<Item>),
}

pub enum FieldView {
    Item(ItemView),
    List(Seq<ItemView>),
}

impl View for Field {
    type V = FieldView;

    open spec fn view(&self) -> FieldView {
        match self {
            Field::Item(i) => FieldView::Item(i@),
            Field::List(v) => FieldView::List(items_view(v@)),
        }
    }
}

/// One entry of a module's step list, as written.
#[derive(Debug, Clone)]
pub enum RawStep {
    /// A bare string: one command.
    Command(String),
    /// A list: commands, each of which must be a string.
    Commands(Vec<Item>),
    /// A table whose `kind` key names the step.
    Table(Vec<(String, Field)>),
    /// Anything else, as its text.
    Other(String),
}

pub enum RawStepView {
    Command(Seq<char>),
    Commands(Seq<ItemView>),
    Table(Seq<(Seq<char>, FieldView)>),
    Other(Seq<char>),
}

pub open spec fn table_view(t: Seq<(String, Field)>) -> Seq<(Seq<char>, FieldView)> {
    t.map_values(|e: (String, Field)| (e.0@, e.1@))
}

impl View for RawStep {
    type V = RawStepView;

    open spec fn view(&self) -> RawStepView {
        match self {
            RawStep::Command(c) => RawStepView::Command(c@),
            RawStep::Commands(v) => RawStepView::Commands(items_view(v@)),
            RawStep::Table(t) => RawStepView::Table(table_view(t@)),
            RawStep::Other(t) => RawStepView::Other(t@),
        }
    }
}

/// A provisioning action. Paths are already resolved.
#[derive(Debug, Clone)]
pub enum StepKind {
    InstallPackage { package: String, aur: bool },
    InstallPackages { packages: Vec<String>, aur: bool },
    CopyFile { from: String, to: String, as_root: bool },
    Symlink { from: String, to: String, delete_existing: bool },
    RunCommand { command: String },
    RunCommands { commands: Vec<String> },
    RunScript { path: String },
}

pub enum StepKindView {
    InstallPackage { package: Seq<char>, aur: bool },
    InstallPackages { packages: Seq<Seq<char>>, aur: bool },
    CopyFile { from: Seq<char>, to: Seq<char>, as_root: bool },
    Symlink { from: Seq<char>, to: Seq<char>, delete_existing: bool },
    RunCommand { command: Seq<char> },
    RunCommands { commands: Seq<Seq<char>> },
    RunScript { path: Seq<char> },
}

impl View for StepKind {
    type V = StepKindView;

    open spec fn view(&self) -> StepKindView {
        match self {
            StepKind::InstallPackage { package, aur } => StepKindView::InstallPackage {
                package: package@,
                aur: *aur,
            },
            StepKind::InstallPackages { packages, aur } => StepKindView::InstallPackages {
                packages: strs(packages@),
                aur: *aur,
            },
            StepKind::CopyFile { from, to, as_root } => StepKindView::CopyFile {
                from: from@,
                to: to@,
                as_root: *as_root,
            },
            StepKind::Symlink { from, to, delete_existing } => StepKindView::Symlink {
                from: from@,
                to: to@,
                delete_existing: *delete_existing,
            },
            StepKind::RunCommand { command } => StepKindView::RunCommand { command: command@ },
            StepKind::RunCommands { commands } => StepKindView::RunCommands {
                commands: strs(commands@),
            },
            StepKind::RunScript { path } => StepKindView::RunScript { path: path@ },
        }
    }
}

/// The keys a step table is read by.
#[derive(Debug, Clone, Copy, PartialEq, Eq, Structural)]
pub enum FieldName {
    Kind,
    Package,
    Packages,
    Aur,
    From,
    To,
    AsRoot,
    DeleteExisting,
    Path,
}

/// Why one step value was refused.
#[derive(Debug, Clone)]
pub enum StepError {
    /// Neither a string, a list nor a table; the value's text.
    Shape { text: String },
    /// An entry of a list that had to hold strings only.
    NotAString { value: Item },
    /// A key that the step's kind requires is absent.
    MissingField { field: FieldName },
    /// A key holds a value of the wrong type.
    WrongType { field: FieldName },
    /// The `kind` names no known step.
    UnknownKind { kind: String },
}

pub enum StepErrorView {
    Shape { text: Seq<char> },
    NotAString { value: ItemView },
    MissingField { field: FieldName },
    WrongType { field: FieldName },
    UnknownKind { kind: Seq<char> },
}

impl View for StepError {
    type V = StepErrorView;

    open spec fn view(&self) -> StepErrorView {
        match self {
            StepError::Shape { text } => StepErrorView::Shape { text: text@ },
            StepError::NotAString { value } => StepErrorView::NotAString { value: value@ },
            StepError::MissingField { field } => StepErrorView::MissingField { field: *field },
            StepError::WrongType { field } => StepErrorView::WrongType { field: *field },
            StepError::UnknownKind { kind } => StepErrorView::UnknownKind { kind: kind@ },
        }
    }
}

pub open spec fn view_result<T: View, E: View>(r: Result<T, E>) -> Result<T::V, E::V> {
    match r {
        Ok(t) => Ok(t@),
        Err(e) => Err(e@),
    }
}

/// The value under the first entry of `t` with key `key`, searching from
/// position `i`.
pub open spec fn lookup_from(t: Seq<(Seq<char>, FieldView)>, key: Seq<char>, i: int) -> Option<
    int,
>
    decreases t.len() - i,
{
    if i < 0 || i >= t.len() {
        None
    } else if t[i].0 == key {
        Some(i)
    } else {
        lookup_from(t, key, i + 1)
    }
}

pub open spec fn lookup(t: Seq<(Seq<char>, FieldView)>, key: Seq<char>) -> Option<FieldView> {
    match lookup_from(t, key, 0) {
        Some(i) => Some(t[i].1),
        None => None,
    }
}

/// The strings of `s`, or the first entry that is no string.
pub open spec fn all_strs(s: Seq<ItemView>) -> Result<Seq<Seq<char>>, ItemView>
    decreases s.len(),
{
    if s.len() == 0 {
        Ok(Seq::empty())
    } else {
        match all_strs(s.drop_last()) {
            Err(e) => Err(e),
            Ok(v) => match s.last() {
                ItemView::Str(x) => Ok(v.push(x)),
                other => Err(other),
            },
        }
    }
}

/// A required string.
pub open spec fn req_str(t: Seq<(Seq<char>, FieldView)>, key: Seq<char>, name: FieldName) -> Result<
    Seq<char>,
    StepErrorView,
> {
    match lookup(t, key) {
        None => Err(StepErrorView::MissingField { field: name }),
        Some(FieldView::Item(ItemView::Str(s))) => Ok(s),
        Some(_) => Err(StepErrorView::WrongType { field: name }),
    }
}

/// An optional flag, false when absent.
pub open spec fn opt_bool(t: Seq<(Seq<char>, FieldView)>, key: Seq<char>, name: FieldName) -> Result<
    bool,
    StepErrorView,
> {
    match lookup(t, key) {
        None => Ok(false),
        Some(FieldView::Item(ItemView::Bool(b))) => Ok(b),
        Some(_) => Err(StepErrorView::WrongType { field: name }),
    }
}

/// A required list of strings.
pub open spec fn req_strs(t: Seq<(Seq<char>, FieldView)>, key: Seq<char>, name: FieldName) -> Result<
    Seq<Seq<char>>,
    StepErrorView,
> {
    match lookup(t, key) {
        None => Err(StepErrorView::MissingField { field: name }),
        Some(FieldView::List(items)) => match all_strs(items) {
            Ok(v) => Ok(v),
            Err(i) => Err(StepErrorView::NotAString { value: i }),
        },
        Some(_) => Err(StepErrorView::WrongType { field: name }),
    }
}

/// A step table of the kind named `k`.
pub open spec fn kind_step(
    k: Seq<char>,
    t: Seq<(Seq<char>, FieldView)>,
    dir: Seq<char>,
    home: Option<Seq<char>>,
) -> Result<StepKindView, StepErrorView> {
    if k == "install-package"@ {
        match req_str(t, "package"@, FieldName::Package) {
            Err(e) => Err(e),
            Ok(package) => match opt_bool(t, "aur"@, FieldName::Aur) {
                Err(e) => Err(e),
                Ok(aur) => Ok(StepKindView::InstallPackage { package, aur }),
            },
        }
    } else if k == "install-packages"@ {
        match req_strs(t, "packages"@, FieldName::Packages) {
            Err(e) => Err(e),
            Ok(packages) => match opt_bool(t, "aur"@, FieldName::Aur) {
                Err(e) => Err(e),
                Ok(aur) => Ok(StepKindView::InstallPackages { packages, aur }),
            },
        }
    } else if k == "copy-file"@ {
        match req_str(t, "from"@, FieldName::From) {
            Err(e) => Err(e),
            Ok(from) => match req_str(t, "to"@, FieldName::To) {
                Err(e) => Err(e),
                Ok(to) => match opt_bool(t, "as-root"@, FieldName::AsRoot) {
                    Err(e) => Err(e),
                    Ok(as_root) => Ok(
                        StepKindView::CopyFile {
                            from: resolve(from, dir, home),
                            to: resolve(to, dir, home),
                            as_root,
                        },
                    ),
                },
            },
        }
    } else if k == "symlink"@ {
        match req_str(t, "from"@, FieldName::From) {
            Err(e) => Err(e),
            Ok(from) => match req_str(t, "to"@, FieldName::To) {
                Err(e) => Err(e),
                Ok(to) => match opt_bool(t, "delete-existing"@, FieldName::DeleteExisting) {
                    Err(e) => Err(e),
                    Ok(delete_existing) => Ok(
                        StepKindView::Symlink {
                            from: resolve(from, dir, home),
                            to: resolve(to, dir, home),
                            delete_existing,
                        },
                    ),
                },
            },
        }
    } else if k == "run-script"@ {
        match req_str(t, "path"@, FieldName::Path) {
            Err(e) => Err(e),
            Ok(path) => Ok(StepKindView::RunScript { path: resolve(path, dir, home) }),
        }
    } else {
        Err(StepErrorView::UnknownKind { kind: k })
    }
}

/// The step that `raw` declares in a module whose directory is `dir`, or
/// why it declares none.
pub open spec fn step_of(raw: RawStepView, dir: Seq<char>, home: Option<Seq<char>>) -> Result<
    StepKindView,
    StepErrorView,
> {
    match raw {
        RawStepView::Command(command) => Ok(StepKindView::RunCommand { command }),
        RawStepView::Commands(items) => match all_strs(items) {
            Ok(commands) => Ok(StepKindView::RunCommands { commands }),
            Err(i) => Err(StepErrorView::NotAString { value: i }),
        },
        RawStepView::Table(t) => match lookup(t, "kind"@) {
            None => Err(StepErrorView::MissingField { field: FieldName::Kind }),
            Some(FieldView::Item(ItemView::Str(k))) => kind_step(k, t, dir, home),
            Some(_) => Err(StepErrorView::WrongType { field: FieldName::Kind }),
        },
        RawStepView::Other(text) => Err(StepErrorView::Shape { text }),
    }
}

pub fn str_eq(a: &str, b: &str) -> (r: bool)
    ensures
        r == (a@ == b@),
{
    let n = a.unicode_len();
    if n != b.unicode_len() {
        return false;
    }
    let mut i: usize = 0;
    while i < n
        invariant
            n == a@.len(),
            n == b@.len(),
            i <= n,
            forall|j: int| 0 <= j < i ==> a@[j] == b@[j],
        decreases n - i,
    {
        if a.get_char(i) != b.get_char(i) {
            return false;
        }
        i = i + 1;
    }
    assert(a@ =~= b@);
    true
}

fn find_field(t: &Vec<(String, Field)>, key: &str) -> (r: Option<usize>)
    ensures
        match r {
            Some(i) => lookup_from(table_view(t@), key@, 0) == Some(i as int) && i < t@.len(),
            None => lookup_from(table_view(t@), key@, 0) is None,
        },
{
    let ghost tv = table_view(t@);
    let mut i: usize = 0;
    while i < t.len()
        invariant
            tv == table_view(t@),
            i <= t@.len(),
            lookup_from(tv, key@, 0) == lookup_from(tv, key@, i as int),
        decreases t@.len() - i,
    {
        if str_eq(t[i].0.as_str(), key) {
            return Some(i);
        }
        i = i + 1;
    }
    None
}

proof fn lemma_all_strs_prefix_err(s: Seq<ItemView>, j: int)
    requires
        0 <= j <= s.len(),
        all_strs(s.subrange(0, j)) is Err,
    ensures
        all_strs(s) == all_strs(s.subrange(0, j)),
    decreases s.len() - j,
{
    if j < s.len() {
        assert(s.subrange(0, j + 1).drop_last() =~= s.subrange(0, j));
        lemma_all_strs_prefix_err(s, j + 1);
    } else {
        assert(s.subrange(0, j) =~= s);
    }
}

fn strings_of(items: &Vec<Item>) -> (r: Result<Vec<String>, Item>)
    ensures
        match r {
            Ok(v) => all_strs(items_view(items@)) == Ok::<_, ItemView>(strs(v@)),
            Err(i) => all_strs(items_view(items@)) == Err::<Seq<Seq<char>>, _>(i@),
        },
{
    let ghost iv = items_view(items@);
    let mut out: Vec<String> = Vec::new();
    let mut i: usize = 0;
    proof {
        assert(iv.subrange(0, 0) =~= Seq::<ItemView>::empty());
        assert(strs(out@) =~= Seq::<Seq<char>>::empty());
    }
    while i < items.len()
        invariant
            iv == items_view(items@),
            i <= items@.len(),
            all_strs(iv.subrange(0, i as int)) == Ok::<_, ItemView>(strs(out@)),
        decreases items@.len() - i,
    {
        proof {
            assert(iv.subrange(0, i + 1).drop_last() =~= iv.subrange(0, i as int));
        }
        match &items[i] {
            Item::Str(x) => {
                let c = x.clone();
                proof {
                    assert(strs(out@.push(c)) =~= strs(out@).push(c@));
                }
                out.push(c);
            },
            other => {
                let e = other.duplicate();
                proof {
                    lemma_all_strs_prefix_err(iv, i + 1);
                }
                return Err(e);
            },
        }
        i = i + 1;
    }
    proof {
        assert(iv.subrange(0, items@.len() as int) =~= iv);
    }
    Ok(out)
}

fn get_str(t: &Vec<(String, Field)>, key: &str, name: FieldName) -> (r: Result<String, StepError>)
    ensures
        view_result(r) == req_str(table_view(t@), key@, name),
{
    match find_field(t, key) {
        None => Err(StepError::MissingField { field: name }),
        Some(i) => match &t[i].1 {
            Field::Item(Item::Str(s)) => Ok(s.clone()),
            _ => Err(StepError::WrongType { field: name }),
        },
    }
}

fn get_bool(t: &Vec<(String, Field)>, key: &str, name: FieldName) -> (r: Result<bool, StepError>)
    ensures
        match r {
            Ok(b) => opt_bool(table_view(t@), key@, name) == Ok::<_, StepErrorView>(b),
            Err(e) => opt_bool(table_view(t@), key@, name) == Err::<bool, _>(e@),
        },
{
    match find_field(t, key) {
        None => Ok(false),
        Some(i) => match &t[i].1 {
            Field::Item(Item::Bool(b)) => Ok(*b),
            _ => Err(StepError::WrongType { field: name }),
        },
    }
}

fn get_strs(t: &Vec<(String, Field)>, key: &str, name: FieldName) -> (r: Result<
    Vec<String>,
    StepError,
>)
    ensures
        match r {
            Ok(v) => req_strs(table_view(t@), key@, name) == Ok::<_, StepErrorView>(strs(v@)),
            Err(e) => req_strs(table_view(t@), key@, name) == Err::<Seq<Seq<char>>, _>(e@),
        },
{
    match find_field(t, key) {
        None => Err(StepError::MissingField { field: name }),
        Some(i) => match &t[i].1 {
            Field::List(items) => match strings_of(items) {
                Ok(v) => Ok(v),
                Err(value) => Err(StepError::NotAString { value }),
            },
            _ => Err(StepError::WrongType { field: name }),
        },
    }
}

fn kind_from_table(
    k: &str,
    t: &Vec<(String, Field)>,
    dir: &str,
    home: &Option<String>,
) -> (r: Result<StepKind, StepError>)
    ensures
        view_result(r) == kind_step(k@, table_view(t@), dir@, opt_view(*home)),
{
    if str_eq(k, "install-package") {
        let package = get_str(t, "package", FieldName::Package)?;
        let aur = get_bool(t, "aur", FieldName::Aur)?;
        Ok(StepKind::InstallPackage { package, aur })
    } else if str_eq(k, "install-packages") {
        let packages = get_strs(t, "packages", FieldName::Packages)?;
        let aur = get_bool(t, "aur", FieldName::Aur)?;
        Ok(StepKind::InstallPackages { packages, aur })
    } else if str_eq(k, "copy-file") {
        let from = get_str(t, "from", FieldName::From)?;
        let to = get_str(t, "to", FieldName::To)?;
        let as_root = get_bool(t, "as-root", FieldName::AsRoot)?;
        Ok(
            StepKind::CopyFile {
                from: resolve_path(from.as_str(), dir, home),
                to: resolve_path(to.as_str(), dir, home),
                as_root,
            },
        )
    } else if str_eq(k, "symlink") {
        let from = get_str(t, "from", FieldName::From)?;
        let to = get_str(t, "to", FieldName::To)?;
        let delete_existing = get_bool(t, "delete-existing", FieldName::DeleteExisting)?;
        Ok(
            StepKind::Symlink {
                from: resolve_path(from.as_str(), dir, home),
                to: resolve_path(to.as_str(), dir, home),
                delete_existing,
            },
        )
    } else if str_eq(k, "run-script") {
        let path = get_str(t, "path", FieldName::Path)?;
        Ok(StepKind::RunScript { path: resolve_path(path.as_str(), dir, home) })
    } else {
        Err(StepError::UnknownKind { kind: String::from_str(k) })
    }
}

/// Validates one declared step of a module whose directory is `dir`;
/// path-valued fields are resolved against `dir`, with `home` for `~/`.
pub fn parse_step(raw: &RawStep, dir: &str, home: &Option<String>) -> (r: Result<
    StepKind,
    StepError,
>)
    ensures
        view_result(r) == step_of(raw@, dir@, opt_view(*home)),
{
    match raw {
        RawStep::Command(c) => Ok(StepKind::RunCommand { command: c.clone() }),
        RawStep::Commands(items) => match strings_of(items) {
            Ok(commands) => Ok(StepKind::RunCommands { commands }),
            Err(value) => Err(StepError::NotAString { value }),
        },
        RawStep::Table(t) => match find_field(t, "kind") {
            None => Err(StepError::MissingField { field: FieldName::Kind }),
            Some(i) => match &t[i].1 {
                Field::Item(Item::Str(k)) => kind_from_table(k.as_str(), t, dir, home),
                _ => Err(StepError::WrongType { field: FieldName::Kind }),
            },
        },
        RawStep::Other(text) => Err(StepError::Shape { text: text.clone() }),
    }
}

impl StepKind {
    /// An equal copy.
    pub fn duplicate(&self) -> (r: StepKind)
        ensures
            r@ == self@,
    {
        match self {
            StepKind::InstallPackage { package, aur } => StepKind::InstallPackage {
                package: package.clone(),
                aur: *aur,
            },
            StepKind::InstallPackages { packages, aur } => StepKind::InstallPackages {
                packages: crate::module::copy_strings(packages),
                aur: *aur,
            },
            StepKind::CopyFile { from, to, as_root } => StepKind::CopyFile {
                from: from.clone(),
                to: to.clone(),
                as_root: *as_root,
            },
            StepKind::Symlink { from, to, delete_existing } => StepKind::Symlink {
                from: from.clone(),
                to: to.clone(),
                delete_existing: *delete_existing,
            },
            StepKind::RunCommand { command } => StepKind::RunCommand { command: command.clone() },
            StepKind::RunCommands { commands } => StepKind::RunCommands {
                commands: crate::module::copy_strings(commands),
            },
            StepKind::RunScript { path } => StepKind::RunScript { path: path.clone() },
        }
    }
}

} // verus!
