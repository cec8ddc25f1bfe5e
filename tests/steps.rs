use mrow::{parse_step, Field, FieldName, Item, RawStep, StepError, StepKind};

fn s(x: &str) -> String {
    x.to_string()
}

fn table(pairs: Vec<(&str, Field)>) -> RawStep {
    RawStep::Table(pairs.into_iter().map(|(k, v)| (s(k), v)).collect())
}

fn text(x: &str) -> Field {
    Field::Item(Item::Str(s(x)))
}

fn parse(raw: RawStep) -> Result<StepKind, StepError> {
    parse_step(&raw, "/m", &Some(s("/home/u")))
}

#[test]
fn bare_string_is_one_command() {
    assert!(matches!(parse(RawStep::Command(s("ls -l"))), Ok(StepKind::RunCommand { command }) if command == "ls -l"));
}

#[test]
fn list_of_strings_is_commands() {
    let r = parse(RawStep::Commands(vec![Item::Str(s("a")), Item::Str(s("b"))]));
    assert!(matches!(r, Ok(StepKind::RunCommands { commands }) if commands == vec![s("a"), s("b")]));
}

#[test]
fn list_with_non_string_is_refused() {
    let r = parse(RawStep::Commands(vec![Item::Str(s("a")), Item::Bool(true), Item::Other(s("3"))]));
    assert!(matches!(r, Err(StepError::NotAString { value: Item::Bool(true) })));
}

#[test]
fn other_shape_is_refused_with_its_text() {
    assert!(matches!(parse(RawStep::Other(s("12"))), Err(StepError::Shape { text }) if text == "12"));
}

#[test]
fn install_package_defaults_aur_to_false() {
    let r = parse(table(vec![("kind", text("install-package")), ("package", text("git"))]));
    assert!(matches!(r, Ok(StepKind::InstallPackage { package, aur: false }) if package == "git"));
}

#[test]
fn install_package_reads_aur() {
    let r = parse(table(vec![
        ("kind", text("install-package")),
        ("package", text("yay-bin")),
        ("aur", Field::Item(Item::Bool(true))),
    ]));
    assert!(matches!(r, Ok(StepKind::InstallPackage { aur: true, .. })));
}

#[test]
fn missing_kind_is_refused() {
    let r = parse(table(vec![("package", text("git"))]));
    assert!(matches!(r, Err(StepError::MissingField { field: FieldName::Kind })));
}

#[test]
fn non_string_kind_is_refused() {
    let r = parse(table(vec![("kind", Field::Item(Item::Bool(false)))]));
    assert!(matches!(r, Err(StepError::WrongType { field: FieldName::Kind })));
}

#[test]
fn unknown_kind_is_named() {
    let r = parse(table(vec![("kind", text("write-file"))]));
    assert!(matches!(r, Err(StepError::UnknownKind { kind }) if kind == "write-file"));
}

#[test]
fn missing_required_field_is_named() {
    let r = parse(table(vec![("kind", text("copy-file")), ("from", text("a"))]));
    assert!(matches!(r, Err(StepError::MissingField { field: FieldName::To })));
    let r = parse(table(vec![("kind", text("install-packages"))]));
    assert!(matches!(r, Err(StepError::MissingField { field: FieldName::Packages })));
    let r = parse(table(vec![("kind", text("run-script"))]));
    assert!(matches!(r, Err(StepError::MissingField { field: FieldName::Path })));
}

#[test]
fn packages_must_be_a_list_of_strings() {
    let r = parse(table(vec![("kind", text("install-packages")), ("packages", text("git"))]));
    assert!(matches!(r, Err(StepError::WrongType { field: FieldName::Packages })));
    let r = parse(table(vec![
        ("kind", text("install-packages")),
        ("packages", Field::List(vec![Item::Str(s("git")), Item::Other(s("1"))])),
    ]));
    assert!(matches!(r, Err(StepError::NotAString { value: Item::Other(t) }) if t == "1"));
}

#[test]
fn flag_of_wrong_type_is_refused() {
    let r = parse(table(vec![
        ("kind", text("symlink")),
        ("from", text("a")),
        ("to", text("b")),
        ("delete-existing", text("yes")),
    ]));
    assert!(matches!(r, Err(StepError::WrongType { field: FieldName::DeleteExisting })));
}

#[test]
fn copy_file_resolves_both_paths() {
    let r = parse(table(vec![
        ("kind", text("copy-file")),
        ("from", text("conf/a")),
        ("to", text("/etc/a")),
        ("as-root", Field::Item(Item::Bool(true))),
    ]));
    assert!(matches!(r, Ok(StepKind::CopyFile { from, to, as_root: true }) if from == "/m/conf/a" && to == "/etc/a"));
}

#[test]
fn first_key_wins() {
    let r = parse(table(vec![
        ("kind", text("run-script")),
        ("path", text("first.sh")),
        ("path", text("second.sh")),
    ]));
    assert!(matches!(r, Ok(StepKind::RunScript { path }) if path == "/m/first.sh"));
}
