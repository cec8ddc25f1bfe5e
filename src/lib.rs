//! Module resolution and step assembly for a declarative machine
//! provisioner: module files are validated into typed steps, their include
//! graph is walked in pre-order, and the resulting step list is checked
//! and turned into commands before anything runs.

pub mod assembly;
pub mod module;
pub mod paths;
pub mod run;
pub mod script;
pub mod step;
pub mod text;

pub use assembly::{
    gather_includes, get_all_steps, process, process_with_home, LoadOutcome, MrowFile, Step,
    MAX_INCLUDE_DEPTH,
};
pub use module::{ConfigTable, Error, HostInclude, Includes, RawMrowFile};
pub use paths::{collapse_path, join_path, parent_dir, resolve_path};
pub use run::{
    bootstrap_invocations, bootstrap_next, check_os_release, install_packages, plan_step,
    run_commands, unhelped_aur_step, BootstrapStage, CommandOutcome, Invocation,
};
pub use script::ScriptSession;
pub use step::{parse_step, AurHelper, Field, FieldName, Item, RawStep, StepError, StepKind};
