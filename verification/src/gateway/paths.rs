//! Where the gateway's files are.

use vstd::prelude::*;

use crate::text;
use crate::text::{push_text, trim};

verus! {

/// The variable that names the gateway's directory.
pub const HOME_VARIABLE: &'static str = "CODEXL_NEXT_AI_GATEWAY_HOME";

/// The variable that names the configuration file.
pub const CONFIG_PATH_VARIABLE: &'static str = "CODEXL_NEXT_AI_GATEWAY_CONFIG_PATH";

/// The variable that names the configuration file where the other one does not.
pub const SHARED_CONFIG_PATH_VARIABLE: &'static str = "GATEWAY_CONFIG_PATH";

/// A path: it starts where `given` says, which may speak of the user's home, or in
/// the application's directory where nothing is given, and goes on with `rest`.
pub struct PlannedPath {
    pub given: Option<String>,
    pub rest: Vec<String>,
}

/// The mathematical view of a path.
#[verifier::ext_equal]
pub struct PathView {
    pub given: Option<Seq<char>>,
    pub rest: Seq<Seq<char>>,
}

impl View for PlannedPath {
    type V = PathView;

    open spec fn view(&self) -> PathView {
        PathView { given: text::opt_string(self.given), rest: text::texts(self.rest@) }
    }
}

/// The gateway's directory.
pub open spec fn home_path(home: Option<Seq<char>>) -> PathView {
    match text::filled(home) {
        Some(path) => PathView { given: Some(path), rest: Seq::empty() },
        None => PathView { given: None, rest: seq!["next-ai-gateway"@] },
    }
}

/// A file in a directory.
pub open spec fn file_in(directory: PathView, name: Seq<char>) -> PathView {
    PathView { given: directory.given, rest: directory.rest.push(name) }
}

/// The configuration file.
pub open spec fn config_path(
    config: Option<Seq<char>>,
    shared_config: Option<Seq<char>>,
    home: Option<Seq<char>>,
) -> PathView {
    match text::filled(config) {
        Some(path) => PathView { given: Some(path), rest: Seq::empty() },
        None => match text::filled(shared_config) {
            Some(path) => PathView { given: Some(path), rest: Seq::empty() },
            None => file_in(home_path(home), "gateway.config.json"@),
        },
    }
}

/// The model catalog.
pub open spec fn catalog_path(home: Option<Seq<char>>) -> PathView {
    file_in(home_path(home), "codex-model-catalog.json"@)
}

/// The path that the value of a variable names: none where it is blank.
pub fn env_path(value: Option<&str>) -> (r: Option<String>)
    ensures
        text::opt_string(r) == text::filled(text::opt_text(value)),
{
    match value {
        Some(value) => {
            let trimmed = trim(value);
            if trimmed.is_empty() {
                None
            } else {
                Some(trimmed.to_owned())
            }
        },
        None => None,
    }
}

/// The path that is given, and nothing behind it.
fn given_path(path: String) -> (r: PlannedPath)
    ensures
        r@ == (PathView { given: Some(path@), rest: Seq::empty() }),
{
    let rest: Vec<String> = Vec::new();
    proof {
        assert(text::texts(rest@) =~= Seq::empty());
    }
    PlannedPath { given: Some(path), rest }
}

/// A file in a directory.
fn join_file(directory: PlannedPath, name: &str) -> (r: PlannedPath)
    ensures
        r@ == file_in(directory@, name@),
{
    let mut rest = directory.rest;
    push_text(&mut rest, name.to_owned());
    PlannedPath { given: directory.given, rest }
}

/// The gateway's directory, by the value of its variable.
pub fn gateway_home_dir(home: Option<&str>) -> (r: PlannedPath)
    ensures
        r@ == home_path(text::opt_text(home)),
{
    match env_path(home) {
        Some(path) => given_path(path),
        None => {
            let mut rest: Vec<String> = Vec::new();
            proof {
                assert(text::texts(rest@) =~= Seq::empty());
            }
            push_text(&mut rest, "next-ai-gateway".to_owned());
            PlannedPath { given: None, rest }
        },
    }
}

/// The configuration file, by the values of the variables.
pub fn gateway_config_path(config: Option<&str>, shared_config: Option<&str>, home: Option<&str>) -> (r:
    PlannedPath)
    ensures
        r@ == config_path(
            text::opt_text(config),
            text::opt_text(shared_config),
            text::opt_text(home),
        ),
{
    match env_path(config) {
        Some(path) => given_path(path),
        None => match env_path(shared_config) {
            Some(path) => given_path(path),
            None => join_file(gateway_home_dir(home), "gateway.config.json"),
        },
    }
}

/// The model catalog, by the value of the directory's variable.
pub fn codex_model_catalog_path(home: Option<&str>) -> (r: PlannedPath)
    ensures
        r@ == catalog_path(text::opt_text(home)),
{
    join_file(gateway_home_dir(home), "codex-model-catalog.json")
}

/// Where no variable names the configuration file, it stands beside the model
/// catalog; the catalog's place does not depend on the variables that do.
pub proof fn law_files_stand_together(
    config: Option<Seq<char>>,
    shared_config: Option<Seq<char>>,
    home: Option<Seq<char>>,
)
    requires
        text::filled(config) is None,
        text::filled(shared_config) is None,
    ensures
        exists|directory: PathView|
            config_path(config, shared_config, home) == #[trigger] file_in(
                directory,
                "gateway.config.json"@,
            ) && catalog_path(home) == file_in(directory, "codex-model-catalog.json"@),
{
    assert(config_path(config, shared_config, home) == file_in(
        home_path(home),
        "gateway.config.json"@,
    ));
}

/// The gateway's directory is what its variable says, without white space around it,
/// and `next-ai-gateway` in the application's directory where that is blank.
pub proof fn law_home_path(home: Option<Seq<char>>)
    ensures
        ({
            let path = home_path(home);
            let blank = home is None || text::trimmed(home->Some_0).len() == 0;
            &&& blank ==> path.given is None && path.rest.len() == 1 && path.rest[0]
                == "next-ai-gateway"@
            &&& !blank ==> path.given == Some(text::trimmed(home->Some_0)) && path.rest.len() == 0
        }),
{
}

/// The configuration file is what its own variable says; where that is blank, what the
/// shared one says; and where both are, `gateway.config.json` in the gateway's
/// directory.
pub proof fn law_config_path(
    config: Option<Seq<char>>,
    shared_config: Option<Seq<char>>,
    home: Option<Seq<char>>,
)
    ensures
        ({
            let path = config_path(config, shared_config, home);
            let own_blank = config is None || text::trimmed(config->Some_0).len() == 0;
            let shared_blank = shared_config is None || text::trimmed(shared_config->Some_0).len()
                == 0;
            &&& !own_blank ==> path.given == Some(text::trimmed(config->Some_0)) && path.rest.len()
                == 0
            &&& own_blank && !shared_blank ==> path.given == Some(
                text::trimmed(shared_config->Some_0),
            ) && path.rest.len() == 0
            &&& own_blank && shared_blank ==> path.given == home_path(home).given && path.rest
                == home_path(home).rest + seq!["gateway.config.json"@]
        }),
{
    assert(home_path(home).rest.push("gateway.config.json"@) =~= home_path(home).rest
        + seq!["gateway.config.json"@]);
}

/// The model catalog is `codex-model-catalog.json` in the gateway's directory.
pub proof fn law_catalog_path(home: Option<Seq<char>>)
    ensures
        catalog_path(home).given == home_path(home).given,
        catalog_path(home).rest == home_path(home).rest + seq!["codex-model-catalog.json"@],
{
    assert(home_path(home).rest.push("codex-model-catalog.json"@) =~= home_path(home).rest
        + seq!["codex-model-catalog.json"@]);
}

/// The variables are named as they are documented.
pub proof fn law_variable_names()
    ensures
        HOME_VARIABLE@ == "CODEXL_NEXT_AI_GATEWAY_HOME"@,
        CONFIG_PATH_VARIABLE@ == "CODEXL_NEXT_AI_GATEWAY_CONFIG_PATH"@,
        SHARED_CONFIG_PATH_VARIABLE@ == "GATEWAY_CONFIG_PATH"@,
{
}

} // verus!
