use vstd::prelude::*;

use crate::models::AppConfig;
use crate::storage::{join_path, path_join};
use crate::dev_bridge::{trim_chars, trimmed};
use crate::text::{all_space, chars_of, is_blank, owned, push_str, string_from_chars};

verus! {

/// The project named to the recognizer when none is set.
pub const FALLBACK_PROJECT: &'static str = "今日项目";

/// Recognizes what a screenshot shows, with the local vision model.
pub struct RecognitionService;

/// The project the recognizer is told about.
pub open spec fn spec_project_label(project_name: Seq<char>) -> Seq<char> {
    if all_space(project_name) {
        FALLBACK_PROJECT@
    } else {
        project_name
    }
}

/// The local data folder, or the working folder when there is none.
pub open spec fn data_root(data_local_dir: Option<Seq<char>>) -> Seq<char> {
    match data_local_dir {
        Some(d) => d,
        None => "."@,
    }
}

/// The Python of the app's own virtual environment for the vision worker.
pub open spec fn spec_default_mlx_python_path(data_local_dir: Option<Seq<char>>) -> Seq<char> {
    path_join(
        path_join(
            path_join(path_join(path_join(data_root(data_local_dir), "MindBack"@), "venvs"@), "mlx-worker"@),
            "bin"@,
        ),
        "python"@,
    )
}

/// Where a model downloaded for the app would be kept.
pub open spec fn spec_local_model_path(data_local_dir: Option<Seq<char>>, model: Seq<char>) -> Seq<char> {
    path_join(path_join(path_join(data_root(data_local_dir), "MindBack"@), "models"@), model)
}

impl RecognitionService {
    /// The project to name to the recognizer: the configured one, unless it is blank.
    pub fn project_label(config: &AppConfig) -> (label: String)
        ensures
            label@ == spec_project_label(config.project_name@),
    {
        if is_blank(config.project_name.as_str()) {
            owned(FALLBACK_PROJECT)
        } else {
            config.project_name.clone()
        }
    }
}

fn root_dir(data_local_dir: Option<String>) -> (root: String)
    ensures
        root@ == data_root(data_local_dir.deep_view()),
{
    match data_local_dir {
        Some(d) => d,
        None => owned("."),
    }
}

/// The Python of the app's own virtual environment for the vision worker, under the
/// local data folder (the working folder when there is none).
pub fn default_mlx_python_path(data_local_dir: Option<String>) -> (path: String)
    ensures
        path@ == spec_default_mlx_python_path(data_local_dir.deep_view()),
{
    let root = root_dir(data_local_dir);
    let p = join_path(root.as_str(), "MindBack");
    let p = join_path(p.as_str(), "venvs");
    let p = join_path(p.as_str(), "mlx-worker");
    let p = join_path(p.as_str(), "bin");
    join_path(p.as_str(), "python")
}

/// The Python that runs the vision worker: the app's own when it exists, else `python3`.
pub fn default_mlx_python_command(venv_python: String, venv_python_exists: bool) -> (command:
    String)
    ensures
        venv_python_exists ==> command@ == venv_python@,
        !venv_python_exists ==> command@ == "python3"@,
{
    if venv_python_exists {
        venv_python
    } else {
        owned("python3")
    }
}

/// Where a model downloaded for the app would be kept.
pub fn local_model_path(data_local_dir: Option<String>, model: &str) -> (path: String)
    ensures
        path@ == spec_local_model_path(data_local_dir.deep_view(), model@),
{
    let root = root_dir(data_local_dir);
    let p = join_path(root.as_str(), "MindBack");
    let p = join_path(p.as_str(), "models");
    join_path(p.as_str(), model)
}

/// The model the worker loads: the path the environment names if any, else the
/// configured model when it is a path that exists, else the app's local copy when it
/// exists, else the configured name as it is.
pub fn resolve_model_path(
    model: &str,
    path_override: Option<String>,
    model_is_path: bool,
    local_model: String,
    local_model_exists: bool,
) -> (resolved: String)
    ensures
        path_override is Some ==> resolved@ == path_override->Some_0@,
        path_override is None && model_is_path ==> resolved@ == model@,
        path_override is None && !model_is_path && local_model_exists ==> resolved@
            == local_model@,
        path_override is None && !model_is_path && !local_model_exists ==> resolved@ == model@,
{
    if let Some(p) = path_override {
        return p;
    }
    if model_is_path {
        return owned(model);
    }
    if local_model_exists {
        return local_model;
    }
    owned(model)
}

/// Whether the resident worker is wanted: unless the switch reads `0`.
pub fn resident_worker_enabled(switch: Option<&str>) -> (enabled: bool)
    ensures
        enabled == !(switch matches Some(v) && v@ == "0"@),
{
    match switch {
        Some(v) => !crate::text::str_eq(v, "0"),
        None => true,
    }
}

/// What the worker's first line says of readiness, read as JSON: `None` when the line is
/// no JSON, else the `__ready__` field when it is an object holding a boolean there.
pub uninterp spec fn ready_field(line: Seq<char>) -> Option<Option<bool>>;

/// serde_json's `from_str` into a `Value`, then `get("__ready__")` and `as_bool`. The
/// result is the name `ready_field` of the line: nothing more of the JSON grammar is
/// stated here.
#[verifier::external_body]
fn parse_ready_field(line: &str) -> (r: Option<Option<bool>>)
    ensures
        r == ready_field(line@),
{
    serde_json::from_str::<serde_json::Value>(line).ok().map(|v| v.get("__ready__").and_then(|f| f.as_bool()))
}

/// The message when the worker's first line is no JSON.
pub open spec fn unparsed_ready_message(line: Seq<char>) -> Seq<char> {
    "failed to parse worker ready signal: "@ + line
}

/// The message when the worker's first line is JSON without `"__ready__": true`.
pub open spec fn not_ready_message(line: Seq<char>) -> Seq<char> {
    "worker did not send ready signal: "@ + trimmed(line)
}

/// What the outcome of the worker's first line is, given what its JSON holds.
pub open spec fn spec_ready_outcome(line: Seq<char>, field: Option<Option<bool>>) -> Result<(), Seq<char>> {
    match field {
        None => Err(unparsed_ready_message(line)),
        Some(Some(true)) => Ok(()),
        Some(_) => Err(not_ready_message(line)),
    }
}

/// The outcome of the worker's first line once its `__ready__` field has been read.
pub fn ready_outcome(line: &str, field: Option<Option<bool>>) -> (r: Result<(), String>)
    ensures
        r is Ok <==> spec_ready_outcome(line@, field) is Ok,
        r matches Err(m) ==> spec_ready_outcome(line@, field) == Err::<(), Seq<char>>(m@),
{
    match field {
        None => {
            let mut text: Vec<char> = Vec::new();
            push_str(&mut text, "failed to parse worker ready signal: ");
            push_str(&mut text, line);
            Err(string_from_chars(text.as_slice()))
        },
        Some(Some(true)) => Ok(()),
        Some(_) => {
            let mut text: Vec<char> = Vec::new();
            push_str(&mut text, "worker did not send ready signal: ");
            let cs = chars_of(line);
            let t = trim_chars(cs.as_slice());
            let ghost head = text@;
            let mut i: usize = 0;
            while i < t.len()
                invariant
                    i <= t.len(),
                    text@ == head + t@.take(i as int),
                decreases t.len() - i,
            {
                text.push(t[i]);
                i = i + 1;
                assert(text@ =~= head + t@.take(i as int));
            }
            assert(t@.take(i as int) =~= t@);
            Err(string_from_chars(text.as_slice()))
        },
    }
}

/// Checks the first line the resident worker prints: it must be a JSON object whose
/// `__ready__` field is `true`.
pub fn check_ready_signal(line: &str) -> (r: Result<(), String>)
    ensures
        r is Ok <==> ready_field(line@) == Some(Some(true)),
        r matches Err(m) ==> spec_ready_outcome(line@, ready_field(line@)) == Err::<(), Seq<char>>(m@),
{
    let field = parse_ready_field(line);
    ready_outcome(line, field)
}

/// What the recognizer says of a screenshot, with its confidence held as the bits of an `f32`.
pub struct RecognitionResult {
    pub intent: String,
    pub is_on_project: bool,
    pub confidence_bits: u32,
    pub reason: String,
    pub visible_context: String,
    pub error: Option<String>,
}

/// The intent recorded when the local recognition failed.
pub const RECOGNITION_FAILED: &'static str = "未能完成本地视觉识别";

/// The result that stands for a failed recognition: not on the project, with no
/// confidence (the bits of `0.0`), no visible context, and the error as its reason.
pub fn worker_error(error: String) -> (r: RecognitionResult)
    ensures
        r.intent@ == RECOGNITION_FAILED@,
        !r.is_on_project,
        r.confidence_bits == 0,
        r.reason@ == error@,
        r.visible_context@ == Seq::<char>::empty(),
        r.error matches Some(e) && e@ == error@,
{
    let visible_context = String::new();
    RecognitionResult {
        intent: owned(RECOGNITION_FAILED),
        is_on_project: false,
        confidence_bits: 0,
        reason: error.clone(),
        visible_context,
        error: Some(error),
    }
}

/// The message when the worker could not be started.
pub fn launch_failure_message(detail: &str) -> (m: String)
    ensures
        m@ == "failed to launch MLX worker: "@ + detail@,
{
    let mut text: Vec<char> = Vec::new();
    push_str(&mut text, "failed to launch MLX worker: ");
    push_str(&mut text, detail);
    string_from_chars(text.as_slice())
}

/// The message when the worker exited unsuccessfully.
pub fn exit_failure_message(status: &str, stderr: &str) -> (m: String)
    ensures
        m@ == "MLX worker exited with "@ + status@ + ": "@ + stderr@,
{
    let mut text: Vec<char> = Vec::new();
    push_str(&mut text, "MLX worker exited with ");
    push_str(&mut text, status);
    push_str(&mut text, ": ");
    push_str(&mut text, stderr);
    string_from_chars(text.as_slice())
}

/// The message when the worker's output is no recognition result.
pub fn parse_failure_message(error: &str, stdout: &str, stderr: &str) -> (m: String)
    ensures
        m@ == "failed to parse MLX worker output: "@ + error@ + "; stdout: "@ + stdout@
            + "; stderr: "@ + stderr@,
{
    let mut text: Vec<char> = Vec::new();
    push_str(&mut text, "failed to parse MLX worker output: ");
    push_str(&mut text, error);
    push_str(&mut text, "; stdout: ");
    push_str(&mut text, stdout);
    push_str(&mut text, "; stderr: ");
    push_str(&mut text, stderr);
    string_from_chars(text.as_slice())
}

} // verus!
