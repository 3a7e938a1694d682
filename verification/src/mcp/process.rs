//! How Frama-C is started: its arguments, its files, and what is said where it
//! does not start.

use vstd::prelude::*;
use vstd::string::*;

use crate::error::{McpError, McpErrorKind};
use crate::mcp::paths;
use crate::mcp::paths::join_path;
use crate::state::SessionState;
use crate::text;

verus! {

/// The main instance of Frama-C, as it runs.
pub struct MainFramaCState {
    pub socket_path: String,
    pub files: Vec<String>,
    pub with_rte: bool,
}

/// How files get into the main instance.
#[derive(Debug, Clone, Copy, PartialEq, Eq, Structural)]
pub enum Launch {
    /// A new Frama-C is started; one that runs is ended.
    Spawn,
    /// The one that runs loads them.
    InPlace,
}

/// Whether the instance that runs, if any, generates run-time-error annotations.
pub open spec fn setting_of(current: Option<MainFramaCState>) -> Option<bool> {
    match current {
        Some(s) => Some(s.with_rte),
        None => None,
    }
}

/// Frama-C is started where none runs, or where one runs with the other setting of
/// run-time-error generation, which is an argument of the program.
pub open spec fn launch(setting: Option<bool>, with_rte: bool) -> Launch {
    if setting == Some(with_rte) {
        Launch::InPlace
    } else {
        Launch::Spawn
    }
}

/// How files get into the main instance.
pub fn plan_launch(current: &Option<MainFramaCState>, with_rte: bool) -> (r: Launch)
    ensures
        r == launch(setting_of(*current), with_rte),
{
    match current {
        Some(s) => if s.with_rte == with_rte {
            Launch::InPlace
        } else {
            Launch::Spawn
        },
        None => Launch::Spawn,
    }
}

/// The state once the files are loaded: with a new socket where Frama-C was
/// started, else as before but for the files. A project is loaded from then on.
pub fn launched(
    session: &mut SessionState,
    current: Option<MainFramaCState>,
    files: Vec<String>,
    with_rte: bool,
    socket_path: String,
) -> (r: MainFramaCState)
    ensures
        *final(session) == (SessionState { project_loaded: true, ..*old(session) }),
        r.files == files,
        r.with_rte == with_rte,
        r.socket_path == (if launch(setting_of(current), with_rte) == Launch::InPlace {
            current->0.socket_path
        } else {
            socket_path
        }),
{
    session.project_loaded = true;
    match current {
        Some(s) => if s.with_rte == with_rte {
            MainFramaCState { socket_path: s.socket_path, files, with_rte }
        } else {
            MainFramaCState { socket_path, files, with_rte }
        },
        None => MainFramaCState { socket_path, files, with_rte },
    }
}

/// Once the main instance runs, Frama-C is started again exactly when the setting
/// of run-time-error generation changes.
pub proof fn only_a_new_setting_restarts(first: bool, second: bool)
    ensures
        launch(Some(first), second) == Launch::Spawn <==> first != second,
        launch(None, first) == Launch::Spawn,
{
}

/// The socket of the main instance that process `pid` starts.
pub fn main_socket(pid: u32) -> (r: String)
    ensures
        r@ == "/tmp/frama-c-mcp-"@ + text::decimal(pid as nat) + ".sock"@,
{
    "/tmp/frama-c-mcp-".to_owned().concat(text::decimal_text(pid as u64).as_str()).concat(".sock")
}

/// Where the logs of the main instance are.
pub fn main_log_dir() -> (r: String)
    ensures
        r@ == "/tmp/frama-c-mcp-logs"@,
{
    "/tmp/frama-c-mcp-logs".to_owned()
}

/// The log of what the main instance prints to its standard output, or to its
/// standard error.
pub fn main_log(pid: u32, errors: bool) -> (r: String)
    ensures
        r@ == "/tmp/frama-c-mcp-logs/main-"@ + text::decimal(pid as nat) + (if errors {
            ".stderr.log"@
        } else {
            ".stdout.log"@
        }),
{
    let name = "/tmp/frama-c-mcp-logs/main-".to_owned().concat(
        text::decimal_text(pid as u64).as_str(),
    );
    if errors {
        name.concat(".stderr.log")
    } else {
        name.concat(".stdout.log")
    }
}

/// Adds an argument at the end.
fn add_argument(list: &mut Vec<String>, a: &str)
    ensures
        text::texts(final(list)@) == text::texts(old(list)@).push(a@),
{
    list.push(a.to_owned());
    assert(text::texts(list@) =~= text::texts(old(list)@).push(a@));
}

/// The arguments of the main instance.
pub open spec fn main_args(files: Seq<Seq<char>>, socket: Seq<char>, rte: bool) -> Seq<Seq<char>> {
    let common = files + seq![
        "-load-module"@,
        "ast_utils_plugin"@,
        "-server-socket"@,
        socket,
        "-wp-prover"@,
        "Alt-Ergo,CVC5,Z3"@,
        "-wp-model"@,
        "Typed+nocast"@,
    ];
    if rte {
        common.push("-rte"@)
    } else {
        common
    }
}

/// The arguments that the main instance is started with.
pub fn main_arguments(files: &[String], socket: &str, rte: bool) -> (r: Vec<String>)
    ensures
        text::texts(r@) == main_args(text::texts(files@), socket@, rte),
{
    let mut r: Vec<String> = Vec::new();
    let ghost names = text::texts(files@);
    let mut i: usize = 0;
    assert(text::texts(r@) =~= names.take(0));
    while i < files.len()
        invariant
            i <= files@.len(),
            names == text::texts(files@),
            text::texts(r@) == names.take(i as int),
        decreases files@.len() - i,
    {
        add_argument(&mut r, files[i].as_str());
        assert(names.take(i as int).push(files@[i as int]@) =~= names.take(i + 1));
        i = i + 1;
    }
    add_argument(&mut r, "-load-module");
    add_argument(&mut r, "ast_utils_plugin");
    add_argument(&mut r, "-server-socket");
    add_argument(&mut r, socket);
    add_argument(&mut r, "-wp-prover");
    add_argument(&mut r, "Alt-Ergo,CVC5,Z3");
    add_argument(&mut r, "-wp-model");
    add_argument(&mut r, "Typed+nocast");
    assert(text::texts(r@) =~= main_args(names, socket@, false));
    if rte {
        add_argument(&mut r, "-rte");
    }
    r
}

/// The arguments of a sandbox. A helper that looks unused in the one function that
/// is cut out is kept, and an annotation that refers to what was not cut out is no
/// error.
pub open spec fn sandbox_args(file: Seq<char>, socket: Seq<char>) -> Seq<Seq<char>> {
    seq![
        file,
        "-keep-unused-functions"@,
        "all"@,
        "-keep-unused-types"@,
        "-server-socket"@,
        socket,
        "-wp-prover"@,
        "Alt-Ergo,CVC5,Z3"@,
        "-wp-model"@,
        "Typed+nocast"@,
        "-kernel-warn-key"@,
        "annot-error=feedback"@,
    ]
}

/// The arguments that a sandbox is started with.
pub fn sandbox_arguments(file: &str, socket: &str) -> (r: Vec<String>)
    ensures
        text::texts(r@) == sandbox_args(file@, socket@),
{
    let mut r: Vec<String> = Vec::new();
    add_argument(&mut r, file);
    add_argument(&mut r, "-keep-unused-functions");
    add_argument(&mut r, "all");
    add_argument(&mut r, "-keep-unused-types");
    add_argument(&mut r, "-server-socket");
    add_argument(&mut r, socket);
    add_argument(&mut r, "-wp-prover");
    add_argument(&mut r, "Alt-Ergo,CVC5,Z3");
    add_argument(&mut r, "-wp-model");
    add_argument(&mut r, "Typed+nocast");
    add_argument(&mut r, "-kernel-warn-key");
    add_argument(&mut r, "annot-error=feedback");
    assert(text::texts(r@) =~= sandbox_args(file@, socket@));
    r
}

/// The files of a sandbox.
pub struct SandboxPaths {
    pub dir: String,
    pub file: String,
    pub socket: String,
    pub stdout_log: String,
    pub stderr_log: String,
}

/// The directory of the sandbox of an experiment.
pub open spec fn sandbox_dir(experiment_id: Seq<char>) -> Seq<char> {
    "/tmp/frama-c-sandbox-"@ + experiment_id
}

/// These are the files of the sandbox of an experiment, all in its directory.
pub open spec fn are_paths_of(p: SandboxPaths, experiment_id: Seq<char>) -> bool {
    let dir = sandbox_dir(experiment_id);
    &&& p.dir@ == dir
    &&& p.file@ == paths::joined_path(dir, "sandbox.c"@)
    &&& p.socket@ == paths::joined_path(dir, "frama-c.sock"@)
    &&& p.stdout_log@ == paths::joined_path(dir, "sandbox.stdout.log"@)
    &&& p.stderr_log@ == paths::joined_path(dir, "sandbox.stderr.log"@)
}

/// The files of the sandbox of an experiment, all in its directory.
pub fn sandbox_paths(experiment_id: &str) -> (r: SandboxPaths)
    ensures
        are_paths_of(r, experiment_id@),
{
    let dir = "/tmp/frama-c-sandbox-".to_owned().concat(experiment_id);
    let file = join_path(dir.as_str(), "sandbox.c");
    let socket = join_path(dir.as_str(), "frama-c.sock");
    let stdout_log = join_path(dir.as_str(), "sandbox.stdout.log");
    let stderr_log = join_path(dir.as_str(), "sandbox.stderr.log");
    SandboxPaths { dir, file, socket, stdout_log, stderr_log }
}

/// The last `n` of the parts.
pub open spec fn last_of(parts: Seq<Seq<char>>, n: nat) -> Seq<Seq<char>> {
    if parts.len() > n {
        parts.skip(parts.len() - n)
    } else {
        parts
    }
}

/// The last 20 lines of a log, or a note where there is no log.
pub open spec fn log_tail(log: Option<Seq<char>>) -> Seq<char> {
    match log {
        Some(s) => text::joined(last_of(text::lines_of(s), 20), "\n"@),
        None => "(no stderr log)"@,
    }
}

/// The end of a log, for a message.
pub fn stderr_tail(log: Option<&str>) -> (r: String)
    ensures
        r@ == log_tail(
            (match log {
                Some(s) => Some(s@),
                None => None,
            }),
        ),
{
    match log {
        Some(s) => {
            let lines = text::lines(s);
            let ghost all = text::texts(lines@);
            let first: usize = if lines.len() > 20 {
                lines.len() - 20
            } else {
                0
            };
            let mut tail: Vec<String> = Vec::new();
            let mut i: usize = first;
            assert(text::texts(tail@) =~= all.subrange(first as int, first as int));
            while i < lines.len()
                invariant
                    first <= i <= lines@.len(),
                    all == text::texts(lines@),
                    text::texts(tail@) == all.subrange(first as int, i as int),
                decreases lines@.len() - i,
            {
                let line = lines[i].clone();
                proof {
                    assert(text::texts(tail@.push(line)) =~= text::texts(tail@).push(line@));
                    assert(all.subrange(first as int, i as int).push(line@) =~= all.subrange(
                        first as int,
                        i + 1,
                    ));
                }
                tail.push(line);
                i = i + 1;
            }
            proof {
                assert(all.subrange(first as int, i as int) =~= last_of(all, 20));
            }
            text::join(&tail, "\n")
        },
        None => "(no stderr log)".to_owned(),
    }
}

/// An error of the server itself.
pub fn internal_error(message: String) -> (r: McpError)
    ensures
        r.kind == McpErrorKind::InternalError,
        r.message == message,
{
    McpError { kind: McpErrorKind::InternalError, message }
}

/// The error where a sandbox does not open its socket in time.
pub fn sandbox_not_started(frama_c: &str, file: &str, log: Option<&str>) -> (r: McpError)
    ensures
        r.kind == McpErrorKind::InternalError,
        r.message@ == "sandbox frama-c failed to start (socket not found after 10s).\nbinary: "@
            + frama_c@ + "\nsandbox_file: "@ + file@ + "\nstderr (last 20 lines):\n"@ + log_tail(
            (match log {
                Some(s) => Some(s@),
                None => None,
            }),
        ),
{
    let tail = stderr_tail(log);
    internal_error(
        "sandbox frama-c failed to start (socket not found after 10s).\nbinary: ".to_owned().concat(
            frama_c,
        ).concat("\nsandbox_file: ").concat(file).concat("\nstderr (last 20 lines):\n").concat(
            tail.as_str(),
        ),
    )
}

/// The error where the main instance does not open its socket in time.
pub fn main_not_started(log: Option<&str>) -> (r: McpError)
    ensures
        r.kind == McpErrorKind::InternalError,
        r.message@ == "frama-c failed to start (socket missing after 10s)\nstderr:\n"@ + log_tail(
            (match log {
                Some(s) => Some(s@),
                None => None,
            }),
        ),
{
    let tail = stderr_tail(log);
    internal_error(
        "frama-c failed to start (socket missing after 10s)\nstderr:\n".to_owned().concat(
            tail.as_str(),
        ),
    )
}

/// The error where a step of starting a process fails: what was tried, then why it
/// failed.
pub fn step_failed(step: &str, reason: &str) -> (r: McpError)
    ensures
        r.kind == McpErrorKind::InternalError,
        r.message@ == step@ + ": "@ + reason@,
{
    internal_error(step.to_owned().concat(": ").concat(reason))
}

} // verus!
