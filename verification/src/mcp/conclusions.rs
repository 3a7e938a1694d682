//! Conclusions on disk, and what is said of them.
//!
//! Each function has a directory. Its short fields are in `meta.json`; its long
//! texts are in files of their own, which are also edited by hand. So an empty
//! text in memory never empties or removes a file.

use vstd::prelude::*;
use vstd::string::*;

use crate::error::{McpError, McpErrorKind};
use crate::json;
use crate::json::{Json, JsonObject, JsonView};
use crate::mcp::param_compat::invalid_params;
use crate::mcp::paths;
use crate::mcp::paths::{FileWrite, join_path};
use crate::mcp::types::StoreProjectStateParams;
use crate::state::conclusion::VerificationStatus;
use crate::state::project::ProjectStateUpdate;
use crate::text;

verus! {

// ----------------------------------------------------------------------------
// Files
// ----------------------------------------------------------------------------

/// The directory of all conclusions.
pub fn conclusion_base_dir() -> (r: String)
    ensures
        r@ == ".frama-c-mcp"@,
{
    ".frama-c-mcp".to_owned()
}

/// The directory of a function's conclusion.
pub fn conclusion_dir(func: &str) -> (r: String)
    ensures
        r@ == paths::joined_path(".frama-c-mcp"@, func@),
{
    join_path(".frama-c-mcp", func)
}

/// The names of the long texts of a conclusion.
pub open spec fn long_text_fields() -> Seq<Seq<char>> {
    seq!["semantic_proof"@, "semiformal_proof"@, "program_summary"@]
}

/// The files of the long texts of a conclusion.
pub open spec fn long_text_files() -> Seq<Seq<char>> {
    long_text_fields().map_values(|f: Seq<char>| f + ".md"@)
}

/// The files of the long texts of a conclusion.
pub fn list_long_text_files() -> (r: Vec<String>)
    ensures
        text::texts(r@) == long_text_files(),
{
    let mut r: Vec<String> = Vec::new();
    r.push("semantic_proof".to_owned().concat(".md"));
    r.push("semiformal_proof".to_owned().concat(".md"));
    r.push("program_summary".to_owned().concat(".md"));
    assert(text::texts(r@) =~= long_text_files());
    r
}

/// The file that a `.md` file is written to first: it has `md.tmp` as extension.
pub open spec fn tmp_of(path: Seq<char>) -> Seq<char> {
    if paths::is_bare_extension(path, ".md"@) {
        path + ".md.tmp"@
    } else {
        path + ".tmp"@
    }
}

/// How a long text gets into its file: the file is replaced, or left alone where
/// the text is empty.
pub fn write_long_text_field(dir: &str, field_basename: &str, content: &str) -> (r: Option<
    FileWrite,
>)
    ensures
        if content@.len() == 0 {
            r is None
        } else {
            r matches Some(w) && w.path@ == paths::joined_path(dir@, field_basename@ + ".md"@)
                && w.tmp@ == tmp_of(w.path@) && w.content@ == content@
        },
{
    if content.is_empty() {
        return None;
    }
    let name = field_basename.to_owned().concat(".md");
    let path = join_path(dir, name.as_str());
    let tmp = if paths::bare_extension(path.as_str(), ".md") {
        path.clone().concat(".md.tmp")
    } else {
        path.clone().concat(".tmp")
    };
    Some(FileWrite { path, tmp, content: content.to_owned() })
}

/// How the short fields of a conclusion get into their file.
pub fn meta_write(base_dir: &str, func: &str, content: String) -> (r: FileWrite)
    ensures
        r.path@ == paths::joined_path(paths::joined_path(base_dir@, func@), "meta.json"@),
        r.tmp@ == paths::joined_path(paths::joined_path(base_dir@, func@), "meta.json.tmp"@),
        r.content == content,
{
    let dir = join_path(base_dir, func);
    let path = join_path(dir.as_str(), "meta.json");
    let tmp = join_path(dir.as_str(), "meta.json.tmp");
    FileWrite { path, tmp, content }
}

/// How the state of the project gets into its file.
pub fn program_write(base_dir: &str, content: String) -> (r: FileWrite)
    ensures
        r.path@ == paths::joined_path(base_dir@, "_program.json"@),
        r.tmp@ == paths::joined_path(base_dir@, "_program.json.tmp"@),
        r.content == content,
{
    let path = join_path(base_dir, "_program.json");
    let tmp = join_path(base_dir, "_program.json.tmp");
    FileWrite { path, tmp, content }
}

// ----------------------------------------------------------------------------
// Contents
// ----------------------------------------------------------------------------

/// The texts that also occur in the other list, in order.
pub open spec fn common(all: Seq<Seq<char>>, existing: Seq<Seq<char>>) -> Seq<Seq<char>> {
    all.filter(|f: Seq<char>| existing.contains(f))
}

/// The note in `meta.json` that says which long texts are in files of their own.
pub open spec fn manifest(files: Seq<Seq<char>>) -> JsonView {
    json::no_fields().with(
        "_comment"@,
        JsonView::Text(
            "长文本字段的真相在下列 .md 文件（同目录）。要看完整 conclusion 请调 get_function_conclusion 工具（自动从 .md 组装）"@,
        ),
    ).with("files"@, json::text_list(files))
}

/// The short fields with the note on the long texts that have a file. Without any,
/// there is no note.
pub open spec fn with_manifest(meta: JsonView, existing: Seq<Seq<char>>) -> JsonView {
    let files = common(long_text_files(), existing);
    if files.len() == 0 {
        meta
    } else {
        meta.with("_long_text_files"@, manifest(files))
    }
}

fn is_listed(list: &Vec<String>, s: &str) -> (r: bool)
    ensures
        r == text::texts(list@).contains(s@),
{
    let ghost all = text::texts(list@);
    let mut i: usize = 0;
    while i < list.len()
        invariant
            i <= list@.len(),
            all == text::texts(list@),
            forall|j: int| 0 <= j < i ==> #[trigger] all[j] != s@,
        decreases list@.len() - i,
    {
        assert(all[i as int] == list@[i as int]@);
        if text::same_text(list[i].as_str(), s) {
            return true;
        }
        i = i + 1;
    }
    false
}

/// The short fields as they are written to `meta.json`, given which files there are
/// beside it.
pub fn meta_with_manifest(meta: Json, existing: &Vec<String>) -> (r: Json)
    ensures
        r@ == with_manifest(meta@, text::texts(existing@)),
{
    let known = list_long_text_files();
    let ghost all = text::texts(known@);
    let ghost pred = |f: Seq<char>| text::texts(existing@).contains(f);
    let mut files: Vec<String> = Vec::new();
    let mut i: usize = 0;
    proof {
        reveal(Seq::filter);
        assert(text::texts(files@) =~= all.take(0).filter(pred));
    }
    while i < known.len()
        invariant
            i <= known@.len(),
            all == text::texts(known@),
            pred == (|f: Seq<char>| text::texts(existing@).contains(f)),
            text::texts(files@) == all.take(i as int).filter(pred),
        decreases known@.len() - i,
    {
        proof {
            reveal(Seq::filter);
            assert(all.take(i + 1).drop_last() =~= all.take(i as int));
            assert(all.take(i + 1).last() == known@[i as int]@);
        }
        if is_listed(existing, known[i].as_str()) {
            let f = known[i].clone();
            assert(text::texts(files@.push(f)) =~= text::texts(files@).push(f@));
            files.push(f);
        }
        i = i + 1;
    }
    assert(all.take(i as int) =~= all);
    assert(files@.len() == text::texts(files@).len());
    if files.len() == 0 {
        meta
    } else {
        let note = Json::object().with(
            "_comment",
            Json::text(
                "长文本字段的真相在下列 .md 文件（同目录）。要看完整 conclusion 请调 get_function_conclusion 工具（自动从 .md 组装）",
            ),
        ).with("files", Json::texts(files.as_slice()));
        meta.with("_long_text_files", note)
    }
}

/// The text of a file, or the empty text where there is no file.
pub open spec fn text_or_nothing(s: Option<Seq<char>>) -> Seq<char> {
    match s {
        Some(t) => t,
        None => Seq::empty(),
    }
}

/// The long texts as fields. The two proofs are always there; the summary is left
/// out where it has no file.
pub open spec fn long_texts(
    semantic_proof: Option<Seq<char>>,
    semiformal_proof: Option<Seq<char>>,
    program_summary: Option<Seq<char>>,
) -> Seq<(Seq<char>, JsonView)> {
    let proofs = json::with_field(
        json::with_field(
            Seq::empty(),
            "semantic_proof"@,
            JsonView::Text(text_or_nothing(semantic_proof)),
        ),
        "semiformal_proof"@,
        JsonView::Text(text_or_nothing(semiformal_proof)),
    );
    match program_summary {
        Some(s) => json::with_field(proofs, "program_summary"@, JsonView::Text(s)),
        None => proofs,
    }
}

fn text_of_file(s: Option<&str>) -> (r: Json)
    ensures
        r@ == JsonView::Text(text_or_nothing(text::opt_text(s))),
{
    match s {
        Some(t) => Json::text(t),
        None => Json::Text(String::new()),
    }
}

/// The long texts as fields, given what was read from each file, where there is
/// one.
pub fn read_long_texts_as_json(
    semantic_proof: Option<&str>,
    semiformal_proof: Option<&str>,
    program_summary: Option<&str>,
) -> (r: JsonObject)
    ensures
        r@ == long_texts(
            text::opt_text(semantic_proof),
            text::opt_text(semiformal_proof),
            text::opt_text(program_summary),
        ),
{
    let mut r = JsonObject::new();
    r.insert("semantic_proof".to_owned(), text_of_file(semantic_proof));
    r.insert("semiformal_proof".to_owned(), text_of_file(semiformal_proof));
    match program_summary {
        Some(s) => {
            r.insert("program_summary".to_owned(), Json::text(s));
        },
        None => {},
    }
    r
}

/// The record with all of the fields set, in order.
pub open spec fn with_fields(v: JsonView, fields: Seq<(Seq<char>, JsonView)>) -> JsonView
    decreases fields.len(),
{
    if fields.len() == 0 {
        v
    } else {
        with_fields(v, fields.drop_last()).with(fields.last().0, fields.last().1)
    }
}

/// The conclusion as it is shown: its short fields, and the long texts as they are
/// in their files now.
pub fn conclusion_report(meta: Json, long_texts: &JsonObject) -> (r: Json)
    ensures
        r@ == with_fields(meta@, long_texts@),
{
    let ghost start = meta@;
    let mut r = meta;
    let mut i: usize = 0;
    assert(with_fields(start, long_texts@.take(0)) == start);
    while i < long_texts.len()
        invariant
            i <= long_texts@.len(),
            r@ == with_fields(start, long_texts@.take(i as int)),
        decreases long_texts@.len() - i,
    {
        proof {
            assert(long_texts@.take(i + 1).drop_last() =~= long_texts@.take(i as int));
            assert(long_texts@.take(i + 1).last() == long_texts@[i as int]);
        }
        r = r.with(long_texts.key(i).as_str(), long_texts.value(i).clone());
        i = i + 1;
    }
    assert(long_texts@.take(i as int) =~= long_texts@);
    r
}

/// What is shown of a long text is what its file holds, also where the short
/// fields were stored before the file was edited.
pub proof fn shown_texts_are_those_on_disk(
    meta: Seq<(Seq<char>, JsonView)>,
    semantic_proof: Option<Seq<char>>,
    semiformal_proof: Option<Seq<char>>,
    program_summary: Option<Seq<char>>,
)
    ensures
        ({
            let shown = with_fields(
                JsonView::Record(meta),
                long_texts(semantic_proof, semiformal_proof, program_summary),
            );
            &&& shown.field("semantic_proof"@) == Some(
                JsonView::Text(text_or_nothing(semantic_proof)),
            )
            &&& shown.field("semiformal_proof"@) == Some(
                JsonView::Text(text_or_nothing(semiformal_proof)),
            )
            &&& program_summary matches Some(s) ==> shown.field("program_summary"@) == Some(
                JsonView::Text(s),
            )
        }),
{
    reveal_strlit("semantic_proof");
    reveal_strlit("semiformal_proof");
    reveal_strlit("program_summary");
    assert("semantic_proof"@[4] != "semiformal_proof"@[4]);
    assert("semantic_proof"@[0] != "program_summary"@[0]);
    assert("semiformal_proof"@[0] != "program_summary"@[0]);
    let a = ("semantic_proof"@, JsonView::Text(text_or_nothing(semantic_proof)));
    let b = ("semiformal_proof"@, JsonView::Text(text_or_nothing(semiformal_proof)));
    let empty = Seq::<(Seq<char>, JsonView)>::empty();
    reveal_with_fuel(json::with_field, 4);
    reveal_with_fuel(with_fields, 4);
    let one = json::with_field(empty, a.0, a.1);
    assert(one =~= seq![a]);
    let two = json::with_field(one, b.0, b.1);
    assert(one.drop_first() =~= empty);
    assert(two =~= seq![a, b]);
    let m0 = meta;
    let m1 = json::with_field(m0, a.0, a.1);
    let m2 = json::with_field(m1, b.0, b.1);
    json::field_set_is_field_found(m0, a.0, a.1, b.0);
    json::field_set_is_field_found(m1, b.0, b.1, a.0);
    assert(two.drop_last() =~= one);
    assert(one.drop_last() =~= empty);
    assert(with_fields(JsonView::Record(m0), one) == JsonView::Record(m1));
    assert(with_fields(JsonView::Record(m0), two) == JsonView::Record(m2));
    match program_summary {
        Some(s) => {
            let c = ("program_summary"@, JsonView::Text(s));
            let three = json::with_field(two, c.0, c.1);
            assert(two.drop_first() =~= seq![b]);
            assert(seq![b].drop_first() =~= empty);
            assert(three =~= seq![a, b, c]);
            assert(three.drop_last() =~= two);
            json::field_set_is_field_found(m2, c.0, c.1, a.0);
            json::field_set_is_field_found(m2, c.0, c.1, b.0);
            assert(with_fields(JsonView::Record(m0), three) == JsonView::Record(
                json::with_field(m2, c.0, c.1),
            ));
        },
        None => {},
    }
}

// ----------------------------------------------------------------------------
// Status
// ----------------------------------------------------------------------------

/// The text of a status.
pub open spec fn status_text(s: VerificationStatus) -> Seq<char> {
    match s {
        VerificationStatus::InProgress => "in_progress"@,
        VerificationStatus::Verified => "verified"@,
        VerificationStatus::Failed => "failed"@,
        VerificationStatus::Unsound => "unsound"@,
        VerificationStatus::BlockedOnCallee => "blocked_on_callee"@,
    }
}

/// The text of a status.
pub fn status_name(s: VerificationStatus) -> (r: String)
    ensures
        r@ == status_text(s),
{
    match s {
        VerificationStatus::InProgress => "in_progress".to_owned(),
        VerificationStatus::Verified => "verified".to_owned(),
        VerificationStatus::Failed => "failed".to_owned(),
        VerificationStatus::Unsound => "unsound".to_owned(),
        VerificationStatus::BlockedOnCallee => "blocked_on_callee".to_owned(),
    }
}

/// The status that a text stands for.
pub open spec fn status_named(s: Seq<char>) -> Option<VerificationStatus> {
    if s == "verified"@ {
        Some(VerificationStatus::Verified)
    } else if s == "failed"@ {
        Some(VerificationStatus::Failed)
    } else if s == "unsound"@ {
        Some(VerificationStatus::Unsound)
    } else if s == "blocked_on_callee"@ {
        Some(VerificationStatus::BlockedOnCallee)
    } else if s == "in_progress"@ {
        Some(VerificationStatus::InProgress)
    } else {
        None
    }
}

/// The status that a text stands for, or what is wrong with the text.
pub fn parse_conclusion_status(s: &str) -> (r: Result<VerificationStatus, String>)
    ensures
        match status_named(s@) {
            Some(v) => r matches Ok(x) && x == v,
            None => r matches Err(e) && e@ == "invalid status '"@ + s@
                + "', expected: verified|failed|unsound|blocked_on_callee|in_progress"@,
        },
{
    if text::same_text(s, "verified") {
        Ok(VerificationStatus::Verified)
    } else if text::same_text(s, "failed") {
        Ok(VerificationStatus::Failed)
    } else if text::same_text(s, "unsound") {
        Ok(VerificationStatus::Unsound)
    } else if text::same_text(s, "blocked_on_callee") {
        Ok(VerificationStatus::BlockedOnCallee)
    } else if text::same_text(s, "in_progress") {
        Ok(VerificationStatus::InProgress)
    } else {
        Err(
            "invalid status '".to_owned().concat(s).concat(
                "', expected: verified|failed|unsound|blocked_on_callee|in_progress",
            ),
        )
    }
}

/// The status in a call, where one is given.
pub fn given_status(status: &Option<String>) -> (r: Result<Option<VerificationStatus>, McpError>)
    ensures
        match text::opt_string(*status) {
            None => r matches Ok(None),
            Some(s) => match status_named(s) {
                Some(v) => r matches Ok(Some(x)) && x == v,
                None => r matches Err(e) && e.kind == McpErrorKind::InvalidParams && e.message@
                    == "invalid status '"@ + s
                    + "', expected: verified|failed|unsound|blocked_on_callee|in_progress"@,
            },
        },
{
    match status {
        None => Ok(None),
        Some(s) => match parse_conclusion_status(s.as_str()) {
            Ok(v) => Ok(Some(v)),
            Err(m) => Err(invalid_params(m)),
        },
    }
}

/// A status is read back from its text, and no two have the same.
pub proof fn status_reads_back(s: VerificationStatus)
    ensures
        status_named(status_text(s)) == Some(s),
{
    reveal_strlit("verified");
    reveal_strlit("failed");
    reveal_strlit("unsound");
    reveal_strlit("blocked_on_callee");
    reveal_strlit("in_progress");
    assert("verified"@[0] != "failed"@[0]);
    assert("verified"@[0] != "unsound"@[0]);
    assert("verified"@[0] != "blocked_on_callee"@[0]);
    assert("verified"@[0] != "in_progress"@[0]);
    assert("failed"@[0] != "unsound"@[0]);
    assert("failed"@[0] != "blocked_on_callee"@[0]);
    assert("failed"@[0] != "in_progress"@[0]);
    assert("unsound"@[0] != "blocked_on_callee"@[0]);
    assert("unsound"@[0] != "in_progress"@[0]);
    assert("blocked_on_callee"@[0] != "in_progress"@[0]);
}

// ----------------------------------------------------------------------------
// What is said
// ----------------------------------------------------------------------------

/// The error where a field of a conclusion does not have its shape.
pub fn invalid_field(field: &str, reason: &str) -> (r: McpError)
    ensures
        r.kind == McpErrorKind::InvalidParams,
        r.message@ == "invalid "@ + field@ + ": "@ + reason@,
{
    invalid_params("invalid ".to_owned().concat(field).concat(": ").concat(reason))
}

/// What is said once a conclusion is stored, and where it could not be written to
/// disk.
pub fn stored_report(func: &str, persist_error: Option<&str>) -> (r: String)
    ensures
        r@ == (match persist_error {
            Some(e) => "{\"stored\": \""@ + func@ + "\", \"persist_error\": \""@ + e@ + "\"}"@,
            None => "{\"stored\": \""@ + func@ + "\"}"@,
        }),
{
    match persist_error {
        Some(e) => "{\"stored\": \"".to_owned().concat(func).concat(
            "\", \"persist_error\": \"",
        ).concat(e).concat("\"}"),
        None => "{\"stored\": \"".to_owned().concat(func).concat("\"}"),
    }
}

/// The error where nothing is stored of a function.
pub fn no_conclusion(func: &str) -> (r: McpError)
    ensures
        r.kind == McpErrorKind::InvalidParams,
        r.message@ == "no conclusion stored for function '"@ + func@ + "'"@,
{
    invalid_params("no conclusion stored for function '".to_owned().concat(func).concat("'"))
}

/// The fields of the project that a call changes, where it does not give the whole
/// state.
pub fn project_update(params: StoreProjectStateParams) -> (r: ProjectStateUpdate)
    ensures
        r.source_files == params.source_files,
        r.verification_order == params.verification_order,
        r.current_index == params.current_index,
        r.global_notes == params.global_notes,
        (ProjectStateUpdate {
            source_files: None,
            verification_order: None,
            current_index: None,
            global_notes: None,
            ..r
        }).is_nothing(),
{
    let nothing = ProjectStateUpdate::default();
    ProjectStateUpdate {
        source_files: params.source_files,
        verification_order: params.verification_order,
        current_index: params.current_index,
        global_notes: params.global_notes,
        ..nothing
    }
}

/// What came of storing the state of the project.
pub enum ProjectStored {
    /// It is stored, in memory and on disk.
    Done,
    /// The text is no state; why.
    Unreadable(String),
    /// It is stored in memory and could not be written to disk; why.
    NotWritten(String),
}

/// What is said of storing the state of the project. Only what is stored in memory
/// and on disk is said to be stored.
pub fn project_report(outcome: &ProjectStored) -> (r: String)
    ensures
        match outcome {
            ProjectStored::Done => r@ == "{\"stored\": true}"@,
            ProjectStored::Unreadable(e) => r@ == json::json_text(
                json::no_fields().with("stored"@, JsonView::Bool(false)).with(
                    "error"@,
                    JsonView::Text("state_json 解析失败: "@ + e@),
                ),
            ),
            ProjectStored::NotWritten(e) => r@ == json::json_text(
                json::no_fields().with("stored"@, JsonView::Bool(false)).with(
                    "persist_error"@,
                    JsonView::Text(e@),
                ),
            ),
        },
{
    match outcome {
        ProjectStored::Done => "{\"stored\": true}".to_owned(),
        ProjectStored::Unreadable(e) => {
            let message = "state_json 解析失败: ".to_owned().concat(e.as_str());
            Json::object().with("stored", Json::Bool(false)).with(
                "error",
                Json::Text(message),
            ).to_text()
        },
        ProjectStored::NotWritten(e) => Json::object().with("stored", Json::Bool(false)).with(
            "persist_error",
            Json::text(e.as_str()),
        ).to_text(),
    }
}

/// What is said where nothing is known of the project.
pub fn no_project_state() -> (r: String)
    ensures
        r@ == "{\"state\": null}"@,
{
    "{\"state\": null}".to_owned()
}

/// Locks or unlocks the main instance, and says so.
pub fn set_lock(locked: &mut bool, lock: bool) -> (r: String)
    ensures
        *final(locked) == lock,
        r@ == (if lock {
            "{\"locked\": true, \"message\": \"Main instance locked. reload_project and run_wp on main are now blocked. Sandbox operations unaffected.\"}"@
        } else {
            "{\"locked\": false, \"message\": \"Main instance unlocked. reload_project and run_wp are now allowed.\"}"@
        }),
{
    *locked = lock;
    if lock {
        "{\"locked\": true, \"message\": \"Main instance locked. reload_project and run_wp on main are now blocked. Sandbox operations unaffected.\"}".to_owned()
    } else {
        "{\"locked\": false, \"message\": \"Main instance unlocked. reload_project and run_wp are now allowed.\"}".to_owned()
    }
}

/// The note on long texts is there exactly where one of the three has a file, and lists
/// those that have one, in the order of the three. The short fields stay.
pub proof fn note_lists_the_files_that_are_there(
    meta: JsonView,
    existing: Seq<Seq<char>>,
    key: Seq<char>,
)
    requires
        meta is Record,
        meta.field("_long_text_files"@) is None,
    ensures
        ({
            let r = with_manifest(meta, existing);
            let a = existing.contains("semantic_proof"@ + ".md"@);
            let b = existing.contains("semiformal_proof"@ + ".md"@);
            let c = existing.contains("program_summary"@ + ".md"@);
            &&& key != "_long_text_files"@ ==> r.at(key) == meta.at(key)
            &&& r.field("_long_text_files"@) is Some <==> a || b || c
            &&& a || b || c ==> r.at("_long_text_files"@).at("files"@) == json::text_list(
                (if a {
                    seq!["semantic_proof"@ + ".md"@]
                } else {
                    Seq::empty()
                }) + (if b {
                    seq!["semiformal_proof"@ + ".md"@]
                } else {
                    Seq::empty()
                }) + (if c {
                    seq!["program_summary"@ + ".md"@]
                } else {
                    Seq::empty()
                }),
            )
        }),
{
    reveal(Seq::filter);
    reveal_strlit("_comment");
    reveal_strlit("files");
    assert("_comment"@.len() == 8 && "files"@.len() == 5);
    let x = "semantic_proof"@ + ".md"@;
    let y = "semiformal_proof"@ + ".md"@;
    let z = "program_summary"@ + ".md"@;
    let all = long_text_files();
    assert(all =~= seq![x, y, z]);
    let p = |f: Seq<char>| existing.contains(f);
    let two = all.drop_last();
    let one = two.drop_last();
    assert(two =~= seq![x, y]);
    assert(one =~= seq![x]);
    assert(one.drop_last() =~= Seq::<Seq<char>>::empty());
    assert(one.drop_last().filter(p) =~= Seq::<Seq<char>>::empty());
    assert(all.last() == z && two.last() == y && one.last() == x);
    let files = common(all, existing);
    assert(one.filter(p) =~= if p(x) {
        seq![x]
    } else {
        Seq::empty()
    });
    assert(files == all.filter(p));
    assert(two.filter(p) =~= (if p(x) {
        seq![x]
    } else {
        Seq::empty()
    }) + (if p(y) {
        seq![y]
    } else {
        Seq::empty()
    }));
    assert(files =~= (if p(x) {
        seq![x]
    } else {
        Seq::empty()
    }) + (if p(y) {
        seq![y]
    } else {
        Seq::empty()
    }) + (if p(z) {
        seq![z]
    } else {
        Seq::empty()
    }));
    let note = manifest(files);
    json::set_field_reads_back(meta, "_long_text_files"@, note);
    let empty = json::no_fields();
    let comment = note.at("_comment"@);
    let text = JsonView::Text(
        "长文本字段的真相在下列 .md 文件（同目录）。要看完整 conclusion 请调 get_function_conclusion 工具（自动从 .md 组装）"@,
    );
    json::set_field_reads_back(empty, "_comment"@, text);
    json::set_field_reads_back(empty.with("_comment"@, text), "files"@, json::text_list(files));
}

/// The texts of the statuses, and that no other text stands for one.
pub proof fn statuses_have_their_texts(s: Seq<char>)
    ensures
        status_text(VerificationStatus::InProgress) == "in_progress"@,
        status_text(VerificationStatus::Verified) == "verified"@,
        status_text(VerificationStatus::Failed) == "failed"@,
        status_text(VerificationStatus::Unsound) == "unsound"@,
        status_text(VerificationStatus::BlockedOnCallee) == "blocked_on_callee"@,
        status_named(s) matches Some(v) ==> status_text(v) == s,
{
}

} // verus!
