//! What reports say, field by field.

use vstd::prelude::*;

use crate::json;
use crate::json::{JsonView, NumberView};
use crate::mcp::acsl;
use crate::mcp::inspect;
use crate::mcp::properties;
use crate::mcp::status;
use crate::mcp::status::Depth;
use crate::mcp::wp;
use crate::state::project::GroupView;
use crate::state::{FunctionInfoView, GlobalInfoView};
use crate::text;
use crate::topo::ReadyFunc;

verus! {

/// The number as a value.
pub open spec fn number(n: int) -> JsonView {
    JsonView::Number(NumberView::Int(n))
}

/// The text of a field is the wanted one. A field that is no text counts as empty.
pub open spec fn field_is(v: JsonView, key: Seq<char>, wanted: Option<Seq<char>>) -> bool {
    match wanted {
        None => true,
        Some(w) => match v.at(key) {
            JsonView::Text(s) => s == w,
            _ => w.len() == 0,
        },
    }
}

// ── Lists that are filtered ─────────────────────────────────────────────

/// An alarm is listed exactly where its function, its kind and its status are those
/// that are asked for; what is not asked for does not matter.
pub proof fn alarms_are_listed_by_all_three(
    v: JsonView,
    scope: Option<Seq<char>>,
    kind: Option<Seq<char>>,
    status: Option<Seq<char>>,
)
    ensures
        properties::alarm_matches(v, scope, kind, status) <==> field_is(v, "scope"@, scope)
            && field_is(v, "kind"@, kind) && field_is(v, "status"@, status),
{
    assert(forall|w: Seq<char>| w.len() == 0 <==> w == Seq::<char>::empty()) by {
        assert forall|w: Seq<char>| w.len() == 0 <==> w == Seq::<char>::empty() by {
            assert(w.len() == 0 ==> w =~= Seq::<char>::empty());
        }
    }
}

/// Two texts are the same but for the case of the letters from `A` to `Z`.
pub open spec fn same_but_for_case(a: Seq<char>, b: Seq<char>) -> bool {
    &&& a.len() == b.len()
    &&& forall|i: int|
        0 <= i < a.len() ==> {
            ||| #[trigger] a[i] == b[i]
            ||| ('A' <= a[i] && a[i] <= 'Z' && b[i] as u32 == a[i] as u32 + 32)
            ||| ('A' <= b[i] && b[i] <= 'Z' && a[i] as u32 == b[i] as u32 + 32)
        }
}

/// A goal is listed exactly where it belongs to the function that is asked for, if
/// one is, and has the status that is asked for, if one is, in whatever case.
pub proof fn goals_are_listed_by_function_and_status(
    g: JsonView,
    scope: Option<Seq<char>>,
    status: Option<Seq<char>>,
)
    ensures
        properties::goal_matches(g, scope, status) <==> {
            &&& scope matches Some(m) ==> g.at("scope"@) == JsonView::Text(m)
            &&& status matches Some(s) ==> same_but_for_case(
                (match g.at("status"@) {
                    JsonView::Text(t) => t,
                    _ => Seq::empty(),
                }),
                s,
            )
        },
{
    match status {
        Some(s) => {
            lemma_lower_case(g.text_or_empty("status"@), s);
        },
        None => {},
    }
}

proof fn lemma_lower_case(a: Seq<char>, b: Seq<char>)
    ensures
        acsl::ascii_lowercased(a) == acsl::ascii_lowercased(b) <==> same_but_for_case(a, b),
{
    let x = acsl::ascii_lowercased(a);
    let y = acsl::ascii_lowercased(b);
    if x == y {
        assert(x.len() == a.len() && y.len() == b.len());
        assert forall|i: int| 0 <= i < a.len() implies {
            ||| #[trigger] a[i] == b[i]
            ||| ('A' <= a[i] && a[i] <= 'Z' && b[i] as u32 == a[i] as u32 + 32)
            ||| ('A' <= b[i] && b[i] <= 'Z' && a[i] as u32 == b[i] as u32 + 32)
        } by {
            assert(x[i] == acsl::ascii_lower(a[i]) && y[i] == acsl::ascii_lower(b[i]));
        }
    }
    if same_but_for_case(a, b) {
        assert forall|i: int| 0 <= i < x.len() implies x[i] == y[i] by {
            assert(x[i] == acsl::ascii_lower(a[i]) && y[i] == acsl::ascii_lower(b[i]));
            assert(a[i] == b[i] || a[i] != b[i]);
        }
        assert(x =~= y);
    }
}

/// A goal is reported as it is, with its kind; and with its label where it has one
/// and is no goal of a run-time error.
pub proof fn goals_are_reported_whole(g: JsonView, label: Option<Seq<char>>, key: Seq<char>)
    requires
        g is Record,
    ensures
        ({
            let r = properties::labelled_goal(g, label);
            let k = acsl::goal_kind(
                match g.at("name"@) {
                    JsonView::Text(t) => t,
                    _ => Seq::empty(),
                },
                label,
            );
            &&& key != "goal_kind"@ && key != "hash_label"@ ==> r.at(key) == g.at(key)
            &&& r.at("goal_kind"@) == JsonView::Text(k.0)
            &&& k.0 == "spec"@ && label is Some ==> r.at("hash_label"@) == JsonView::Text(label->0)
            &&& k.1 is None ==> r.at("hash_label"@) == g.at("hash_label"@)
        }),
{
    reveal_strlit("goal_kind");
    reveal_strlit("hash_label");
    reveal_strlit("spec");
    reveal_strlit("rte_overflow");
    reveal_strlit("rte_bound");
    reveal_strlit("rte_division");
    reveal_strlit("rte_pointer");
    reveal_strlit("rte_shift");
    reveal_strlit("user_assert");
    assert("goal_kind"@.len() == 9 && "hash_label"@.len() == 10 && "spec"@.len() == 4);
    assert("rte_overflow"@.len() == 12 && "rte_bound"@.len() == 9 && "rte_division"@.len() == 12);
    assert("rte_pointer"@.len() == 11 && "rte_shift"@.len() == 9 && "user_assert"@.len() == 11);
    let k = acsl::goal_kind(g.text_or_empty("name"@), label);
    json::set_field_reads_back(g, "goal_kind"@, JsonView::Text(k.0));
    let h = g.with("goal_kind"@, JsonView::Text(k.0));
    match k.1 {
        Some(l) => {
            json::set_field_reads_back(h, "hash_label"@, JsonView::Text(l));
        },
        None => {},
    }
}

/// What the name of a goal tells: a run-time error by its name, whatever label it
/// bears; else a labelled goal is one of the specification; else an assertion.
#[verifier::rlimit(40)]
pub proof fn name_tells_the_kind_of_goal(
    before: Seq<char>,
    behind: Seq<char>,
    name: Seq<char>,
    label: Option<Seq<char>>,
)
    ensures
        acsl::goal_kind(before + "signed_overflow"@ + behind, label) == (
            "rte_overflow"@,
            None::<Seq<char>>,
        ),
        ({
            let k = acsl::goal_kind(name, label);
            let lower = acsl::ascii_lowercased(name);
            &&& k.0 == "rte_overflow"@ ==> text::has_text(lower, "overflow"@) || text::has_text(
                lower,
                "downcast"@,
            )
            &&& k.1 is Some ==> k.0 == "spec"@ && k.1 == label
            &&& k.0 == "user_assert"@ ==> label is None
        }),
{
    let s = before + "signed_overflow"@ + behind;
    let lower = acsl::ascii_lowercased(s);
    lemma_lower_keeps(before, "signed_overflow"@, behind);
    reveal_strlit("signed_overflow");
    assert(acsl::ascii_lowercased("signed_overflow"@) =~= "signed_overflow"@);
    assert(text::occurs_at(lower, "signed_overflow"@, before.len() as int));
    reveal_strlit("overflow");
    reveal_strlit("unsigned_overflow");
    reveal_strlit("integer_overflow");
    reveal_strlit("spec");
    reveal_strlit("rte_overflow");
    reveal_strlit("rte_bound");
    reveal_strlit("rte_division");
    reveal_strlit("rte_pointer");
    reveal_strlit("rte_shift");
    reveal_strlit("user_assert");
    assert("spec"@.len() == 4 && "rte_overflow"@.len() == 12 && "rte_bound"@.len() == 9);
    assert("rte_division"@.len() == 12 && "rte_pointer"@.len() == 11 && "rte_shift"@.len() == 9);
    assert("user_assert"@.len() == 11);
    assert("rte_division"@[4] != "rte_overflow"@[4]);
    assert("rte_pointer"@[0] != "user_assert"@[0]);
    let own = acsl::ascii_lowercased(name);
    if text::has_text(own, "signed_overflow"@) {
        lemma_part(own, "signed_overflow"@, "overflow"@, 7);
    }
    if text::has_text(own, "unsigned_overflow"@) {
        lemma_part(own, "unsigned_overflow"@, "overflow"@, 9);
    }
    if text::has_text(own, "integer_overflow"@) {
        lemma_part(own, "integer_overflow"@, "overflow"@, 8);
    }
}

proof fn lemma_lower_keeps(a: Seq<char>, b: Seq<char>, c: Seq<char>)
    ensures
        ({
            let lower = acsl::ascii_lowercased(a + b + c);
            &&& lower.len() == a.len() + b.len() + c.len()
            &&& lower.subrange(a.len() as int, (a.len() + b.len()) as int)
                == acsl::ascii_lowercased(b)
        }),
{
    let lower = acsl::ascii_lowercased(a + b + c);
    assert(lower.subrange(a.len() as int, (a.len() + b.len()) as int) =~= acsl::ascii_lowercased(
        b,
    ));
}

proof fn lemma_part(s: Seq<char>, whole: Seq<char>, part: Seq<char>, at: int)
    requires
        text::has_text(s, whole),
        0 <= at,
        at + part.len() <= whole.len(),
        whole.subrange(at, at + part.len()) =~= part,
    ensures
        text::has_text(s, part),
{
    let i = choose|i: int| #[trigger] text::occurs_at(s, whole, i);
    assert(s.subrange(i + at, i + at + part.len()) =~= part) by {
        assert forall|k: int| 0 <= k < part.len() implies s.subrange(i + at, i + at + part.len())[k]
            == part[k] by {
            assert(s.subrange(i, i + whole.len())[at + k] == whole[at + k]);
            assert(whole.subrange(at, at + part.len())[k] == part[k]);
        }
    }
    assert(text::occurs_at(s, part, i + at));
}

// ── The state of the verification ───────────────────────────────────────

/// How many of the values have the text under the key; what has none counts as
/// `unknown`.
pub open spec fn how_many(list: Seq<JsonView>, key: Seq<char>, label: Seq<char>) -> nat {
    list.filter(
        |v: JsonView|
            match v.at(key) {
                JsonView::Text(s) => s == label,
                _ => label == "unknown"@,
            },
    ).len()
}

proof fn lemma_how_many(list: Seq<JsonView>, key: Seq<char>, label: Seq<char>)
    ensures
        status::occurrences(status::labels_of(list, key), label) == how_many(list, key, label),
    decreases list.len(),
{
    reveal(Seq::filter);
    let f = |v: JsonView| status::label_of(v, key);
    if list.len() > 0 {
        lemma_how_many(list.drop_last(), key, label);
        assert(list.map_values(f).drop_last() =~= list.drop_last().map_values(f));
        assert(list.map_values(f).last() == f(list.last()));
    } else {
        assert(list.map_values(f) =~= Seq::empty());
    }
}

/// The state of the verification says how many properties there are, of each status
/// and of each kind, in numbers that are right; what has run; and lists all of them.
#[verifier::rlimit(40)]
pub proof fn status_counts_the_properties(
    list: Seq<JsonView>,
    project_loaded: bool,
    eva_completed: bool,
    wp_completed: bool,
    eva: JsonView,
    wp: JsonView,
    label: Seq<char>,
)
    ensures
        ({
            let r = status::status_body(
                list,
                project_loaded,
                eva_completed,
                wp_completed,
                eva,
                wp,
            );
            &&& r.at("total_properties"@) == number(list.len() as int)
            &&& r.at("properties"@) == JsonView::List(list)
            &&& r.at("by_status"@).field(label) == if how_many(list, "status"@, label) > 0 {
                Some(number(how_many(list, "status"@, label) as int))
            } else {
                None
            }
            &&& r.at("by_kind"@).field(label) == if how_many(list, "kind"@, label) > 0 {
                Some(number(how_many(list, "kind"@, label) as int))
            } else {
                None
            }
            &&& r.field("eva"@) == if eva_completed {
                Some(eva)
            } else {
                None
            }
            &&& r.field("wp"@) == if wp_completed {
                Some(wp)
            } else {
                None
            }
            &&& r.at("session"@).at("project_loaded"@) == JsonView::Bool(project_loaded)
            &&& r.at("session"@).at("eva_completed"@) == JsonView::Bool(eva_completed)
            &&& r.at("session"@).at("wp_completed"@) == JsonView::Bool(wp_completed)
        }),
{
    reveal_strlit("total_properties");
    reveal_strlit("by_status");
    reveal_strlit("by_kind");
    reveal_strlit("eva");
    reveal_strlit("wp");
    reveal_strlit("session");
    reveal_strlit("properties");
    reveal_strlit("project_loaded");
    reveal_strlit("eva_completed");
    reveal_strlit("wp_completed");
    assert("total_properties"@.len() == 16 && "by_status"@.len() == 9 && "by_kind"@.len() == 7);
    assert("eva"@.len() == 3 && "wp"@.len() == 2 && "session"@.len() == 7 && "properties"@.len()
        == 10);
    assert("session"@[0] != "by_kind"@[0]);
    assert("project_loaded"@.len() == 14 && "eva_completed"@.len() == 13 && "wp_completed"@.len()
        == 12);
    lemma_how_many(list, "status"@, label);
    lemma_how_many(list, "kind"@, label);
    status::tally_counts(status::labels_of(list, "status"@), label);
    status::tally_counts(status::labels_of(list, "kind"@), label);
    let by_status = JsonView::Record(status::tally(status::labels_of(list, "status"@)));
    let by_kind = JsonView::Record(status::tally(status::labels_of(list, "kind"@)));
    let a = json::no_fields();
    let total = json::whole(list.len() as int);
    json::set_field_reads_back(a, "total_properties"@, total);
    let b = a.with("total_properties"@, total);
    json::set_field_reads_back(b, "by_status"@, by_status);
    let c = b.with("by_status"@, by_status);
    json::set_field_reads_back(c, "by_kind"@, by_kind);
    let d = c.with("by_kind"@, by_kind);
    json::set_field_reads_back(d, "eva"@, eva);
    let e = if eva_completed {
        d.with("eva"@, eva)
    } else {
        d
    };
    json::set_field_reads_back(e, "wp"@, wp);
    let f = if wp_completed {
        e.with("wp"@, wp)
    } else {
        e
    };
    let p = json::no_fields();
    json::set_field_reads_back(p, "project_loaded"@, JsonView::Bool(project_loaded));
    let q = p.with("project_loaded"@, JsonView::Bool(project_loaded));
    json::set_field_reads_back(q, "eva_completed"@, JsonView::Bool(eva_completed));
    let s = q.with("eva_completed"@, JsonView::Bool(eva_completed));
    json::set_field_reads_back(s, "wp_completed"@, JsonView::Bool(wp_completed));
    let session = s.with("wp_completed"@, JsonView::Bool(wp_completed));
    json::set_field_reads_back(f, "session"@, session);
    let g = f.with("session"@, session);
    json::set_field_reads_back(g, "properties"@, JsonView::List(list));
    let r = g.with("properties"@, JsonView::List(list));
    assert(a.field("eva"@) is None && a.field("wp"@) is None);
    assert(r.field("eva"@) == f.field("eva"@));
    assert(r.field("wp"@) == f.field("wp"@));
    assert(r.at("total_properties"@) == f.at("total_properties"@));
    assert(r.at("by_status"@) == f.at("by_status"@));
    assert(r.at("by_kind"@) == f.at("by_kind"@));
    assert(d.field("eva"@) == c.field("eva"@) && c.field("eva"@) == b.field("eva"@));
    assert(d.field("wp"@) == c.field("wp"@) && c.field("wp"@) == b.field("wp"@));
    assert(session.at("project_loaded"@) == s.at("project_loaded"@));
    assert(session.at("eva_completed"@) == s.at("eva_completed"@));
}

/// What a property is shown with, by depth: quickly alone; else with the values and
/// the callers that could be had; and in depth with all properties of its function.
#[verifier::rlimit(40)]
pub proof fn investigation_shows_more_in_depth(
    list: Seq<JsonView>,
    property: JsonView,
    depth: Depth,
    values: Option<JsonView>,
    callers: Option<JsonView>,
)
    ensures
        ({
            let r = status::investigation_body(list, property, depth, values, callers);
            &&& r.at("property"@) == property
            &&& r.field("values"@) == if depth == Depth::Quick {
                None
            } else {
                values
            }
            &&& r.field("callers"@) == if depth == Depth::Quick {
                None
            } else {
                callers
            }
            &&& r.field("function_annotations"@) == match (depth, property.at("scope"@)) {
                (Depth::Deep, JsonView::Text(s)) => Some(
                    JsonView::List(
                        list.filter(|p: JsonView| p.at("scope"@) == JsonView::Text(s)),
                    ),
                ),
                _ => None,
            }
        }),
{
    reveal_strlit("property");
    reveal_strlit("values");
    reveal_strlit("callers");
    reveal_strlit("function_annotations");
    assert("property"@.len() == 8 && "values"@.len() == 6 && "callers"@.len() == 7
        && "function_annotations"@.len() == 20);
    let a = json::no_fields();
    json::set_field_reads_back(a, "property"@, property);
    let b = a.with("property"@, property);
    let c = match values {
        Some(v) => {
            json::set_field_reads_back(b, "values"@, v);
            b.with("values"@, v)
        },
        None => b,
    };
    let d = match callers {
        Some(v) => {
            json::set_field_reads_back(c, "callers"@, v);
            c.with("callers"@, v)
        },
        None => c,
    };
    assert(a.field("values"@) is None && a.field("callers"@) is None && a.field(
        "function_annotations"@,
    ) is None);
    assert(b.field("function_annotations"@) is None && b.field("values"@) is None && b.field(
        "callers"@,
    ) is None);
    if depth == Depth::Deep {
        match property.at("scope"@) {
            JsonView::Text(s) => {
                let x = list.filter(|p: JsonView| properties::in_scope(p, Some(s)));
                let y = list.filter(|p: JsonView| p.at("scope"@) == JsonView::Text(s));
                lemma_same_filter(
                    list,
                    |p: JsonView| properties::in_scope(p, Some(s)),
                    |p: JsonView| p.at("scope"@) == JsonView::Text(s),
                );
                json::set_field_reads_back(d, "function_annotations"@, JsonView::List(x));
            },
            _ => {},
        }
    }
}

proof fn lemma_same_filter(
    list: Seq<JsonView>,
    f: spec_fn(JsonView) -> bool,
    g: spec_fn(JsonView) -> bool,
)
    requires
        forall|v: JsonView| #[trigger] f(v) == g(v),
    ensures
        list.filter(f) == list.filter(g),
    decreases list.len(),
{
    reveal(Seq::filter);
    if list.len() > 0 {
        lemma_same_filter(list.drop_last(), f, g);
        assert(f(list.last()) == g(list.last()));
    }
}

/// The property of a key is the first one that bears it.
pub proof fn property_is_the_first_of_its_key(list: Seq<JsonView>, key: Seq<char>, i: int)
    requires
        0 <= i < list.len(),
        list[i].at("key"@) == JsonView::Text(key),
        forall|j: int| 0 <= j < i ==> (#[trigger] list[j]).at("key"@) != JsonView::Text(key),
    ensures
        status::property_of(list, key) == Some(list[i]),
    decreases i,
{
    if i > 0 {
        let rest = list.drop_first();
        assert(list[0].at("key"@) != JsonView::Text(key));
        assert forall|j: int| 0 <= j < i - 1 implies (#[trigger] rest[j]).at("key"@)
            != JsonView::Text(key) by {
            assert(rest[j] == list[j + 1]);
        }
        property_is_the_first_of_its_key(rest, key, i - 1);
    }
}

/// An action is suggested.
pub open spec fn suggests(plan: Seq<JsonView>, action: Seq<char>) -> bool {
    exists|i: int| 0 <= i < plan.len() && (#[trigger] plan[i]).at("action"@) == JsonView::Text(action)
}

/// A property of the given status is there.
pub open spec fn has_status(list: Seq<JsonView>, label: Seq<char>) -> bool {
    exists|i: int| 0 <= i < list.len() && (#[trigger] list[i]).at("status"@) == JsonView::Text(label)
}

proof fn lemma_has_status(list: Seq<JsonView>, label: Seq<char>)
    ensures
        status::with_status(list, label) > 0 <==> has_status(list, label),
    decreases list.len(),
{
    reveal(Seq::filter);
    if list.len() > 0 {
        let rest = list.drop_last();
        lemma_has_status(rest, label);
        assert(list[list.len() - 1] == list.last());
        if has_status(rest, label) {
            let i = choose|i: int|
                0 <= i < rest.len() && (#[trigger] rest[i]).at("status"@) == JsonView::Text(label);
            assert(list[i] == rest[i]);
        }
        if has_status(list, label) {
            let i = choose|i: int|
                0 <= i < list.len() && (#[trigger] list[i]).at("status"@) == JsonView::Text(label);
            if i < rest.len() {
                assert(rest[i] == list[i]);
            }
        }
    }
}

proof fn lemma_suggestion(action: Seq<char>, reason: Seq<char>, priority: Seq<char>)
    ensures
        ({
            let v = status::suggestion(action, reason, priority);
            &&& v.at("action"@) == JsonView::Text(action)
            &&& v.at("reason"@) == JsonView::Text(reason)
            &&& v.at("priority"@) == JsonView::Text(priority)
        }),
{
    reveal_strlit("action");
    reveal_strlit("reason");
    reveal_strlit("priority");
    assert("action"@[0] != "reason"@[0] && "priority"@.len() == 8);
    let a = json::no_fields();
    json::set_field_reads_back(a, "action"@, JsonView::Text(action));
    let b = a.with("action"@, JsonView::Text(action));
    json::set_field_reads_back(b, "reason"@, JsonView::Text(reason));
    let c = b.with("reason"@, JsonView::Text(reason));
    json::set_field_reads_back(c, "priority"@, JsonView::Text(priority));
}

/// What is suggested, and when. Without a project, only to load one. Else the value
/// analysis exactly where it has not run; invalid properties exactly where it has and
/// there are some; proofs exactly where it has, there are unknown properties, and the
/// proofs have not run; a review exactly where they have.
#[verifier::rlimit(40)]
pub proof fn suggestions_follow_the_state(
    loaded: bool,
    eva: bool,
    wp: bool,
    list: Seq<JsonView>,
)
    ensures
        ({
            let plan = status::plan(loaded, eva, wp, list);
            &&& suggests(plan, "reload_project"@) <==> !loaded
            &&& suggests(plan, "run_eva"@) <==> loaded && !eva
            &&& suggests(plan, "investigate invalid properties"@) <==> loaded && eva && has_status(
                list,
                "invalid"@,
            )
            &&& suggests(plan, "run_wp"@) <==> loaded && eva && !wp && has_status(
                list,
                "unknown"@,
            )
            &&& suggests(plan, "review results"@) <==> loaded && wp
        }),
{
    reveal_strlit("reload_project");
    reveal_strlit("run_eva");
    reveal_strlit("investigate invalid properties");
    reveal_strlit("run_wp");
    reveal_strlit("review results");
    reveal_strlit("get_verification_status");
    assert("reload_project"@.len() == 14 && "run_eva"@.len() == 7 && "run_wp"@.len() == 6);
    assert("investigate invalid properties"@.len() == 30 && "review results"@.len() == 14
        && "get_verification_status"@.len() == 23);
    assert("reload_project"@[2] != "review results"@[2]);
    lemma_has_status(list, "invalid"@);
    lemma_has_status(list, "unknown"@);
    let invalid = status::with_status(list, "invalid"@);
    let unknown = status::with_status(list, "unknown"@);
    lemma_suggestion(
        "reload_project"@,
        "No project loaded. Load C source files first with reload_project."@,
        "high"@,
    );
    lemma_suggestion(
        "run_eva"@,
        "EVA analysis not yet run. Run EVA first to identify potential runtime errors."@,
        "high"@,
    );
    lemma_suggestion(
        "investigate invalid properties"@,
        text::decimal(invalid) + " invalid properties need attention"@,
        "high"@,
    );
    lemma_suggestion(
        "run_wp"@,
        text::decimal(unknown) + " unknown properties may be provable with WP"@,
        "medium"@,
    );
    lemma_suggestion(
        "review results"@,
        "Both EVA and WP completed. Review get_verification_status for summary."@,
        "low"@,
    );
    lemma_suggestion(
        "get_verification_status"@,
        "Check current verification state for details."@,
        "info"@,
    );
    let plan = status::plan(loaded, eva, wp, list);
    assert(plan.len() <= 4);
    if plan.len() > 0 {
        let p = plan[0].at("action"@);
    }
    if plan.len() > 1 {
        let p = plan[1].at("action"@);
    }
    if plan.len() > 2 {
        let p = plan[2].at("action"@);
    }
    if plan.len() > 3 {
        let p = plan[3].at("action"@);
    }
}

// ── The order and what is ready ─────────────────────────────────────────

/// The report of the order says the order, and of each group its number, its members,
/// its level and whether it is circular.
pub proof fn order_report_says_the_order(order: Seq<Seq<char>>, groups: Seq<GroupView>, i: int)
    ensures
        inspect::order_body(order, groups).at("verification_order"@) == JsonView::List(
            order.map_values(|s: Seq<char>| JsonView::Text(s)),
        ),
        ({
            let l = inspect::order_body(order, groups).at("scc_groups"@);
            &&& l is List
            &&& l->List_0.len() == groups.len()
            &&& 0 <= i < groups.len() ==> {
                let v = l->List_0[i];
                &&& v.at("id"@) == number(groups[i].id as int)
                &&& v.at("members"@) == JsonView::List(
                    groups[i].members.map_values(|s: Seq<char>| JsonView::Text(s)),
                )
                &&& v.at("level"@) == number(groups[i].level as int)
                &&& v.at("is_cycle"@) == JsonView::Bool(groups[i].is_cycle)
            }
        }),
{
    reveal_strlit("verification_order");
    reveal_strlit("scc_groups");
    reveal_strlit("id");
    reveal_strlit("members");
    reveal_strlit("level");
    reveal_strlit("is_cycle");
    assert("verification_order"@.len() == 18 && "scc_groups"@.len() == 10);
    assert("id"@.len() == 2 && "members"@.len() == 7 && "level"@.len() == 5 && "is_cycle"@.len()
        == 8);
    let a = json::no_fields();
    let vo = json::text_list(order);
    let list = JsonView::List(groups.map_values(|g: GroupView| inspect::group_body(g)));
    json::set_field_reads_back(a, "verification_order"@, vo);
    json::set_field_reads_back(a.with("verification_order"@, vo), "scc_groups"@, list);
    if 0 <= i < groups.len() {
        let g = groups[i];
        json::set_field_reads_back(a, "id"@, json::whole(g.id as int));
        let b = a.with("id"@, json::whole(g.id as int));
        json::set_field_reads_back(b, "members"@, json::text_list(g.members));
        let c = b.with("members"@, json::text_list(g.members));
        json::set_field_reads_back(c, "level"@, json::whole(g.level as int));
        let d = c.with("level"@, json::whole(g.level as int));
        json::set_field_reads_back(d, "is_cycle"@, JsonView::Bool(g.is_cycle));
        let v = d.with("is_cycle"@, JsonView::Bool(g.is_cycle));
        assert(v == inspect::group_body(g));
        assert(v.at("id"@) == d.at("id"@) && d.at("id"@) == c.at("id"@));
        assert(v.at("members"@) == d.at("members"@));
    }
}

/// The report of a ready function says its name, its circle's number and members, and
/// whether it is in one.
pub proof fn ready_report_says_the_entry(f: ReadyFunc)
    ensures
        ({
            let v = inspect::ready_body(f);
            &&& v.at("function"@) == JsonView::Text(f.function@)
            &&& v.at("scc_id"@) == match f.scc_id {
                Some(n) => number(n as int),
                None => JsonView::Null,
            }
            &&& v.at("is_cycle"@) == JsonView::Bool(f.is_cycle)
            &&& v.at("scc_members"@) == JsonView::List(
                text::texts(f.scc_members@).map_values(|s: Seq<char>| JsonView::Text(s)),
            )
        }),
{
    reveal_strlit("function");
    reveal_strlit("scc_id");
    reveal_strlit("is_cycle");
    reveal_strlit("scc_members");
    assert("function"@.len() == 8 && "scc_id"@.len() == 6 && "is_cycle"@.len() == 8
        && "scc_members"@.len() == 11);
    assert("function"@[0] != "is_cycle"@[0]);
    let a = json::no_fields();
    let id = match f.scc_id {
        Some(n) => json::whole(n as int),
        None => JsonView::Null,
    };
    json::set_field_reads_back(a, "function"@, JsonView::Text(f.function@));
    let b = a.with("function"@, JsonView::Text(f.function@));
    json::set_field_reads_back(b, "scc_id"@, id);
    let c = b.with("scc_id"@, id);
    json::set_field_reads_back(c, "is_cycle"@, JsonView::Bool(f.is_cycle));
    let d = c.with("is_cycle"@, JsonView::Bool(f.is_cycle));
    let members = json::text_list(text::texts(f.scc_members@));
    json::set_field_reads_back(d, "scc_members"@, members);
    let v = d.with("scc_members"@, members);
    assert(v.at("function"@) == d.at("function"@) && d.at("function"@) == c.at("function"@));
    assert(v.at("scc_id"@) == d.at("scc_id"@));
}

// ── Functions and variables ─────────────────────────────────────────────

/// The line of a function says its name, its signature and its place; that of a
/// variable its name, its type and its place.
pub proof fn lines_say_what_is_known(f: FunctionInfoView, g: GlobalInfoView)
    ensures
        ({
            let v = inspect::function_line(f);
            &&& v.at("name"@) == JsonView::Text(f.name)
            &&& v.at("signature"@) == JsonView::Text(f.signature)
            &&& v.at("file"@) == JsonView::Text(f.file)
            &&& v.at("line"@) == number(f.line as int)
        }),
        ({
            let v = inspect::global_line(g);
            &&& v.at("name"@) == JsonView::Text(g.name)
            &&& v.at("type"@) == JsonView::Text(g.typ)
            &&& v.at("file"@) == JsonView::Text(g.file)
            &&& v.at("line"@) == number(g.line as int)
        }),
{
    reveal_strlit("name");
    reveal_strlit("signature");
    reveal_strlit("file");
    reveal_strlit("line");
    reveal_strlit("type");
    assert("signature"@.len() == 9);
    assert("name"@[0] != "file"@[0] && "name"@[0] != "line"@[0] && "name"@[0] != "type"@[0]);
    assert("file"@[0] != "line"@[0] && "file"@[0] != "type"@[0] && "line"@[0] != "type"@[0]);
    let a = json::no_fields();
    json::set_field_reads_back(a, "name"@, JsonView::Text(f.name));
    let b = a.with("name"@, JsonView::Text(f.name));
    json::set_field_reads_back(b, "signature"@, JsonView::Text(f.signature));
    let c = b.with("signature"@, JsonView::Text(f.signature));
    json::set_field_reads_back(c, "file"@, JsonView::Text(f.file));
    let d = c.with("file"@, JsonView::Text(f.file));
    json::set_field_reads_back(d, "line"@, json::whole(f.line as int));
    let e = d.with("line"@, json::whole(f.line as int));
    assert(e.at("name"@) == d.at("name"@) && d.at("name"@) == c.at("name"@));
    assert(e.at("signature"@) == d.at("signature"@));
    json::set_field_reads_back(a, "name"@, JsonView::Text(g.name));
    let p = a.with("name"@, JsonView::Text(g.name));
    json::set_field_reads_back(p, "type"@, JsonView::Text(g.typ));
    let q = p.with("type"@, JsonView::Text(g.typ));
    json::set_field_reads_back(q, "file"@, JsonView::Text(g.file));
    let r = q.with("file"@, JsonView::Text(g.file));
    json::set_field_reads_back(r, "line"@, json::whole(g.line as int));
    let s = r.with("line"@, json::whole(g.line as int));
    assert(s.at("name"@) == r.at("name"@) && r.at("name"@) == q.at("name"@));
    assert(s.at("type"@) == r.at("type"@));
}

// ── Proofs ──────────────────────────────────────────────────────────────

/// The proofs of declarations are asked for in their order: of each, first its text
/// and then its proofs, under the marker that begins with `#v` in place of `#F`.
pub proof fn each_declaration_is_proved(
    a: Seq<Seq<char>>,
    b: Seq<Seq<char>>,
    number: Seq<char>,
)
    requires
        !number.contains('#'),
    ensures
        wp::proof_requests(a + b) == wp::proof_requests(a) + wp::proof_requests(b),
        ({
            let r = wp::proof_requests(seq!["#F"@ + number]);
            &&& r.len() == 2
            &&& r[0].name == "kernel.ast.printDeclaration"@
            &&& r[0].data == JsonView::Text("#F"@ + number)
            &&& r[1].name == "plugins.wp.startProofs"@
            &&& r[1].data == JsonView::Text("#v"@ + number)
        }),
    decreases b.len(),
{
    reveal_with_fuel(wp::proof_requests, 2);
    let one = seq!["#F"@ + number];
    assert(one.drop_last() =~= Seq::<Seq<char>>::empty());
    lemma_marker(number);
    if b.len() == 0 {
        assert(a + b =~= a);
        assert(wp::proof_requests(a) + wp::proof_requests(b) =~= wp::proof_requests(a));
    } else {
        each_declaration_is_proved(a, b.drop_last(), number);
        assert((a + b).drop_last() =~= a + b.drop_last());
        assert(wp::proof_requests(a + b) =~= wp::proof_requests(a) + wp::proof_requests(b));
    }
}

proof fn lemma_marker(number: Seq<char>)
    requires
        !number.contains('#'),
    ensures
        wp::proof_marker("#F"@ + number) == "#v"@ + number,
{
    reveal_strlit("#F");
    reveal_strlit("#v");
    let s = "#F"@ + number;
    assert(s.subrange(0, 2) =~= "#F"@);
    assert(s.skip(2) =~= number);
    lemma_nothing_replaced(number);
}

proof fn lemma_nothing_replaced(s: Seq<char>)
    requires
        !s.contains('#'),
    ensures
        text::replaced(s, "#F"@, "#v"@) == s,
    decreases s.len(),
{
    reveal_strlit("#F");
    if s.len() >= 2 {
        assert(s[0] != '#');
        if text::begins_with(s, "#F"@) {
            assert(s.subrange(0, 2)[0] == s[0]);
        }
        let rest = s.drop_first();
        assert forall|i: int| 0 <= i < rest.len() implies rest[i] != '#' by {
            assert(rest[i] == s[i + 1]);
        }
        lemma_nothing_replaced(rest);
        assert(seq![s[0]] + rest =~= s);
    }
}

/// The configuration names the memory model, and the property where one is given.
pub proof fn configuration_names_model_and_property(model: Seq<char>, prop: Option<Seq<char>>)
    ensures
        wp::config_body(model, prop).at("model"@) == JsonView::Text(model),
        wp::config_body(model, prop).field("prop"@) == match prop {
            Some(p) => Some(JsonView::Text(p)),
            None => None,
        },
        wp::is_model(model) <==> model == "Bytes"@ || model == "Typed+nocast"@,
        wp::model_of(None) == "Typed+nocast"@,
        wp::model_of(Some(model)) == model,
{
    reveal_strlit("model");
    reveal_strlit("prop");
    assert("model"@.len() == 5 && "prop"@.len() == 4);
    let a = json::no_fields();
    json::set_field_reads_back(a, "model"@, JsonView::Text(model));
    let b = a.with("model"@, JsonView::Text(model));
    match prop {
        Some(p) => {
            json::set_field_reads_back(b, "prop"@, JsonView::Text(p));
        },
        None => {},
    }
    assert(a.field("prop"@) is None);
}

/// The name of a goal tells a run-time error by its words: of bounds, division,
/// pointers or shifts, where none of an overflow stands in it.
pub proof fn words_tell_the_run_time_error(name: Seq<char>, label: Option<Seq<char>>)
    ensures
        ({
            let lower = acsl::ascii_lowercased(name);
            let overflow = text::has_text(lower, "signed_overflow"@) || text::has_text(
                lower,
                "unsigned_overflow"@,
            ) || text::has_text(lower, "integer_overflow"@) || text::has_text(lower, "downcast"@);
            let bound = text::has_text(lower, "index_in_bound"@) || text::has_text(
                lower,
                "index_bound"@,
            ) || text::has_text(lower, "array_bound"@);
            let division = text::has_text(lower, "division_by_zero"@) || text::has_text(
                lower,
                "div_by_zero"@,
            ) || text::has_text(lower, "modulo"@);
            let pointer = text::has_text(lower, "mem_access"@) || text::has_text(
                lower,
                "initialization"@,
            ) || text::has_text(lower, "dangling"@) || text::has_text(lower, "pointer_validity"@);
            let shift = text::has_text(lower, "shift"@);
            let k = acsl::goal_kind(name, label);
            &&& overflow ==> k.0 == "rte_overflow"@ && k.1 is None
            &&& bound && !overflow ==> k.0 == "rte_bound"@ && k.1 is None
            &&& division && !bound && !overflow ==> k.0 == "rte_division"@ && k.1 is None
            &&& pointer && !division && !bound && !overflow ==> k.0 == "rte_pointer"@ && k.1 is None
            &&& shift && !pointer && !division && !bound && !overflow ==> k.0 == "rte_shift"@
                && k.1 is None
            &&& !shift && !pointer && !division && !bound && !overflow && label is Some ==> k == (
                "spec"@,
                label,
            )
            &&& !shift && !pointer && !division && !bound && !overflow && label is None
                ==> k.1 is None && (k.0 == "user_assert"@ || k.0 == "spec"@)
        }),
{
}

/// The properties of a scope are those whose scope is that text; without a scope, all.
pub proof fn scope_is_the_text(v: JsonView, scope: Seq<char>)
    ensures
        properties::in_scope(v, None),
        properties::in_scope(v, Some(scope)) <==> v.at("scope"@) == JsonView::Text(scope),
{
}

/// How deep a property is looked into: as asked, in depth where the word is another,
/// and normally where nothing is asked.
pub proof fn depth_is_as_asked(word: Seq<char>)
    ensures
        status::depth_of(None) == Depth::Normal,
        status::depth_of(Some("quick"@)) == Depth::Quick,
        status::depth_of(Some("normal"@)) == Depth::Normal,
        word != "quick"@ && word != "normal"@ ==> status::depth_of(Some(word)) == Depth::Deep,
{
    reveal_strlit("quick");
    reveal_strlit("normal");
    assert("quick"@.len() == 5 && "normal"@.len() == 6);
}

/// The value analysis runs after the parameters that are given are set, and is then
/// asked for its state and its numbers.
pub proof fn analysis_runs_behind_its_parameters(
    precision: Option<i32>,
    main_function: Option<Seq<char>>,
    slevel: Option<u32>,
)
    ensures
        ({
            let r = properties::eva_requests(precision, main_function, slevel);
            let a: int = if precision is Some {
                1
            } else {
                0
            };
            let b: int = if main_function is Some {
                a + 1
            } else {
                a
            };
            let c: int = if slevel is Some {
                b + 1
            } else {
                b
            };
            &&& r.len() == c + 3
            &&& precision matches Some(n) ==> r[0].name == "kernel.parameters.setEvaPrecision"@
                && r[0].data == number(n as int)
            &&& main_function matches Some(f) ==> r[a].name == "kernel.parameters.setMain"@
                && r[a].data == JsonView::Text(f)
            &&& slevel matches Some(n) ==> r[b].name == "kernel.parameters.setEvaSlevel"@
                && r[b].data == number(n as int)
            &&& r[c].name == "plugins.eva.general.compute"@
            &&& r[c].channel is Exec
            &&& r[c + 1].name == "plugins.eva.general.getComputationState"@
            &&& r[c + 2].name == "plugins.eva.general.getProgramStats"@
        }),
{
}

/// What is said of a function: what is known of it, and the text of its declaration.
pub proof fn function_is_shown_whole(f: FunctionInfoView, declaration: JsonView)
    ensures
        ({
            let r = inspect::function_body(f, declaration);
            &&& r.at("name"@) == JsonView::Text(f.name)
            &&& r.at("marker"@) == JsonView::Text(f.marker)
            &&& r.at("signature"@) == JsonView::Text(f.signature)
            &&& r.at("file"@) == JsonView::Text(f.file)
            &&& r.at("line"@) == number(f.line as int)
            &&& r.at("declaration"@) == declaration
        }),
{
    reveal_strlit("name");
    reveal_strlit("marker");
    reveal_strlit("signature");
    reveal_strlit("file");
    reveal_strlit("line");
    reveal_strlit("declaration");
    assert("name"@.len() == 4);
    assert("marker"@.len() == 6);
    assert("signature"@.len() == 9);
    assert("file"@.len() == 4);
    assert("line"@.len() == 4);
    assert("declaration"@.len() == 11);
    assert("name"@[0] != "file"@[0]);
    assert("name"@[0] != "line"@[0]);
    assert("file"@[0] != "line"@[0]);
    let v0 = json::no_fields();
    let xv0 = JsonView::Text(f.name);
    json::set_field_reads_back(v0, "name"@, xv0);
    let v1 = v0.with("name"@, xv0);
    let xv1 = JsonView::Text(f.marker);
    json::set_field_reads_back(v1, "marker"@, xv1);
    let v2 = v1.with("marker"@, xv1);
    let xv2 = JsonView::Text(f.signature);
    json::set_field_reads_back(v2, "signature"@, xv2);
    let v3 = v2.with("signature"@, xv2);
    let xv3 = JsonView::Text(f.file);
    json::set_field_reads_back(v3, "file"@, xv3);
    let v4 = v3.with("file"@, xv3);
    let xv4 = number(f.line as int);
    json::set_field_reads_back(v4, "line"@, xv4);
    let v5 = v4.with("line"@, xv4);
    let xv5 = declaration;
    json::set_field_reads_back(v5, "declaration"@, xv5);
    let v6 = v5.with("declaration"@, xv5);
    assert(v2.at("name"@) == v1.at("name"@));
    assert(v3.at("name"@) == v2.at("name"@));
    assert(v4.at("name"@) == v3.at("name"@));
    assert(v5.at("name"@) == v4.at("name"@));
    assert(v6.at("name"@) == v5.at("name"@));
    assert(v3.at("marker"@) == v2.at("marker"@));
    assert(v4.at("marker"@) == v3.at("marker"@));
    assert(v5.at("marker"@) == v4.at("marker"@));
    assert(v6.at("marker"@) == v5.at("marker"@));
    assert(v4.at("signature"@) == v3.at("signature"@));
    assert(v5.at("signature"@) == v4.at("signature"@));
    assert(v6.at("signature"@) == v5.at("signature"@));
    assert(v5.at("file"@) == v4.at("file"@));
    assert(v6.at("file"@) == v5.at("file"@));
    assert(v6.at("line"@) == v5.at("line"@));
}

/// What is said of a symbol that is a function.
pub proof fn function_symbol_is_shown_whole(f: FunctionInfoView)
    ensures
        ({
            let r = inspect::function_symbol_body(f);
            &&& r.at("kind"@) == JsonView::Text("function"@)
            &&& r.at("name"@) == JsonView::Text(f.name)
            &&& r.at("signature"@) == JsonView::Text(f.signature)
            &&& r.at("file"@) == JsonView::Text(f.file)
            &&& r.at("line"@) == number(f.line as int)
            &&& r.at("marker"@) == JsonView::Text(f.marker)
            &&& r.at("declaration"@) == JsonView::Text(f.declaration)
        }),
{
    reveal_strlit("kind");
    reveal_strlit("name");
    reveal_strlit("signature");
    reveal_strlit("file");
    reveal_strlit("line");
    reveal_strlit("marker");
    reveal_strlit("declaration");
    assert("kind"@.len() == 4);
    assert("name"@.len() == 4);
    assert("signature"@.len() == 9);
    assert("file"@.len() == 4);
    assert("line"@.len() == 4);
    assert("marker"@.len() == 6);
    assert("declaration"@.len() == 11);
    assert("kind"@[0] != "name"@[0]);
    assert("kind"@[0] != "file"@[0]);
    assert("name"@[0] != "file"@[0]);
    assert("kind"@[0] != "line"@[0]);
    assert("name"@[0] != "line"@[0]);
    assert("file"@[0] != "line"@[0]);
    let v0 = json::no_fields();
    let xv0 = JsonView::Text("function"@);
    json::set_field_reads_back(v0, "kind"@, xv0);
    let v1 = v0.with("kind"@, xv0);
    let xv1 = JsonView::Text(f.name);
    json::set_field_reads_back(v1, "name"@, xv1);
    let v2 = v1.with("name"@, xv1);
    let xv2 = JsonView::Text(f.signature);
    json::set_field_reads_back(v2, "signature"@, xv2);
    let v3 = v2.with("signature"@, xv2);
    let xv3 = JsonView::Text(f.file);
    json::set_field_reads_back(v3, "file"@, xv3);
    let v4 = v3.with("file"@, xv3);
    let xv4 = number(f.line as int);
    json::set_field_reads_back(v4, "line"@, xv4);
    let v5 = v4.with("line"@, xv4);
    let xv5 = JsonView::Text(f.marker);
    json::set_field_reads_back(v5, "marker"@, xv5);
    let v6 = v5.with("marker"@, xv5);
    let xv6 = JsonView::Text(f.declaration);
    json::set_field_reads_back(v6, "declaration"@, xv6);
    let v7 = v6.with("declaration"@, xv6);
    assert(v2.at("kind"@) == v1.at("kind"@));
    assert(v3.at("kind"@) == v2.at("kind"@));
    assert(v4.at("kind"@) == v3.at("kind"@));
    assert(v5.at("kind"@) == v4.at("kind"@));
    assert(v6.at("kind"@) == v5.at("kind"@));
    assert(v7.at("kind"@) == v6.at("kind"@));
    assert(v3.at("name"@) == v2.at("name"@));
    assert(v4.at("name"@) == v3.at("name"@));
    assert(v5.at("name"@) == v4.at("name"@));
    assert(v6.at("name"@) == v5.at("name"@));
    assert(v7.at("name"@) == v6.at("name"@));
    assert(v4.at("signature"@) == v3.at("signature"@));
    assert(v5.at("signature"@) == v4.at("signature"@));
    assert(v6.at("signature"@) == v5.at("signature"@));
    assert(v7.at("signature"@) == v6.at("signature"@));
    assert(v5.at("file"@) == v4.at("file"@));
    assert(v6.at("file"@) == v5.at("file"@));
    assert(v7.at("file"@) == v6.at("file"@));
    assert(v6.at("line"@) == v5.at("line"@));
    assert(v7.at("line"@) == v6.at("line"@));
    assert(v7.at("marker"@) == v6.at("marker"@));
}

/// What is said of a symbol that is a variable.
pub proof fn variable_symbol_is_shown_whole(g: GlobalInfoView)
    ensures
        ({
            let r = inspect::global_symbol_body(g);
            &&& r.at("kind"@) == JsonView::Text("global_variable"@)
            &&& r.at("name"@) == JsonView::Text(g.name)
            &&& r.at("type"@) == JsonView::Text(g.typ)
            &&& r.at("file"@) == JsonView::Text(g.file)
            &&& r.at("line"@) == number(g.line as int)
            &&& r.at("marker"@) == JsonView::Text(g.marker)
            &&& r.at("declaration"@) == JsonView::Text(g.declaration)
        }),
{
    reveal_strlit("kind");
    reveal_strlit("name");
    reveal_strlit("type");
    reveal_strlit("file");
    reveal_strlit("line");
    reveal_strlit("marker");
    reveal_strlit("declaration");
    assert("kind"@.len() == 4);
    assert("name"@.len() == 4);
    assert("type"@.len() == 4);
    assert("file"@.len() == 4);
    assert("line"@.len() == 4);
    assert("marker"@.len() == 6);
    assert("declaration"@.len() == 11);
    assert("kind"@[0] != "name"@[0]);
    assert("kind"@[0] != "type"@[0]);
    assert("name"@[0] != "type"@[0]);
    assert("kind"@[0] != "file"@[0]);
    assert("name"@[0] != "file"@[0]);
    assert("type"@[0] != "file"@[0]);
    assert("kind"@[0] != "line"@[0]);
    assert("name"@[0] != "line"@[0]);
    assert("type"@[0] != "line"@[0]);
    assert("file"@[0] != "line"@[0]);
    let v0 = json::no_fields();
    let xv0 = JsonView::Text("global_variable"@);
    json::set_field_reads_back(v0, "kind"@, xv0);
    let v1 = v0.with("kind"@, xv0);
    let xv1 = JsonView::Text(g.name);
    json::set_field_reads_back(v1, "name"@, xv1);
    let v2 = v1.with("name"@, xv1);
    let xv2 = JsonView::Text(g.typ);
    json::set_field_reads_back(v2, "type"@, xv2);
    let v3 = v2.with("type"@, xv2);
    let xv3 = JsonView::Text(g.file);
    json::set_field_reads_back(v3, "file"@, xv3);
    let v4 = v3.with("file"@, xv3);
    let xv4 = number(g.line as int);
    json::set_field_reads_back(v4, "line"@, xv4);
    let v5 = v4.with("line"@, xv4);
    let xv5 = JsonView::Text(g.marker);
    json::set_field_reads_back(v5, "marker"@, xv5);
    let v6 = v5.with("marker"@, xv5);
    let xv6 = JsonView::Text(g.declaration);
    json::set_field_reads_back(v6, "declaration"@, xv6);
    let v7 = v6.with("declaration"@, xv6);
    assert(v2.at("kind"@) == v1.at("kind"@));
    assert(v3.at("kind"@) == v2.at("kind"@));
    assert(v4.at("kind"@) == v3.at("kind"@));
    assert(v5.at("kind"@) == v4.at("kind"@));
    assert(v6.at("kind"@) == v5.at("kind"@));
    assert(v7.at("kind"@) == v6.at("kind"@));
    assert(v3.at("name"@) == v2.at("name"@));
    assert(v4.at("name"@) == v3.at("name"@));
    assert(v5.at("name"@) == v4.at("name"@));
    assert(v6.at("name"@) == v5.at("name"@));
    assert(v7.at("name"@) == v6.at("name"@));
    assert(v4.at("type"@) == v3.at("type"@));
    assert(v5.at("type"@) == v4.at("type"@));
    assert(v6.at("type"@) == v5.at("type"@));
    assert(v7.at("type"@) == v6.at("type"@));
    assert(v5.at("file"@) == v4.at("file"@));
    assert(v6.at("file"@) == v5.at("file"@));
    assert(v7.at("file"@) == v6.at("file"@));
    assert(v6.at("line"@) == v5.at("line"@));
    assert(v7.at("line"@) == v6.at("line"@));
    assert(v7.at("marker"@) == v6.at("marker"@));
}

/// A name that is in the table is found, as the table has it. One that is not is looked
/// for anew, once; then it is an error.
pub proof fn names_are_looked_up_twice_at_most(
    r: inspect::Lookup<crate::state::FunctionInfo>,
    table: Map<Seq<char>, FunctionInfoView>,
    name: Seq<char>,
    refreshed: bool,
    message: Seq<char>,
)
    requires
        inspect::is_lookup(r, table, name, refreshed, message),
    ensures
        r is Found <==> table.contains_key(name),
        r matches inspect::Lookup::Found(f) ==> f.deep_view() == table[name],
        r is Refresh <==> !table.contains_key(name) && !refreshed,
        r is Missing <==> !table.contains_key(name) && refreshed,
        r matches inspect::Lookup::Missing(e) ==> e.message@ == message,
{
}

/// Alarms are listed one by one, in the order in which they come: each that matches,
/// and no other.
pub proof fn alarms_are_listed_one_by_one(
    a: Seq<JsonView>,
    b: Seq<JsonView>,
    v: JsonView,
    scope: Option<Seq<char>>,
    kind: Option<Seq<char>>,
    status: Option<Seq<char>>,
)
    ensures
        properties::alarms_among(a + b, scope, kind, status) == properties::alarms_among(
            a,
            scope,
            kind,
            status,
        ) + properties::alarms_among(b, scope, kind, status),
        properties::alarms_among(seq![v], scope, kind, status) == if field_is(v, "scope"@, scope)
            && field_is(v, "kind"@, kind) && field_is(v, "status"@, status) {
            seq![v]
        } else {
            Seq::empty()
        },
{
    reveal(Seq::filter);
    let p = |p: JsonView| properties::alarm_matches(p, scope, kind, status);
    Seq::filter_distributes_over_add(a, b, p);
    alarms_are_listed_by_all_three(v, scope, kind, status);
    let one = seq![v];
    assert(one.drop_last() =~= Seq::<JsonView>::empty());
    assert(one.drop_last().filter(p) =~= Seq::<JsonView>::empty());
    assert(properties::alarms_among(one, scope, kind, status) =~= if p(v) {
        seq![v]
    } else {
        Seq::empty()
    });
}

/// The properties of a scope are listed one by one, in the order in which they come.
pub proof fn properties_are_listed_one_by_one(
    a: Seq<JsonView>,
    b: Seq<JsonView>,
    v: JsonView,
    scope: Seq<char>,
)
    ensures
        properties::properties_among(a + b, Some(scope)) == properties::properties_among(
            a,
            Some(scope),
        ) + properties::properties_among(b, Some(scope)),
        properties::properties_among(seq![v], Some(scope)) == if v.at("scope"@) == JsonView::Text(
            scope,
        ) {
            seq![v]
        } else {
            Seq::empty()
        },
        properties::properties_among(a, None) == a,
    decreases a.len(),
{
    reveal(Seq::filter);
    let p = |p: JsonView| properties::in_scope(p, Some(scope));
    Seq::filter_distributes_over_add(a, b, p);
    let one = seq![v];
    assert(one.drop_last() =~= Seq::<JsonView>::empty());
    assert(one.drop_last().filter(p) =~= Seq::<JsonView>::empty());
    assert(properties::properties_among(one, Some(scope)) =~= if p(v) {
        seq![v]
    } else {
        Seq::empty()
    });
    if a.len() > 0 {
        properties_are_listed_one_by_one(a.drop_last(), b, v, scope);
        assert(a.drop_last().push(a.last()) =~= a);
    } else {
        assert(properties::properties_among(a, None) =~= a);
    }
}

/// Goals are listed one by one, in the order in which they come: each that matches, with
/// its kind and its label, and no other.
pub proof fn goals_are_listed_one_by_one(
    a: Seq<JsonView>,
    b: Seq<JsonView>,
    g: JsonView,
    scope: Option<Seq<char>>,
    status: Option<Seq<char>>,
)
    ensures
        properties::goals_among(a + b, scope, status) == properties::goals_among(a, scope, status)
            + properties::goals_among(b, scope, status),
        properties::goals_among(seq![g], scope, status) == if properties::goal_matches(
            g,
            scope,
            status,
        ) {
            seq![properties::labelled_goal(g, properties::label_in(g))]
        } else {
            Seq::empty()
        },
{
    reveal(Seq::filter);
    let p = |g: JsonView| properties::goal_matches(g, scope, status);
    let f = |g: JsonView| properties::labelled_goal(g, properties::label_in(g));
    Seq::filter_distributes_over_add(a, b, p);
    assert((a.filter(p) + b.filter(p)).map_values(f) =~= a.filter(p).map_values(f) + b.filter(
        p,
    ).map_values(f));
    let one = seq![g];
    assert(one.drop_last() =~= Seq::<JsonView>::empty());
    assert(one.drop_last().filter(p) =~= Seq::<JsonView>::empty());
    assert(one.filter(p) =~= if p(g) {
        seq![g]
    } else {
        Seq::empty()
    });
    assert(properties::goals_among(one, scope, status) =~= if p(g) {
        seq![f(g)]
    } else {
        Seq::empty()
    });
}

} // verus!
