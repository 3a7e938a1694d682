//! What becomes of a proposal: every clause of it, as it was proposed, in its place.

use vstd::prelude::*;

use crate::json;
use crate::json::{JsonView, NumberView};
use crate::mcp::acsl;
use crate::mcp::acsl::{BehaviorView, FailureType};
use crate::mcp::inject;
use crate::mcp::inject::{
    AddReplyView, FailureView, InjectedView, OutcomeView, PlanView, ProposalView,
};
use crate::text;

verus! {

/// The text of a field, or the empty text.
pub open spec fn said(v: JsonView, key: Seq<char>) -> Seq<char> {
    match v.at(key) {
        JsonView::Text(s) => s,
        _ => Seq::empty(),
    }
}

/// The text of a field, where it is one.
pub open spec fn said_if(v: JsonView, key: Seq<char>) -> Option<Seq<char>> {
    match v.at(key) {
        JsonView::Text(s) => Some(s),
        _ => None,
    }
}

/// The items of a list field.
pub open spec fn listed(v: JsonView, key: Seq<char>) -> Seq<JsonView> {
    match v.at(key) {
        JsonView::List(l) => l,
        _ => Seq::empty(),
    }
}

/// A clause is planned as it was wrapped, or refused as an error of the proposal.
pub open spec fn planned_or_refused(
    wrapped: Result<Seq<char>, Seq<char>>,
    plan: PlanView,
    attempted: Seq<char>,
) -> OutcomeView {
    match wrapped {
        Ok(t) => OutcomeView::Planned(PlanView { acsl_text: t, ..plan }),
        Err(m) => OutcomeView::Refused(
            FailureView {
                failure_type: FailureType::ProposedError,
                proposed_path: plan.derived_from,
                acsl_text: attempted,
                frama_c_error: m,
            },
        ),
    }
}

/// The behaviors of a proposal are read one by one: each entry with a name is one,
/// with the texts that it lists as assumptions.
pub proof fn behaviors_are_read_one_by_one(a: Seq<JsonView>, b: Seq<JsonView>, v: JsonView)
    ensures
        inject::declared(a + b) == inject::declared(a) + inject::declared(b),
        inject::declared(seq![v]) == if said(v, "name"@).len() > 0 {
            seq![
                BehaviorView {
                    name: said(v, "name"@),
                    assumes: listed(v, "assumes"@).filter(|t: JsonView| t is Text).map_values(
                        |t: JsonView| t->Text_0,
                    ),
                },
            ]
        } else {
            Seq::empty()
        },
    decreases b.len(),
{
    let one = seq![v];
    assert(one.drop_last() =~= Seq::<JsonView>::empty());
    reveal_with_fuel(inject::declared, 2);
    lemma_texts_in(listed(v, "assumes"@));
    assert(inject::declared(one) =~= if said(v, "name"@).len() > 0 {
        seq![
            BehaviorView {
                name: said(v, "name"@),
                assumes: listed(v, "assumes"@).filter(|t: JsonView| t is Text).map_values(
                    |t: JsonView| t->Text_0,
                ),
            },
        ]
    } else {
        Seq::empty()
    });
    if b.len() == 0 {
        assert(a + b =~= a);
        assert(inject::declared(a) + inject::declared(b) =~= inject::declared(a));
    } else {
        behaviors_are_read_one_by_one(a, b.drop_last(), v);
        assert((a + b).drop_last() =~= a + b.drop_last());
        assert(inject::declared(a + b) =~= inject::declared(a) + inject::declared(b));
    }
}

proof fn lemma_texts_in(items: Seq<JsonView>)
    ensures
        json::texts_in(items) == items.filter(|t: JsonView| t is Text).map_values(
            |t: JsonView| t->Text_0,
        ),
    decreases items.len(),
{
    reveal(Seq::filter);
    let f = |t: JsonView| t->Text_0;
    if items.len() > 0 {
        lemma_texts_in(items.drop_last());
        let before = items.drop_last().filter(|t: JsonView| t is Text);
        assert(before.push(items.last()).map_values(f) =~= before.map_values(f).push(
            f(items.last()),
        ));
        assert(json::texts_in(items) =~= items.filter(|t: JsonView| t is Text).map_values(f));
    } else {
        assert(json::texts_in(items) =~= items.filter(|t: JsonView| t is Text).map_values(f));
    }
}

proof fn lemma_plans(list: Seq<JsonView>, n: int, b: Seq<BehaviorView>)
    requires
        0 <= n <= list.len(),
    ensures
        inject::precondition_plan(list, n, b).len() == n,
        inject::postcondition_plan(list, n, b).len() == n,
        forall|i: int|
            0 <= i < n ==> #[trigger] inject::precondition_plan(list, n, b)[i]
                == inject::precondition_outcome(list[i], i, b),
        forall|i: int|
            0 <= i < n ==> #[trigger] inject::postcondition_plan(list, n, b)[i]
                == inject::postcondition_outcome(list[i], i, b),
    decreases n,
{
    if n > 0 {
        lemma_plans(list, n - 1, b);
    }
}

/// Precondition `i` of a proposal is outcome `i`: a `requires` clause of the text
/// that was proposed, for the behavior that was named.
pub proof fn preconditions_come_first(p: ProposalView, i: int)
    requires
        0 <= i < p.preconditions.len(),
    ensures
        ({
            let v = p.preconditions[i];
            let path = "proposed_requires["@ + text::decimal(i as nat) + "]"@;
            inject::outcomes(p)[i] == planned_or_refused(
                acsl::funspec_clause(
                    "requires"@,
                    said(v, "acsl"@),
                    said_if(v, "behavior"@),
                    inject::declared(p.behaviors),
                    path,
                ),
                PlanView {
                    acsl_text: Seq::empty(),
                    kind: "spec"@,
                    derived_from: path,
                    stmt_id: None,
                    purpose: said(v, "necessity"@),
                    user_label: match said_if(v, "behavior"@) {
                        Some(b) => Some("beh_"@ + b),
                        None => None,
                    },
                },
                said(v, "acsl"@),
            )
        }),
        inject::outcomes(p).len() >= p.preconditions.len(),
{
    reveal_strlit("proposed_requires");
    reveal_strlit("proposed_requires[");
    reveal_strlit("[");
    let b = inject::declared(p.behaviors);
    lemma_plans(p.preconditions, p.preconditions.len() as int, b);
    assert("proposed_requires"@ + "["@ =~= "proposed_requires["@);
    assert(inject::outcomes(p)[i] == inject::precondition_outcome(p.preconditions[i], i, b));
}

/// Postcondition `j` comes behind all preconditions and the postconditions before
/// it: an `ensures` clause of the text that was proposed.
pub proof fn postconditions_come_next(p: ProposalView, j: int)
    requires
        0 <= j < p.postconditions.len(),
    ensures
        ({
            let v = p.postconditions[j];
            let a = said(v, "acsl"@);
            let path = "proposed_ensures["@ + text::decimal(j as nat) + "]"@;
            inject::outcomes(p)[p.preconditions.len() + j] == planned_or_refused(
                acsl::funspec_clause(
                    "ensures"@,
                    a,
                    said_if(v, "behavior"@),
                    inject::declared(p.behaviors),
                    path,
                ),
                PlanView {
                    acsl_text: Seq::empty(),
                    kind: "spec"@,
                    derived_from: path,
                    stmt_id: None,
                    purpose: if said(v, "from"@).len() > 0 {
                        said(v, "from"@)
                    } else if a.len() > 80 {
                        a.take(80)
                    } else {
                        a
                    },
                    user_label: match said_if(v, "behavior"@) {
                        Some(b) => Some("beh_"@ + b),
                        None => None,
                    },
                },
                a,
            )
        }),
        inject::outcomes(p).len() >= p.preconditions.len() + p.postconditions.len(),
{
    reveal_strlit("proposed_ensures");
    reveal_strlit("proposed_ensures[");
    reveal_strlit("[");
    let b = inject::declared(p.behaviors);
    lemma_plans(p.preconditions, p.preconditions.len() as int, b);
    lemma_plans(p.postconditions, p.postconditions.len() as int, b);
    assert("proposed_ensures"@ + "["@ =~= "proposed_ensures["@);
    let k = p.preconditions.len() + j;
    assert(inject::outcomes(p)[k] == inject::postcondition_plan(
        p.postconditions,
        p.postconditions.len() as int,
        b,
    )[j]);
}

/// The text is more than white space.
#[verifier::opaque]
pub open spec fn speaks(s: Seq<char>) -> bool {
    exists|i: int| 0 <= i < s.len() && !text::is_white_space(#[trigger] s[i])
}

/// A clause says something: its text is more than white space.
pub open spec fn says_something(v: JsonView) -> bool {
    speaks(said(v, "acsl"@))
}

proof fn lemma_blank(s: Seq<char>)
    ensures
        text::trimmed(s).len() > 0 <==> speaks(s),
{
    reveal(speaks);
    lemma_trim_start_blank(s);
    let t = text::trim_start(s);
    text::lemma_trim_start(s);
    lemma_trim_end_first(t);
}

proof fn lemma_trim_start_blank(s: Seq<char>)
    ensures
        text::trim_start(s).len() > 0 <==> exists|i: int|
            0 <= i < s.len() && !text::is_white_space(#[trigger] s[i]),
    decreases s.len(),
{
    if s.len() > 0 {
        if text::is_white_space(s[0]) {
            let rest = s.drop_first();
            lemma_trim_start_blank(rest);
            if exists|i: int| 0 <= i < rest.len() && !text::is_white_space(#[trigger] rest[i]) {
                let i = choose|i: int|
                    0 <= i < rest.len() && !text::is_white_space(#[trigger] rest[i]);
                assert(s[i + 1] == rest[i]);
            }
            if exists|i: int| 0 <= i < s.len() && !text::is_white_space(#[trigger] s[i]) {
                let i = choose|i: int| 0 <= i < s.len() && !text::is_white_space(#[trigger] s[i]);
                assert(rest[i - 1] == s[i]);
            }
        } else {
            assert(!text::is_white_space(s[0]));
        }
    }
}

proof fn lemma_trim_end_first(s: Seq<char>)
    ensures
        s.len() > 0 && !text::is_white_space(s[0]) ==> text::trim_end(s).len() > 0,
        s.len() == 0 ==> text::trim_end(s).len() == 0,
    decreases s.len(),
{
    if s.len() > 1 && text::is_white_space(s.last()) {
        lemma_trim_end_first(s.drop_last());
    }
}

/// How many of the first `n` clauses say something.
pub open spec fn speaking(list: Seq<JsonView>, n: int) -> nat
    decreases n,
{
    if n <= 0 {
        0
    } else {
        speaking(list, n - 1) + if says_something(list[n - 1]) {
            1nat
        } else {
            0nat
        }
    }
}

proof fn lemma_assigns_len(list: Seq<JsonView>, n: int, b: Seq<BehaviorView>)
    requires
        0 <= n <= list.len(),
    ensures
        inject::assigns_plan(list, n, b).len() == speaking(list, n),
    decreases n,
{
    if n > 0 {
        lemma_assigns_len(list, n - 1, b);
        lemma_blank(said(list[n - 1], "acsl"@));
    }
}

proof fn lemma_assigns_at(list: Seq<JsonView>, n: int, b: Seq<BehaviorView>, j: int)
    requires
        0 <= j < n <= list.len(),
        says_something(list[j]),
    ensures
        speaking(list, j) < speaking(list, n),
        inject::assigns_plan(list, n, b)[speaking(list, j) as int] == inject::assigns_outcome(
            list[j],
            j,
            b,
        ),
    decreases n,
{
    lemma_assigns_len(list, n - 1, b);
    lemma_blank(said(list[n - 1], "acsl"@));
    if j < n - 1 {
        lemma_assigns_at(list, n - 1, b, j);
    }
}

proof fn lemma_assigns_index(p: ProposalView, j: int)
    requires
        0 <= j < p.assigns.len(),
        says_something(p.assigns[j]),
    ensures
        ({
            let at = p.preconditions.len() + p.postconditions.len() + speaking(p.assigns, j);
            inject::outcomes(p)[at as int] == inject::assigns_outcome(
                p.assigns[j],
                j,
                inject::declared(p.behaviors),
            )
        }),
{
    let b = inject::declared(p.behaviors);
    let n = p.assigns.len() as int;
    lemma_plans(p.preconditions, p.preconditions.len() as int, b);
    lemma_plans(p.postconditions, p.postconditions.len() as int, b);
    lemma_assigns_len(p.assigns, n, b);
    lemma_assigns_at(p.assigns, n, b, j);
    let at = p.preconditions.len() + p.postconditions.len() + speaking(p.assigns, j);
    let x = inject::precondition_plan(p.preconditions, p.preconditions.len() as int, b)
        + inject::postcondition_plan(p.postconditions, p.postconditions.len() as int, b);
    let y = inject::assigns_plan(p.assigns, n, b);
    let z = inject::loops_plan(p.loop_annots, p.loop_annots.len() as int, b);
    let w = inject::terminates_plan(p.terminates, b);
    assert(inject::outcomes(p) == x + y + z + w);
    assert((x + y + z + w)[at as int] == y[speaking(p.assigns, j) as int]);
}

/// Assigns clause `j` comes behind the postconditions and the assigns clauses before
/// it that say something. One that says nothing is passed over.
pub proof fn assigns_come_behind(p: ProposalView, j: int)
    requires
        0 <= j < p.assigns.len(),
        says_something(p.assigns[j]),
    ensures
        ({
            let v = p.assigns[j];
            let a = said(v, "acsl"@);
            let path = "proposed_assigns["@ + text::decimal(j as nat) + "]"@;
            let at = p.preconditions.len() + p.postconditions.len() + speaking(p.assigns, j);
            inject::outcomes(p)[at as int] == planned_or_refused(
                match acsl::funspec_clause(
                    "assigns"@,
                    a,
                    said_if(v, "behavior"@),
                    inject::declared(p.behaviors),
                    path,
                ) {
                    Ok(t) => Ok(acsl::normalized(t)),
                    Err(m) => Err(m),
                },
                PlanView {
                    acsl_text: Seq::empty(),
                    kind: "spec"@,
                    derived_from: path,
                    stmt_id: None,
                    purpose: "Function-level modifies clause"@,
                    user_label: Some(
                        match said_if(v, "behavior"@) {
                            Some(b) => "beh_"@ + b + "_assigns"@,
                            None => "assigns_"@ + text::decimal(j as nat),
                        },
                    ),
                },
                a,
            )
        }),
{
    reveal_strlit("proposed_assigns");
    reveal_strlit("proposed_assigns[");
    reveal_strlit("[");
    assert("proposed_assigns"@ + "["@ =~= "proposed_assigns["@);
    lemma_assigns_index(p, j);
}

/// How many clauses of a loop say something; every invariant counts.
pub open spec fn loop_clauses(annot: JsonView) -> nat {
    listed(annot, "invariants"@).len() + speaking(
        listed(annot, "assigns"@),
        listed(annot, "assigns"@).len() as int,
    ) + if says_something(annot.at("variant"@)) {
        1nat
    } else {
        0nat
    }
}

/// How many clauses the first `n` loops have.
pub open spec fn all_loop_clauses(list: Seq<JsonView>, n: int) -> nat
    decreases n,
{
    if n <= 0 {
        0
    } else {
        all_loop_clauses(list, n - 1) + loop_clauses(list[n - 1])
    }
}

/// The clause of a loop, as it is planned for the loop's statement.
pub open spec fn loop_clause_outcome(
    annot: JsonView,
    keyword: Seq<char>,
    clause: JsonView,
    path: Seq<char>,
    purpose: Seq<char>,
    label: Seq<char>,
    behaviors: Seq<BehaviorView>,
) -> OutcomeView {
    planned_or_refused(
        acsl::loop_clause(
            keyword,
            said(clause, "acsl"@),
            said_if(clause, "behavior"@),
            behaviors,
            path,
        ),
        PlanView {
            acsl_text: Seq::empty(),
            kind: "annot"@,
            derived_from: path,
            stmt_id: match annot.at("stmt_id"@).signed() {
                Some(n) => Some(n as i64),
                None => None,
            },
            purpose: said(annot, "loop_label"@) + purpose,
            user_label: Some(
                "loop_"@ + said(annot, "loop_label"@).map_values(
                    |c: char|
                        if c == ' ' {
                            '_'
                        } else {
                            c
                        },
                ) + label,
            ),
        },
        Seq::empty(),
    )
}

/// The place of loop `i` in a proposal.
pub open spec fn place_of_loop(i: int) -> Seq<char> {
    "proposed_loop_annots["@ + text::decimal(i as nat) + "]"@
}

proof fn lemma_loop_outcome(
    annot: JsonView,
    keyword: Seq<char>,
    clause: JsonView,
    path: Seq<char>,
    purpose: Seq<char>,
    label: Seq<char>,
    behaviors: Seq<BehaviorView>,
)
    ensures
        inject::loop_outcome(annot, keyword, clause, path, purpose, label, behaviors)
            == loop_clause_outcome(annot, keyword, clause, path, purpose, label, behaviors),
{
    let l = said(annot, "loop_label"@);
    assert(text::with_char_replaced(l, ' ', '_') =~= l.map_values(
        |c: char|
            if c == ' ' {
                '_'
            } else {
                c
            },
    ));
}

proof fn lemma_place(i: int)
    ensures
        inject::loop_path(i) == place_of_loop(i),
{
    reveal_strlit("proposed_loop_annots");
    reveal_strlit("proposed_loop_annots[");
    reveal_strlit("[");
    assert("proposed_loop_annots"@ + "["@ =~= "proposed_loop_annots["@);
}

proof fn lemma_invariants(
    annot: JsonView,
    i: int,
    list: Seq<JsonView>,
    n: int,
    b: Seq<BehaviorView>,
)
    requires
        0 <= n <= list.len(),
    ensures
        inject::invariant_plan(annot, i, list, n, b).len() == n,
        forall|j: int|
            0 <= j < n ==> #[trigger] inject::invariant_plan(annot, i, list, n, b)[j]
                == loop_clause_outcome(
                annot,
                "loop invariant"@,
                list[j],
                place_of_loop(i) + ".invariants["@ + text::decimal(j as nat) + "]"@,
                " invariant "@ + text::decimal(j as nat),
                "_inv_"@ + text::decimal(j as nat),
                b,
            ),
    decreases n,
{
    reveal_strlit(".invariants[");
    reveal_strlit(".invariants");
    reveal_strlit("[");
    if n > 0 {
        lemma_invariants(annot, i, list, n - 1, b);
        lemma_place(i);
        let d = text::decimal((n - 1) as nat);
        let path = inject::indexed(inject::loop_path(i) + ".invariants"@, n - 1);
        assert(path =~= place_of_loop(i) + ".invariants["@ + d + "]"@);
        lemma_loop_outcome(
            annot,
            "loop invariant"@,
            list[n - 1],
            path,
            " invariant "@ + d,
            "_inv_"@ + d,
            b,
        );
    }
}

proof fn lemma_loop_assigns(
    annot: JsonView,
    i: int,
    list: Seq<JsonView>,
    n: int,
    b: Seq<BehaviorView>,
)
    requires
        0 <= n <= list.len(),
    ensures
        inject::loop_assigns_plan(annot, i, list, n, b).len() == speaking(list, n),
        forall|j: int|
            0 <= j < n && #[trigger] says_something(list[j]) ==> speaking(list, j) < speaking(
                list,
                n,
            ) && inject::loop_assigns_plan(annot, i, list, n, b)[speaking(list, j) as int]
                == loop_clause_outcome(
                annot,
                "loop assigns"@,
                list[j],
                place_of_loop(i) + ".assigns["@ + text::decimal(j as nat) + "]"@,
                " assigns "@ + text::decimal(j as nat),
                "_assigns_"@ + text::decimal(j as nat),
                b,
            ),
    decreases n,
{
    reveal_strlit(".assigns[");
    reveal_strlit(".assigns");
    reveal_strlit("[");
    if n > 0 {
        lemma_loop_assigns(annot, i, list, n - 1, b);
        lemma_blank(said(list[n - 1], "acsl"@));
        assert(inject::is_blank(list[n - 1]) <==> !says_something(list[n - 1]));
        lemma_place(i);
        let d = text::decimal((n - 1) as nat);
        let path = inject::indexed(inject::loop_path(i) + ".assigns"@, n - 1);
        assert(path =~= place_of_loop(i) + ".assigns["@ + d + "]"@);
        lemma_loop_outcome(
            annot,
            "loop assigns"@,
            list[n - 1],
            path,
            " assigns "@ + d,
            "_assigns_"@ + d,
            b,
        );
    }
}

/// The clauses of loop `i`: its invariants, then its assigns clauses that say
/// something, then its variant where it says something. Each carries the loop's
/// statement, and tells its own place in the proposal.
#[verifier::rlimit(40)]
pub proof fn loop_clauses_are_planned(annot: JsonView, i: int, b: Seq<BehaviorView>)
    ensures
        inject::loop_plan(annot, i, b).len() == loop_clauses(annot),
        forall|j: int|
            0 <= j < listed(annot, "invariants"@).len() ==> #[trigger] inject::loop_plan(
                annot,
                i,
                b,
            )[j] == loop_clause_outcome(
                annot,
                "loop invariant"@,
                listed(annot, "invariants"@)[j],
                place_of_loop(i) + ".invariants["@ + text::decimal(j as nat) + "]"@,
                " invariant "@ + text::decimal(j as nat),
                "_inv_"@ + text::decimal(j as nat),
                b,
            ),
        forall|j: int|
            0 <= j < listed(annot, "assigns"@).len() && #[trigger] says_something(
                listed(annot, "assigns"@)[j],
            ) ==> inject::loop_plan(annot, i, b)[(listed(annot, "invariants"@).len() + speaking(
                listed(annot, "assigns"@),
                j,
            )) as int] == loop_clause_outcome(
                annot,
                "loop assigns"@,
                listed(annot, "assigns"@)[j],
                place_of_loop(i) + ".assigns["@ + text::decimal(j as nat) + "]"@,
                " assigns "@ + text::decimal(j as nat),
                "_assigns_"@ + text::decimal(j as nat),
                b,
            ),
        says_something(annot.at("variant"@)) ==> inject::loop_plan(annot, i, b).last()
            == loop_clause_outcome(
            annot,
            "loop variant"@,
            annot.at("variant"@),
            place_of_loop(i) + ".variant"@,
            " variant"@,
            "_variant"@,
            b,
        ),
{
    let invariants = listed(annot, "invariants"@);
    let assigns = listed(annot, "assigns"@);
    assert(inject::list_under(annot, "invariants"@) == invariants);
    assert(inject::list_under(annot, "assigns"@) == assigns);
    lemma_invariants(annot, i, invariants, invariants.len() as int, b);
    lemma_loop_assigns(annot, i, assigns, assigns.len() as int, b);
    let variant = annot.at("variant"@);
    lemma_blank(said(variant, "acsl"@));
    assert(inject::is_blank(variant) <==> !says_something(variant));
    lemma_place(i);
    lemma_loop_outcome(
        annot,
        "loop variant"@,
        variant,
        inject::loop_path(i) + ".variant"@,
        " variant"@,
        "_variant"@,
        b,
    );
    let x = inject::invariant_plan(annot, i, invariants, invariants.len() as int, b);
    let y = inject::loop_assigns_plan(annot, i, assigns, assigns.len() as int, b);
    let z = inject::variant_plan(annot, i, b);
    let all = inject::loop_plan(annot, i, b);
    assert(all == x + y + z);
    assert forall|j: int| 0 <= j < invariants.len() implies #[trigger] all[j]
        == loop_clause_outcome(
        annot,
        "loop invariant"@,
        invariants[j],
        place_of_loop(i) + ".invariants["@ + text::decimal(j as nat) + "]"@,
        " invariant "@ + text::decimal(j as nat),
        "_inv_"@ + text::decimal(j as nat),
        b,
    ) by {
        assert(all[j] == x[j]);
    }
    assert forall|j: int|
        0 <= j < assigns.len() && #[trigger] says_something(assigns[j]) implies all[(
    invariants.len() + speaking(assigns, j)) as int] == loop_clause_outcome(
        annot,
        "loop assigns"@,
        assigns[j],
        place_of_loop(i) + ".assigns["@ + text::decimal(j as nat) + "]"@,
        " assigns "@ + text::decimal(j as nat),
        "_assigns_"@ + text::decimal(j as nat),
        b,
    ) by {
        assert(all[(invariants.len() + speaking(assigns, j)) as int] == y[speaking(
            assigns,
            j,
        ) as int]);
    }
}

proof fn lemma_loops_len(list: Seq<JsonView>, n: int, b: Seq<BehaviorView>)
    requires
        0 <= n <= list.len(),
    ensures
        inject::loops_plan(list, n, b).len() == all_loop_clauses(list, n),
    decreases n,
{
    if n > 0 {
        lemma_loops_len(list, n - 1, b);
        loop_clauses_are_planned(list[n - 1], n - 1, b);
    }
}

proof fn lemma_loops_at(list: Seq<JsonView>, n: int, b: Seq<BehaviorView>, i: int)
    requires
        0 <= i < n <= list.len(),
    ensures
        all_loop_clauses(list, i) + loop_clauses(list[i]) <= all_loop_clauses(list, n),
        inject::loops_plan(list, n, b).subrange(
            all_loop_clauses(list, i) as int,
            (all_loop_clauses(list, i) + loop_clauses(list[i])) as int,
        ) == inject::loop_plan(list[i], i, b),
    decreases n,
{
    lemma_loops_len(list, n - 1, b);
    loop_clauses_are_planned(list[n - 1], n - 1, b);
    let before = inject::loops_plan(list, n - 1, b);
    let own = inject::loop_plan(list[n - 1], n - 1, b);
    let all = inject::loops_plan(list, n, b);
    assert(all == before + own);
    let x = all_loop_clauses(list, i) as int;
    let y = (all_loop_clauses(list, i) + loop_clauses(list[i])) as int;
    if i < n - 1 {
        lemma_loops_at(list, n - 1, b, i);
        assert(all.subrange(x, y) =~= before.subrange(x, y));
    } else {
        assert(all.subrange(x, y) =~= own);
    }
}

/// The text of a termination clause: that of its field, or the value itself.
pub open spec fn termination_text(t: JsonView) -> Seq<char> {
    match t.at("acsl"@) {
        JsonView::Text(s) => s,
        _ => match t {
            JsonView::Text(s) => s,
            _ => Seq::empty(),
        },
    }
}

/// Where the clauses of the loops begin.
pub open spec fn start_of_loops(p: ProposalView) -> nat {
    p.preconditions.len() + p.postconditions.len() + speaking(p.assigns, p.assigns.len() as int)
}

proof fn lemma_parts(p: ProposalView) -> (r: (Seq<OutcomeView>, Seq<OutcomeView>, Seq<OutcomeView>))
    ensures
        inject::outcomes(p) == r.0 + r.1 + r.2,
        r.0.len() == start_of_loops(p),
        r.1 == inject::loops_plan(
            p.loop_annots,
            p.loop_annots.len() as int,
            inject::declared(p.behaviors),
        ),
        r.1.len() == all_loop_clauses(p.loop_annots, p.loop_annots.len() as int),
        r.2 == inject::terminates_plan(p.terminates, inject::declared(p.behaviors)),
{
    let b = inject::declared(p.behaviors);
    lemma_plans(p.preconditions, p.preconditions.len() as int, b);
    lemma_plans(p.postconditions, p.postconditions.len() as int, b);
    lemma_assigns_len(p.assigns, p.assigns.len() as int, b);
    lemma_loops_len(p.loop_annots, p.loop_annots.len() as int, b);
    let x = inject::precondition_plan(p.preconditions, p.preconditions.len() as int, b)
        + inject::postcondition_plan(p.postconditions, p.postconditions.len() as int, b)
        + inject::assigns_plan(p.assigns, p.assigns.len() as int, b);
    let y = inject::loops_plan(p.loop_annots, p.loop_annots.len() as int, b);
    let z = inject::terminates_plan(p.terminates, b);
    (x, y, z)
}

/// The clauses of loop `i` come behind the assigns clauses of the function and the
/// clauses of the loops before it.
pub proof fn loops_come_behind(p: ProposalView, i: int)
    requires
        0 <= i < p.loop_annots.len(),
    ensures
        ({
            let start = start_of_loops(p) + all_loop_clauses(p.loop_annots, i);
            let end = start + loop_clauses(p.loop_annots[i]);
            &&& end <= inject::outcomes(p).len()
            &&& inject::outcomes(p).subrange(start as int, end as int) == inject::loop_plan(
                p.loop_annots[i],
                i,
                inject::declared(p.behaviors),
            )
        }),
{
    let b = inject::declared(p.behaviors);
    let n = p.loop_annots.len() as int;
    let (x, y, z) = lemma_parts(p);
    lemma_loops_at(p.loop_annots, n, b, i);
    let from = all_loop_clauses(p.loop_annots, i) as int;
    let to = (all_loop_clauses(p.loop_annots, i) + loop_clauses(p.loop_annots[i])) as int;
    let start = start_of_loops(p) as int;
    assert((x + y + z).subrange(start + from, start + to) =~= y.subrange(from, to));
}

/// The termination clause comes last, where it says something. Nothing else is
/// planned.
pub proof fn termination_comes_last(p: ProposalView)
    ensures
        ({
            let before = start_of_loops(p) + all_loop_clauses(
                p.loop_annots,
                p.loop_annots.len() as int,
            );
            if p.terminates is Some && speaks(termination_text(p.terminates->0)) {
                let body = termination_text(p.terminates->0);
                &&& inject::outcomes(p).len() == before + 1
                &&& inject::outcomes(p).last() == planned_or_refused(
                    acsl::funspec_clause(
                        "terminates"@,
                        body,
                        None,
                        inject::declared(p.behaviors),
                        "proposed_terminates"@,
                    ),
                    PlanView {
                        acsl_text: Seq::empty(),
                        kind: "spec"@,
                        derived_from: "proposed_terminates"@,
                        stmt_id: None,
                        purpose: "termination_waived"@,
                        user_label: Some("termination_waived"@),
                    },
                    body,
                )
            } else {
                inject::outcomes(p).len() == before
            }
        }),
{
    let (x, y, z) = lemma_parts(p);
    match p.terminates {
        Some(t) => {
            lemma_blank(termination_text(t));
            assert(inject::terminates_body(t) == termination_text(t));
            if speaks(termination_text(t)) {
                assert((x + y + z).last() == z[0]);
            }
        },
        None => {},
    }
}

/// What was planned and what was refused are the outcomes, sorted: nothing is lost,
/// and the order is kept.
pub proof fn outcomes_are_sorted_into_two(o: Seq<OutcomeView>)
    ensures
        inject::planned(o) == o.filter(|x: OutcomeView| x is Planned).map_values(
            |x: OutcomeView| x->Planned_0,
        ),
        inject::refused(o) == o.filter(|x: OutcomeView| x is Refused).map_values(
            |x: OutcomeView| x->Refused_0,
        ),
    decreases o.len(),
{
    reveal(Seq::filter);
    let f = |x: OutcomeView| x->Planned_0;
    let g = |x: OutcomeView| x->Refused_0;
    if o.len() > 0 {
        outcomes_are_sorted_into_two(o.drop_last());
        let a = o.drop_last().filter(|x: OutcomeView| x is Planned);
        let b = o.drop_last().filter(|x: OutcomeView| x is Refused);
        assert(a.push(o.last()).map_values(f) =~= a.map_values(f).push(f(o.last())));
        assert(b.push(o.last()).map_values(g) =~= b.map_values(g).push(g(o.last())));
    }
    assert(inject::planned(o) =~= o.filter(|x: OutcomeView| x is Planned).map_values(f));
    assert(inject::refused(o) =~= o.filter(|x: OutcomeView| x is Refused).map_values(g));
}

/// The statement of a loop is set to the given one; nothing else of the loop changes.
pub proof fn only_the_statement_is_set(annot: JsonView, sid: i64, other: Seq<char>)
    requires
        annot is Record,
    ensures
        inject::with_stmt_id(annot, sid).at("stmt_id"@) == JsonView::Number(
            NumberView::Int(sid as int),
        ),
        other != "stmt_id"@ ==> inject::with_stmt_id(annot, sid).at(other) == annot.at(other),
{
    json::field_set_is_field_found(
        annot->Record_0,
        "stmt_id"@,
        json::whole(sid as int),
        other,
    );
    json::field_set_is_field_found(
        annot->Record_0,
        "stmt_id"@,
        json::whole(sid as int),
        "stmt_id"@,
    );
}

/// A clause counts as added exactly where the reply is JSON that says so; it is then
/// reported as it was planned, under the label that it was sent with. Else the
/// failure tells the clause, its place in the proposal and the message.
pub proof fn reply_decides_what_was_added(
    e: PlanView,
    reply: Seq<char>,
    v: JsonView,
    hash_label: Seq<char>,
)
    requires
        json::json_parsed(reply) == Ok::<JsonView, Seq<char>>(v),
    ensures
        ({
            let r = inject::reply_outcome(
                e,
                AddReplyView::Answered { reply: Some(reply), hash_label },
            );
            &&& r is Ok <==> v.at("result"@).at("success"@) == JsonView::Bool(true)
            &&& r matches Ok(x) ==> x.hash_label == hash_label && x.acsl == e.acsl_text
                && x.stmt_id == e.stmt_id && x.derived_from == e.derived_from && x.kind == e.kind
                && x.user_label == e.user_label && x.purpose == e.purpose
            &&& r matches Err(f) ==> f.acsl_text == e.acsl_text && f.proposed_path
                == e.derived_from && f.frama_c_error == match v.at("result"@).at("error"@) {
                JsonView::Text(m) => m,
                _ => "unknown error"@,
            }
        }),
{
}

/// A run is a success exactly where nothing failed, and partial exactly where
/// something failed and all of it on syntax.
pub proof fn status_sums_up_the_failures(failures: Seq<crate::mcp::types::InjectionFailure>)
    ensures
        inject::status_of(failures) == "success"@ <==> failures.len() == 0,
        inject::status_of(failures) == "partial"@ <==> failures.len() > 0 && forall|i: int|
            0 <= i < failures.len() ==> (#[trigger] failures[i]).failure_type
                == FailureType::SyntaxError,
        inject::status_of(failures) == "proposed_error"@ <==> exists|i: int|
            0 <= i < failures.len() && (#[trigger] failures[i]).failure_type
                != FailureType::SyntaxError,
{
    reveal_strlit("success");
    reveal_strlit("partial");
    reveal_strlit("proposed_error");
    assert("success"@[0] != "partial"@[0]);
    assert("success"@[0] != "proposed_error"@[0]);
    assert("partial"@[1] != "proposed_error"@[1]);
}

// ── Statements in an AST ────────────────────────────────────────────────

/// `sub` is the value `node` itself, or stands somewhere inside it.
pub open spec fn within(node: JsonView, sub: JsonView) -> bool
    decreases node,
{
    ||| sub == node
    ||| match node {
        JsonView::List(items) => exists|i: int|
            0 <= i < items.len() && within(#[trigger] items[i], sub),
        JsonView::Record(fields) => exists|i: int|
            0 <= i < fields.len() && within((#[trigger] fields[i]).1, sub),
        _ => false,
    }
}

/// The value is a statement with the given id; of a loop, where only loops are asked
/// for.
pub open spec fn is_statement(v: JsonView, loops_only: bool, n: int) -> bool {
    &&& v is Record
    &&& v.at("sid"@).signed() == Some(n)
    &&& loops_only ==> v.at("kind"@) == JsonView::Text("loop"@)
}

/// A statement with the given id stands somewhere in `node`.
pub open spec fn found(node: JsonView, loops_only: bool, n: int) -> bool {
    exists|sub: JsonView| #[trigger] within(node, sub) && is_statement(sub, loops_only, n)
}

proof fn lemma_found_list(items: Seq<JsonView>, loops_only: bool, n: int)
    ensures
        found(JsonView::List(items), loops_only, n) <==> exists|i: int|
            0 <= i < items.len() && found(#[trigger] items[i], loops_only, n),
{
    let node = JsonView::List(items);
    if found(node, loops_only, n) {
        let sub = choose|sub: JsonView| #[trigger]
            within(node, sub) && is_statement(sub, loops_only, n);
        let i = choose|i: int| 0 <= i < items.len() && within(#[trigger] items[i], sub);
        assert(found(items[i], loops_only, n));
    }
    if exists|i: int| 0 <= i < items.len() && found(#[trigger] items[i], loops_only, n) {
        let i = choose|i: int| 0 <= i < items.len() && found(#[trigger] items[i], loops_only, n);
        let sub = choose|sub: JsonView| #[trigger]
            within(items[i], sub) && is_statement(sub, loops_only, n);
        reveal_with_fuel(within, 2);
        assert(node->List_0[i] == items[i]);
        assert(within(node, sub));
    }
}

proof fn lemma_found_record(fields: Seq<(Seq<char>, JsonView)>, loops_only: bool, n: int)
    ensures
        found(JsonView::Record(fields), loops_only, n) <==> is_statement(
            JsonView::Record(fields),
            loops_only,
            n,
        ) || exists|i: int|
            0 <= i < fields.len() && found((#[trigger] fields[i]).1, loops_only, n),
{
    let node = JsonView::Record(fields);
    if found(node, loops_only, n) {
        let sub = choose|sub: JsonView| #[trigger]
            within(node, sub) && is_statement(sub, loops_only, n);
        if sub != node {
            let i = choose|i: int| 0 <= i < fields.len() && within((#[trigger] fields[i]).1, sub);
            assert(found(fields[i].1, loops_only, n));
        }
    }
    if is_statement(node, loops_only, n) {
        assert(within(node, node));
    }
    if exists|i: int| 0 <= i < fields.len() && found((#[trigger] fields[i]).1, loops_only, n) {
        let i = choose|i: int|
            0 <= i < fields.len() && found((#[trigger] fields[i]).1, loops_only, n);
        let sub = choose|sub: JsonView| #[trigger]
            within(fields[i].1, sub) && is_statement(sub, loops_only, n);
        let field = fields[i];
        assert(exists|j: int| 0 <= j < fields.len() && within((#[trigger] fields[j]).1, sub)) by {
            assert(within(field.1, sub));
        }
        assert(within(node, sub));
    }
}

proof fn lemma_either(a: Seq<i64>, b: Seq<i64>, x: i64)
    ensures
        (a + b).contains(x) <==> a.contains(x) || b.contains(x),
{
    if a.contains(x) {
        assert((a + b)[a.index_of(x)] == x);
    }
    if b.contains(x) {
        assert((a + b)[a.len() + b.index_of(x)] == x);
    }
    if (a + b).contains(x) {
        let i = (a + b).index_of(x);
        if i < a.len() {
            assert(a[i] == x);
        } else {
            assert(b[i - a.len()] == x);
        }
    }
}

/// The ids that are collected from an AST are those of the statements that stand
/// somewhere in it: of all of them, or of the loops.
#[verifier::rlimit(40)]
pub proof fn collected_ids_are_those_of_the_statements(node: JsonView, loops_only: bool, n: i64)
    ensures
        inject::sids(node, loops_only).contains(n) <==> found(node, loops_only, n as int),
    decreases node, 1int,
{
    match node {
        JsonView::Record(fields) => {
            lemma_found_record(fields, loops_only, n as int);
            let own = inject::own_sid(node, loops_only);
            assert(own.contains(n) <==> is_statement(node, loops_only, n as int)) by {
                if own.len() > 0 {
                    assert(own[0] == node.at("sid"@).signed()->0 as i64);
                }
            }
            lemma_ids_of_fields(node, fields, loops_only, n, fields.len() as int);
            assert(fields.take(fields.len() as int) =~= fields);
            if node.field("then_body"@) is Some && node.field("else_body"@) is Some {
                let a = inject::sids_under(fields, "cond"@, loops_only);
                let b = inject::sids_under(fields, "then_body"@, loops_only);
                let c = inject::sids_under(fields, "else_body"@, loops_only);
                let d = inject::sids_elsewhere(fields, loops_only);
                lemma_either(a, b, n);
                lemma_either(a + b, c, n);
                lemma_either(a + b + c, d, n);
                lemma_either(own, a + b + c + d, n);
            } else {
                lemma_either(own, inject::sids_of_fields(fields, loops_only), n);
            }
        },
        JsonView::List(items) => {
            lemma_found_list(items, loops_only, n as int);
            lemma_ids_of_items(node, items, loops_only, n, items.len() as int);
            assert(items.take(items.len() as int) =~= items);
        },
        _ => {
            if found(node, loops_only, n as int) {
                let sub = choose|sub: JsonView| #[trigger]
                    within(node, sub) && is_statement(sub, loops_only, n as int);
            }
        },
    }
}

proof fn lemma_ids_of_items(
    node: JsonView,
    items: Seq<JsonView>,
    loops_only: bool,
    n: i64,
    k: int,
)
    requires
        node == JsonView::List(items),
        0 <= k <= items.len(),
    ensures
        inject::sids_of_items(items.take(k), loops_only).contains(n) <==> exists|i: int|
            0 <= i < k && found(#[trigger] items[i], loops_only, n as int),
    decreases node, 0int, k,
{
    if k > 0 {
        lemma_ids_of_items(node, items, loops_only, n, k - 1);
        assert(items.take(k).drop_last() =~= items.take(k - 1));
        assert(items.take(k).last() == items[k - 1]);
        lemma_item_is_smaller(node, k - 1);
        collected_ids_are_those_of_the_statements(items[k - 1], loops_only, n);
        lemma_either(
            inject::sids_of_items(items.take(k - 1), loops_only),
            inject::sids(items[k - 1], loops_only),
            n,
        );
    }
}

proof fn lemma_item_is_smaller(node: JsonView, i: int)
    requires
        node is List,
        0 <= i < node->List_0.len(),
    ensures
        decreases_to!(node => node->List_0[i]),
{
    let items = node->List_0;
    assert(decreases_to!(node => node->List_0));
    assert(decreases_to!(items => items[i]));
}

#[verifier::rlimit(40)]
proof fn lemma_ids_of_fields(
    node: JsonView,
    fields: Seq<(Seq<char>, JsonView)>,
    loops_only: bool,
    n: i64,
    k: int,
)
    requires
        node == JsonView::Record(fields),
        0 <= k <= fields.len(),
    ensures
        inject::sids_of_fields(fields.take(k), loops_only).contains(n) <==> exists|i: int|
            0 <= i < k && found((#[trigger] fields[i]).1, loops_only, n as int),
        inject::sids_under(fields.take(k), "cond"@, loops_only).contains(n)
            || inject::sids_under(fields.take(k), "then_body"@, loops_only).contains(n)
            || inject::sids_under(fields.take(k), "else_body"@, loops_only).contains(n)
            || inject::sids_elsewhere(fields.take(k), loops_only).contains(n) <==> exists|i: int|
            0 <= i < k && found((#[trigger] fields[i]).1, loops_only, n as int),
    decreases node, 0int, k,
{
    if k > 0 {
        lemma_ids_of_fields(node, fields, loops_only, n, k - 1);
        assert(fields.take(k).drop_last() =~= fields.take(k - 1));
        assert(fields.take(k).last() == fields[k - 1]);
        inject::lemma_field_decreases(node, k - 1);
        let own = inject::sids(fields[k - 1].1, loops_only);
        let rest = fields.take(k - 1);
        collected_ids_are_those_of_the_statements(fields[k - 1].1, loops_only, n);
        lemma_either(inject::sids_of_fields(rest, loops_only), own, n);
        lemma_either(inject::sids_under(rest, "cond"@, loops_only), own, n);
        lemma_either(inject::sids_under(rest, "then_body"@, loops_only), own, n);
        lemma_either(inject::sids_under(rest, "else_body"@, loops_only), own, n);
        lemma_either(inject::sids_elsewhere(rest, loops_only), own, n);
        let now = exists|i: int|
            0 <= i < k && found((#[trigger] fields[i]).1, loops_only, n as int);
        let before = exists|i: int|
            0 <= i < k - 1 && found((#[trigger] fields[i]).1, loops_only, n as int);
        assert(now <==> before || found(fields[k - 1].1, loops_only, n as int));
    }
}

/// The ids come in source order: those of a list item by item.
pub proof fn ids_of_a_list_come_item_by_item(
    a: Seq<JsonView>,
    b: Seq<JsonView>,
    x: JsonView,
    loops_only: bool,
)
    ensures
        inject::sids(JsonView::List(a + b), loops_only) == inject::sids(
            JsonView::List(a),
            loops_only,
        ) + inject::sids(JsonView::List(b), loops_only),
        inject::sids(JsonView::List(seq![x]), loops_only) == inject::sids(x, loops_only),
    decreases b.len(),
{
    let one = seq![x];
    assert(one.drop_last() =~= Seq::<JsonView>::empty());
    assert(inject::sids_of_items(one.drop_last(), loops_only) =~= Seq::<i64>::empty());
    assert(inject::sids_of_items(one, loops_only) =~= inject::sids(x, loops_only));
    let f = inject::sids_of_items(a, loops_only);
    if b.len() == 0 {
        assert(a + b =~= a);
        assert(f + inject::sids_of_items(b, loops_only) =~= f);
    } else {
        ids_of_a_list_come_item_by_item(a, b.drop_last(), x, loops_only);
        assert((a + b).drop_last() =~= a + b.drop_last());
        assert(inject::sids(JsonView::List(a + b.drop_last()), loops_only) == f
            + inject::sids_of_items(b.drop_last(), loops_only));
        assert(inject::sids_of_items(a + b, loops_only) =~= f + inject::sids_of_items(
            b,
            loops_only,
        ));
    }
}

/// The id of a statement comes before those of the statements inside it; and of an
/// `if`, those of the condition come first, then those of the first branch, then
/// those of the other, in whatever order the fields stand.
pub proof fn ids_of_branches_come_in_source_order(
    node: JsonView,
    cond: JsonView,
    first: JsonView,
    other: JsonView,
    loops_only: bool,
    n: int,
)
    requires
        node is Record,
        json::distinct_keys(node->Record_0),
        node.field("cond"@) == Some(cond),
        node.field("then_body"@) == Some(first),
        node.field("else_body"@) == Some(other),
        is_statement(node, loops_only, n),
    ensures
        (seq![n as i64] + inject::sids(cond, loops_only) + inject::sids(first, loops_only)
            + inject::sids(other, loops_only)).is_prefix_of(inject::sids(node, loops_only)),
{
    let fields = node->Record_0;
    lemma_under(fields, "cond"@, loops_only);
    lemma_under(fields, "then_body"@, loops_only);
    lemma_under(fields, "else_body"@, loops_only);
    let a = inject::sids(cond, loops_only);
    let b = inject::sids(first, loops_only);
    let c = inject::sids(other, loops_only);
    let d = inject::sids_elsewhere(fields, loops_only);
    assert(inject::own_sid(node, loops_only) =~= seq![n as i64]);
    assert(inject::sids(node, loops_only) == seq![n as i64] + (a + b + c + d));
    let front = seq![n as i64] + a + b + c;
    assert(seq![n as i64] + (a + b + c + d) =~= front + d);
}

proof fn lemma_under(fields: Seq<(Seq<char>, JsonView)>, key: Seq<char>, loops_only: bool)
    requires
        json::distinct_keys(fields),
    ensures
        inject::sids_under(fields, key, loops_only) == match json::lookup(fields, key) {
            Some(v) => inject::sids(v, loops_only),
            None => Seq::empty(),
        },
    decreases fields.len(),
{
    if fields.len() > 0 {
        let rest = fields.drop_last();
        assert(json::distinct_keys(rest)) by {
            assert forall|i: int, j: int|
                #![trigger rest[i], rest[j]]
                0 <= i < j < rest.len() implies rest[i].0 != rest[j].0 by {
                assert(rest[i] == fields[i] && rest[j] == fields[j]);
            }
        }
        lemma_under(rest, key, loops_only);
        lemma_lookup_last(fields, key);
        let own = inject::sids(fields.last().1, loops_only);
        if fields.last().0 == key {
            assert(json::lookup(rest, key) is None) by {
                assert forall|i: int| 0 <= i < rest.len() implies (
                #[trigger] rest[i]).0 != key by {
                    assert(rest[i] == fields[i]);
                    assert(fields[fields.len() - 1].0 == key);
                }
                lemma_lookup_none(rest, key);
            }
            assert(Seq::<i64>::empty() + own =~= own);
        }
    }
}

proof fn lemma_lookup_none(fields: Seq<(Seq<char>, JsonView)>, key: Seq<char>)
    requires
        forall|i: int| 0 <= i < fields.len() ==> (#[trigger] fields[i]).0 != key,
    ensures
        json::lookup(fields, key) is None,
    decreases fields.len(),
{
    if fields.len() > 0 {
        let rest = fields.drop_first();
        assert forall|i: int| 0 <= i < rest.len() implies (#[trigger] rest[i]).0 != key by {
            assert(rest[i] == fields[i + 1]);
        }
        assert(fields[0].0 != key);
        lemma_lookup_none(rest, key);
    }
}

proof fn lemma_lookup_last(fields: Seq<(Seq<char>, JsonView)>, key: Seq<char>)
    requires
        fields.len() > 0,
    ensures
        json::lookup(fields, key) == match json::lookup(fields.drop_last(), key) {
            Some(v) => Some(v),
            None => if fields.last().0 == key {
                Some(fields.last().1)
            } else {
                None
            },
        },
    decreases fields.len(),
{
    if fields.len() == 1 {
        assert(fields.drop_last() =~= Seq::empty());
        assert(fields.drop_first() =~= Seq::empty());
        reveal_with_fuel(json::lookup, 2);
    } else if fields[0].0 != key {
        lemma_lookup_last(fields.drop_first(), key);
        assert(fields.drop_first().drop_last() =~= fields.drop_last().drop_first());
        assert(fields.drop_first().last() == fields.last());
    }
}

/// The clauses that a function has are known by the keys of all properties that carry
/// a clause.
pub proof fn keys_are_taken_one_by_one(a: Seq<JsonView>, b: Seq<JsonView>, v: JsonView)
    ensures
        inject::existing_keys_of(a + b) == inject::existing_keys_of(a) + inject::existing_keys_of(b),
        inject::existing_keys_of(seq![v]) == match v.at("acsl"@) {
            JsonView::Text(s) => seq![inject::comparison_key_of(s)],
            _ => Seq::empty(),
        },
    decreases b.len(),
{
    let one = seq![v];
    assert(one.drop_last() =~= Seq::<JsonView>::empty());
    reveal_with_fuel(inject::existing_keys_of, 2);
    assert(inject::existing_keys_of(one) =~= match v.at("acsl"@) {
        JsonView::Text(s) => seq![inject::comparison_key_of(s)],
        _ => Seq::empty(),
    });
    if b.len() == 0 {
        assert(a + b =~= a);
        assert(inject::existing_keys_of(a) + inject::existing_keys_of(b)
            =~= inject::existing_keys_of(a));
    } else {
        keys_are_taken_one_by_one(a, b.drop_last(), v);
        assert((a + b).drop_last() =~= a + b.drop_last());
        assert(inject::existing_keys_of(a + b) =~= inject::existing_keys_of(a)
            + inject::existing_keys_of(b));
    }
}

/// A text, or null.
pub open spec fn shown(s: Option<Seq<char>>) -> JsonView {
    match s {
        Some(t) => JsonView::Text(t),
        None => JsonView::Null,
    }
}

/// A number, or null.
pub open spec fn counted(n: Option<int>) -> JsonView {
    match n {
        Some(k) => JsonView::Number(NumberView::Int(k)),
        None => JsonView::Null,
    }
}

/// The word for a kind of failure.
pub open spec fn word_of(f: FailureType) -> Seq<char> {
    match f {
        FailureType::SyntaxError => "syntax_error"@,
        FailureType::ProposedSelfReferential => "proposed_self_referential"@,
        FailureType::ProposedLocalVarInFunspec => "proposed_local_var_in_funspec"@,
        FailureType::ProposedError => "proposed_error"@,
    }
}

/// A clause that was added is reported with all that is known of it.
#[verifier::rlimit(40)]
pub proof fn added_clause_is_reported_whole(e: InjectedView)
    ensures
        ({
            let r = inject::injected_body(e);
            &&& r.at("hash_label"@) == JsonView::Text(e.hash_label)
            &&& r.at("user_label"@) == shown(e.user_label)
            &&& r.at("kind"@) == JsonView::Text(e.kind)
            &&& r.at("acsl"@) == JsonView::Text(e.acsl)
            &&& r.at("stmt_id"@) == counted(match e.stmt_id {
                Some(n) => Some(n as int),
                None => None,
            })
            &&& r.at("derived_from"@) == JsonView::Text(e.derived_from)
            &&& r.at("source"@) == JsonView::Text(e.source)
            &&& r.at("purpose"@) == JsonView::Text(e.purpose)
            &&& r.at("proof_target"@) == shown(e.proof_target)
            &&& r.at("wp_status"@) == (match e.wp_status {
                Some(v) => v,
                None => JsonView::Null,
            })
            &&& r.at("wp_time_ms"@) == counted(match e.wp_time_ms {
                Some(n) => Some(n as int),
                None => None,
            })
            &&& r.at("wp_prover"@) == shown(e.wp_prover)
        }),
{
    reveal_strlit("hash_label");
    reveal_strlit("user_label");
    reveal_strlit("kind");
    reveal_strlit("acsl");
    reveal_strlit("stmt_id");
    reveal_strlit("derived_from");
    reveal_strlit("source");
    reveal_strlit("purpose");
    reveal_strlit("proof_target");
    reveal_strlit("wp_status");
    reveal_strlit("wp_time_ms");
    reveal_strlit("wp_prover");
    assert("hash_label"@.len() == 10);
    assert("user_label"@.len() == 10);
    assert("kind"@.len() == 4);
    assert("acsl"@.len() == 4);
    assert("stmt_id"@.len() == 7);
    assert("derived_from"@.len() == 12);
    assert("source"@.len() == 6);
    assert("purpose"@.len() == 7);
    assert("proof_target"@.len() == 12);
    assert("wp_status"@.len() == 9);
    assert("wp_time_ms"@.len() == 10);
    assert("wp_prover"@.len() == 9);
    assert("hash_label"@[0] != "user_label"@[0]);
    assert("kind"@[0] != "acsl"@[0]);
    assert("stmt_id"@[0] != "purpose"@[0]);
    assert("derived_from"@[0] != "proof_target"@[0]);
    assert("hash_label"@[0] != "wp_time_ms"@[0]);
    assert("user_label"@[0] != "wp_time_ms"@[0]);
    assert("wp_status"@[3] != "wp_prover"@[3]);
    let v0 = json::no_fields();
    let xv0 = JsonView::Text(e.hash_label);
    json::set_field_reads_back(v0, "hash_label"@, xv0);
    let v1 = v0.with("hash_label"@, xv0);
    let xv1 = shown(e.user_label);
    json::set_field_reads_back(v1, "user_label"@, xv1);
    let v2 = v1.with("user_label"@, xv1);
    let xv2 = JsonView::Text(e.kind);
    json::set_field_reads_back(v2, "kind"@, xv2);
    let v3 = v2.with("kind"@, xv2);
    let xv3 = JsonView::Text(e.acsl);
    json::set_field_reads_back(v3, "acsl"@, xv3);
    let v4 = v3.with("acsl"@, xv3);
    let xv4 = counted(match e.stmt_id {
                Some(n) => Some(n as int),
                None => None,
            });
    json::set_field_reads_back(v4, "stmt_id"@, xv4);
    let v5 = v4.with("stmt_id"@, xv4);
    let xv5 = JsonView::Text(e.derived_from);
    json::set_field_reads_back(v5, "derived_from"@, xv5);
    let v6 = v5.with("derived_from"@, xv5);
    let xv6 = JsonView::Text(e.source);
    json::set_field_reads_back(v6, "source"@, xv6);
    let v7 = v6.with("source"@, xv6);
    let xv7 = JsonView::Text(e.purpose);
    json::set_field_reads_back(v7, "purpose"@, xv7);
    let v8 = v7.with("purpose"@, xv7);
    let xv8 = shown(e.proof_target);
    json::set_field_reads_back(v8, "proof_target"@, xv8);
    let v9 = v8.with("proof_target"@, xv8);
    let xv9 = (match e.wp_status {
                Some(v) => v,
                None => JsonView::Null,
            });
    json::set_field_reads_back(v9, "wp_status"@, xv9);
    let v10 = v9.with("wp_status"@, xv9);
    let xv10 = counted(match e.wp_time_ms {
                Some(n) => Some(n as int),
                None => None,
            });
    json::set_field_reads_back(v10, "wp_time_ms"@, xv10);
    let v11 = v10.with("wp_time_ms"@, xv10);
    let xv11 = shown(e.wp_prover);
    json::set_field_reads_back(v11, "wp_prover"@, xv11);
    let v12 = v11.with("wp_prover"@, xv11);
    assert(v2.at("hash_label"@) == v1.at("hash_label"@));
    assert(v3.at("hash_label"@) == v2.at("hash_label"@));
    assert(v4.at("hash_label"@) == v3.at("hash_label"@));
    assert(v5.at("hash_label"@) == v4.at("hash_label"@));
    assert(v6.at("hash_label"@) == v5.at("hash_label"@));
    assert(v7.at("hash_label"@) == v6.at("hash_label"@));
    assert(v8.at("hash_label"@) == v7.at("hash_label"@));
    assert(v9.at("hash_label"@) == v8.at("hash_label"@));
    assert(v10.at("hash_label"@) == v9.at("hash_label"@));
    assert(v11.at("hash_label"@) == v10.at("hash_label"@));
    assert(v12.at("hash_label"@) == v11.at("hash_label"@));
    assert(v3.at("user_label"@) == v2.at("user_label"@));
    assert(v4.at("user_label"@) == v3.at("user_label"@));
    assert(v5.at("user_label"@) == v4.at("user_label"@));
    assert(v6.at("user_label"@) == v5.at("user_label"@));
    assert(v7.at("user_label"@) == v6.at("user_label"@));
    assert(v8.at("user_label"@) == v7.at("user_label"@));
    assert(v9.at("user_label"@) == v8.at("user_label"@));
    assert(v10.at("user_label"@) == v9.at("user_label"@));
    assert(v11.at("user_label"@) == v10.at("user_label"@));
    assert(v12.at("user_label"@) == v11.at("user_label"@));
    assert(v4.at("kind"@) == v3.at("kind"@));
    assert(v5.at("kind"@) == v4.at("kind"@));
    assert(v6.at("kind"@) == v5.at("kind"@));
    assert(v7.at("kind"@) == v6.at("kind"@));
    assert(v8.at("kind"@) == v7.at("kind"@));
    assert(v9.at("kind"@) == v8.at("kind"@));
    assert(v10.at("kind"@) == v9.at("kind"@));
    assert(v11.at("kind"@) == v10.at("kind"@));
    assert(v12.at("kind"@) == v11.at("kind"@));
    assert(v5.at("acsl"@) == v4.at("acsl"@));
    assert(v6.at("acsl"@) == v5.at("acsl"@));
    assert(v7.at("acsl"@) == v6.at("acsl"@));
    assert(v8.at("acsl"@) == v7.at("acsl"@));
    assert(v9.at("acsl"@) == v8.at("acsl"@));
    assert(v10.at("acsl"@) == v9.at("acsl"@));
    assert(v11.at("acsl"@) == v10.at("acsl"@));
    assert(v12.at("acsl"@) == v11.at("acsl"@));
    assert(v6.at("stmt_id"@) == v5.at("stmt_id"@));
    assert(v7.at("stmt_id"@) == v6.at("stmt_id"@));
    assert(v8.at("stmt_id"@) == v7.at("stmt_id"@));
    assert(v9.at("stmt_id"@) == v8.at("stmt_id"@));
    assert(v10.at("stmt_id"@) == v9.at("stmt_id"@));
    assert(v11.at("stmt_id"@) == v10.at("stmt_id"@));
    assert(v12.at("stmt_id"@) == v11.at("stmt_id"@));
    assert(v7.at("derived_from"@) == v6.at("derived_from"@));
    assert(v8.at("derived_from"@) == v7.at("derived_from"@));
    assert(v9.at("derived_from"@) == v8.at("derived_from"@));
    assert(v10.at("derived_from"@) == v9.at("derived_from"@));
    assert(v11.at("derived_from"@) == v10.at("derived_from"@));
    assert(v12.at("derived_from"@) == v11.at("derived_from"@));
    assert(v8.at("source"@) == v7.at("source"@));
    assert(v9.at("source"@) == v8.at("source"@));
    assert(v10.at("source"@) == v9.at("source"@));
    assert(v11.at("source"@) == v10.at("source"@));
    assert(v12.at("source"@) == v11.at("source"@));
    assert(v9.at("purpose"@) == v8.at("purpose"@));
    assert(v10.at("purpose"@) == v9.at("purpose"@));
    assert(v11.at("purpose"@) == v10.at("purpose"@));
    assert(v12.at("purpose"@) == v11.at("purpose"@));
    assert(v10.at("proof_target"@) == v9.at("proof_target"@));
    assert(v11.at("proof_target"@) == v10.at("proof_target"@));
    assert(v12.at("proof_target"@) == v11.at("proof_target"@));
    assert(v11.at("wp_status"@) == v10.at("wp_status"@));
    assert(v12.at("wp_status"@) == v11.at("wp_status"@));
    assert(v12.at("wp_time_ms"@) == v11.at("wp_time_ms"@));
}

/// A clause that was refused is reported with its kind of failure, its place, its text
/// and the message.
pub proof fn refused_clause_is_reported_whole(f: FailureView)
    ensures
        ({
            let r = inject::failure_body(f);
            &&& r.at("type"@) == JsonView::Text(word_of(f.failure_type))
            &&& r.at("proposed_path"@) == JsonView::Text(f.proposed_path)
            &&& r.at("acsl_text"@) == JsonView::Text(f.acsl_text)
            &&& r.at("frama_c_error"@) == JsonView::Text(f.frama_c_error)
        }),
{
    reveal_strlit("type");
    reveal_strlit("proposed_path");
    reveal_strlit("acsl_text");
    reveal_strlit("frama_c_error");
    assert("type"@.len() == 4);
    assert("proposed_path"@.len() == 13);
    assert("acsl_text"@.len() == 9);
    assert("frama_c_error"@.len() == 13);
    assert("proposed_path"@[0] != "frama_c_error"@[0]);
    let v0 = json::no_fields();
    let xv0 = JsonView::Text(word_of(f.failure_type));
    json::set_field_reads_back(v0, "type"@, xv0);
    let v1 = v0.with("type"@, xv0);
    let xv1 = JsonView::Text(f.proposed_path);
    json::set_field_reads_back(v1, "proposed_path"@, xv1);
    let v2 = v1.with("proposed_path"@, xv1);
    let xv2 = JsonView::Text(f.acsl_text);
    json::set_field_reads_back(v2, "acsl_text"@, xv2);
    let v3 = v2.with("acsl_text"@, xv2);
    let xv3 = JsonView::Text(f.frama_c_error);
    json::set_field_reads_back(v3, "frama_c_error"@, xv3);
    let v4 = v3.with("frama_c_error"@, xv3);
    assert(v2.at("type"@) == v1.at("type"@));
    assert(v3.at("type"@) == v2.at("type"@));
    assert(v4.at("type"@) == v3.at("type"@));
    assert(v3.at("proposed_path"@) == v2.at("proposed_path"@));
    assert(v4.at("proposed_path"@) == v3.at("proposed_path"@));
    assert(v4.at("acsl_text"@) == v3.at("acsl_text"@));
}

/// The report of a run holds its status, every clause that was added and every one that
/// was refused, in their order, and the three counts.
#[verifier::rlimit(40)]
pub proof fn run_is_reported_whole(
    status: Seq<char>,
    added: Seq<InjectedView>,
    refused: Seq<FailureView>,
    summary: crate::mcp::types::InjectionSummary,
    i: int,
)
    ensures
        ({
            let r = inject::injection_body(status, added, refused, summary);
            &&& r.at("status"@) == JsonView::Text(status)
            &&& r.at("successful"@) is List && r.at("successful"@)->List_0.len() == added.len()
            &&& 0 <= i < added.len() ==> r.at("successful"@)->List_0[i] == inject::injected_body(
                added[i],
            )
            &&& r.at("failures"@) is List && r.at("failures"@)->List_0.len() == refused.len()
            &&& 0 <= i < refused.len() ==> r.at("failures"@)->List_0[i] == inject::failure_body(
                refused[i],
            )
            &&& r.at("summary"@).at("total_attempted"@) == JsonView::Number(
                NumberView::Int(summary.total_attempted as int),
            )
            &&& r.at("summary"@).at("successful_count"@) == JsonView::Number(
                NumberView::Int(summary.successful_count as int),
            )
            &&& r.at("summary"@).at("failure_count"@) == JsonView::Number(
                NumberView::Int(summary.failure_count as int),
            )
        }),
{
    reveal_strlit("status");
    reveal_strlit("successful");
    reveal_strlit("failures");
    reveal_strlit("summary");
    reveal_strlit("total_attempted");
    reveal_strlit("successful_count");
    reveal_strlit("failure_count");
    assert("status"@.len() == 6);
    assert("successful"@.len() == 10);
    assert("failures"@.len() == 8);
    assert("summary"@.len() == 7);
    assert("total_attempted"@.len() == 15);
    assert("successful_count"@.len() == 16);
    assert("failure_count"@.len() == 13);
    let s0 = json::no_fields();
    let xs0 = json::whole(summary.total_attempted as int);
    json::set_field_reads_back(s0, "total_attempted"@, xs0);
    let s1 = s0.with("total_attempted"@, xs0);
    let xs1 = json::whole(summary.successful_count as int);
    json::set_field_reads_back(s1, "successful_count"@, xs1);
    let s2 = s1.with("successful_count"@, xs1);
    let xs2 = json::whole(summary.failure_count as int);
    json::set_field_reads_back(s2, "failure_count"@, xs2);
    let s3 = s2.with("failure_count"@, xs2);
    assert(s2.at("total_attempted"@) == s1.at("total_attempted"@));
    assert(s3.at("total_attempted"@) == s2.at("total_attempted"@));
    assert(s3.at("successful_count"@) == s2.at("successful_count"@));
    let v0 = json::no_fields();
    let xv0 = JsonView::Text(status);
    json::set_field_reads_back(v0, "status"@, xv0);
    let v1 = v0.with("status"@, xv0);
    let xv1 = JsonView::List(added.map_values(|e: InjectedView| inject::injected_body(e)));
    json::set_field_reads_back(v1, "successful"@, xv1);
    let v2 = v1.with("successful"@, xv1);
    let xv2 = JsonView::List(refused.map_values(|f: FailureView| inject::failure_body(f)));
    json::set_field_reads_back(v2, "failures"@, xv2);
    let v3 = v2.with("failures"@, xv2);
    let xv3 = s3;
    json::set_field_reads_back(v3, "summary"@, xv3);
    let v4 = v3.with("summary"@, xv3);
    assert(v2.at("status"@) == v1.at("status"@));
    assert(v3.at("status"@) == v2.at("status"@));
    assert(v4.at("status"@) == v3.at("status"@));
    assert(v3.at("successful"@) == v2.at("successful"@));
    assert(v4.at("successful"@) == v3.at("successful"@));
    assert(v4.at("failures"@) == v3.at("failures"@));
}

/// The target of an injection must have a colon for a sandbox, and none for the main
/// instance.
pub proof fn target_fits_the_tool(target: Seq<char>)
    ensures
        inject::target_complaint(target, true) is None <==> target.contains(':'),
        inject::target_complaint(target, false) is None <==> !target.contains(':'),
{
}

/// The ids of loops are those of loop statements, and the ids of statements those of
/// all statements, wherever they stand.
pub proof fn loops_are_statements_of_their_kind(node: JsonView, n: i64)
    ensures
        inject::loop_sids(node).contains(n) <==> found(node, true, n as int),
        inject::statement_sids(node).contains(n) <==> found(node, false, n as int),
{
    collected_ids_are_those_of_the_statements(node, true, n);
    collected_ids_are_those_of_the_statements(node, false, n);
}

} // verus!
