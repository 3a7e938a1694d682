//! What clauses come out as, whatever their bodies are.

use vstd::prelude::*;

use crate::mcp::acsl;
use crate::mcp::acsl::{BehaviorView, FailureType};
use crate::text;

verus! {

/// The body of a clause as it stands in the clause: not empty, without white space
/// around it, without a semicolon behind it, and without the keyword in front.
pub open spec fn is_clean(keyword: Seq<char>, body: Seq<char>) -> bool {
    &&& body.len() > 0
    &&& !text::is_white_space(body[0])
    &&& !text::is_white_space(body.last())
    &&& body.last() != ';'
    &&& !acsl::leads(body, keyword)
}

/// An assumption as it stands in a behavior.
pub open spec fn is_clean_assumption(s: Seq<char>) -> bool {
    &&& s.len() > 0
    &&& !text::is_white_space(s[0])
    &&& !text::is_white_space(s.last())
    &&& s.last() != ';'
}

/// The assumptions of a behavior are those that its last declaration lists.
pub open spec fn assumed(
    behaviors: Seq<BehaviorView>,
    name: Seq<char>,
    assumes: Seq<Seq<char>>,
) -> bool {
    exists|i: int|
        {
            &&& 0 <= i < behaviors.len()
            &&& (#[trigger] behaviors[i]).name == name
            &&& behaviors[i].assumes == assumes
            &&& forall|j: int| i < j < behaviors.len() ==> (#[trigger] behaviors[j]).name != name
        }
}

proof fn lemma_clean(keyword: Seq<char>, body: Seq<char>)
    requires
        is_clean(keyword, body),
    ensures
        acsl::clause_body(keyword, body) == body,
{
    assert(text::trimmed(body) == body);
    assert(text::without_trailing(body, ';') == body);
    assert(acsl::bare(body) == body);
    assert(acsl::without_keyword(body, keyword) == body);
}

proof fn lemma_assumed(behaviors: Seq<BehaviorView>, name: Seq<char>)
    ensures
        match acsl::assumes_of(behaviors, name) {
            Some(a) => assumed(behaviors, name, a),
            None => forall|i: int|
                0 <= i < behaviors.len() ==> (#[trigger] behaviors[i]).name != name,
        },
    decreases behaviors.len(),
{
    if behaviors.len() > 0 {
        let rest = behaviors.drop_last();
        lemma_assumed(rest, name);
        assert(behaviors[behaviors.len() - 1] == behaviors.last());
        if behaviors.last().name != name {
            match acsl::assumes_of(rest, name) {
                Some(a) => {
                    let i = choose|i: int|
                        {
                            &&& 0 <= i < rest.len()
                            &&& (#[trigger] rest[i]).name == name
                            &&& rest[i].assumes == a
                            &&& forall|j: int|
                                i < j < rest.len() ==> (#[trigger] rest[j]).name != name
                        };
                    assert(behaviors[i] == rest[i]);
                    assert forall|j: int| i < j < behaviors.len() implies (
                    #[trigger] behaviors[j]).name != name by {
                        if j < rest.len() {
                            assert(rest[j] == behaviors[j]);
                        }
                    }
                },
                None => {
                    assert forall|i: int| 0 <= i < behaviors.len() implies (
                    #[trigger] behaviors[i]).name != name by {
                        if i < rest.len() {
                            assert(rest[i] == behaviors[i]);
                        }
                    }
                },
            }
        }
    }
}

proof fn lemma_one_declaration(
    behaviors: Seq<BehaviorView>,
    name: Seq<char>,
    a: Seq<Seq<char>>,
    b: Seq<Seq<char>>,
)
    requires
        assumed(behaviors, name, a),
        assumed(behaviors, name, b),
    ensures
        a == b,
{
    let i = choose|i: int|
        {
            &&& 0 <= i < behaviors.len()
            &&& (#[trigger] behaviors[i]).name == name
            &&& behaviors[i].assumes == a
            &&& forall|j: int| i < j < behaviors.len() ==> (#[trigger] behaviors[j]).name != name
        };
    let j = choose|j: int|
        {
            &&& 0 <= j < behaviors.len()
            &&& (#[trigger] behaviors[j]).name == name
            &&& behaviors[j].assumes == b
            &&& forall|k: int| j < k < behaviors.len() ==> (#[trigger] behaviors[k]).name != name
        };
    assert(i == j);
}

/// The assumptions one after the other, each as a clause.
pub open spec fn assumption_clauses(assumes: Seq<Seq<char>>) -> Seq<char> {
    text::joined(assumes.map_values(|a: Seq<char>| " assumes "@ + a + ";"@), ""@)
}

proof fn lemma_assumptions(assumes: Seq<Seq<char>>)
    requires
        forall|i: int| 0 <= i < assumes.len() ==> is_clean_assumption(#[trigger] assumes[i]),
    ensures
        acsl::assumes_clauses(assumes) == assumption_clauses(assumes),
    decreases assumes.len(),
{
    reveal_strlit("");
    let f = |a: Seq<char>| " assumes "@ + a + ";"@;
    let parts = assumes.map_values(f);
    if assumes.len() > 0 {
        let rest = assumes.drop_last();
        assert forall|i: int| 0 <= i < rest.len() implies is_clean_assumption(
            #[trigger] rest[i],
        ) by {
            assert(rest[i] == assumes[i]);
        }
        lemma_assumptions(rest);
        let last = assumes.last();
        assert(is_clean_assumption(assumes[assumes.len() - 1]));
        assert(text::trimmed(last) == last);
        assert(text::without_trailing(last, ';') == last);
        assert(acsl::bare(last) == last);
        assert(parts.drop_last() =~= rest.map_values(f));
        assert(parts.last() == " assumes "@ + last + ";"@);
        assert(""@ =~= Seq::<char>::empty());
        assert(text::joined(parts, ""@) =~= text::joined(rest.map_values(f), ""@) + parts.last());
        assert(acsl::assumes_clauses(assumes) =~= assumption_clauses(assumes));
    } else {
        assert(parts =~= Seq::empty());
        assert(acsl::assumes_clauses(assumes) =~= assumption_clauses(assumes));
    }
}

/// A clause of a contract is its keyword, its body and a semicolon. One that belongs
/// to a behavior stands behind the behavior's name and its assumptions. A behavior
/// that is not declared is refused, with its name and the place of the clause.
pub proof fn contract_clause_is_keyword_and_body(
    keyword: Seq<char>,
    body: Seq<char>,
    behavior: Seq<char>,
    behaviors: Seq<BehaviorView>,
    path: Seq<char>,
    assumes: Seq<Seq<char>>,
)
    requires
        is_clean(keyword, body),
    ensures
        acsl::funspec_clause(keyword, body, None, behaviors, path) == Ok::<Seq<char>, Seq<char>>(
            keyword + " "@ + body + ";"@,
        ),
        assumed(behaviors, behavior, assumes) && (forall|i: int|
            0 <= i < assumes.len() ==> is_clean_assumption(#[trigger] assumes[i]))
            ==> acsl::funspec_clause(keyword, body, Some(behavior), behaviors, path) == Ok::<
            Seq<char>,
            Seq<char>,
        >(
            "behavior "@ + behavior + ":"@ + assumption_clauses(assumes) + " "@ + (keyword + " "@
                + body + ";"@),
        ),
        (forall|i: int| 0 <= i < behaviors.len() ==> (#[trigger] behaviors[i]).name != behavior)
            ==> acsl::funspec_clause(keyword, body, Some(behavior), behaviors, path) == Err::<
            Seq<char>,
            Seq<char>,
        >(
            "behavior '"@ + behavior + "' referenced at "@ + path
                + " but not declared in proposed_behaviors"@,
        ),
{
    lemma_clean(keyword, body);
    lemma_assumed(behaviors, behavior);
    if assumed(behaviors, behavior, assumes) && (forall|i: int|
        0 <= i < assumes.len() ==> is_clean_assumption(#[trigger] assumes[i])) {
        lemma_is_declared(behaviors, behavior, assumes);
        lemma_one_declaration(
            behaviors,
            behavior,
            assumes,
            acsl::assumes_of(behaviors, behavior)->0,
        );
        lemma_assumptions(assumes);
    }
    if forall|i: int| 0 <= i < behaviors.len() ==> (#[trigger] behaviors[i]).name != behavior {
        lemma_is_not_declared(behaviors, behavior);
    }
}

proof fn lemma_is_declared(
    behaviors: Seq<BehaviorView>,
    name: Seq<char>,
    assumes: Seq<Seq<char>>,
)
    requires
        assumed(behaviors, name, assumes),
    ensures
        acsl::assumes_of(behaviors, name) is Some,
{
    lemma_assumed(behaviors, name);
    let i = choose|i: int|
        {
            &&& 0 <= i < behaviors.len()
            &&& (#[trigger] behaviors[i]).name == name
            &&& behaviors[i].assumes == assumes
            &&& forall|j: int| i < j < behaviors.len() ==> (#[trigger] behaviors[j]).name != name
        };
    if acsl::assumes_of(behaviors, name) is None {
        assert(behaviors[i].name != name);
    }
}

proof fn lemma_is_not_declared(behaviors: Seq<BehaviorView>, name: Seq<char>)
    requires
        forall|i: int| 0 <= i < behaviors.len() ==> (#[trigger] behaviors[i]).name != name,
    ensures
        acsl::assumes_of(behaviors, name) is None,
{
    lemma_assumed(behaviors, name);
    match acsl::assumes_of(behaviors, name) {
        Some(a) => {
            let i = choose|i: int|
                {
                    &&& 0 <= i < behaviors.len()
                    &&& (#[trigger] behaviors[i]).name == name
                    &&& behaviors[i].assumes == a
                    &&& forall|j: int|
                        i < j < behaviors.len() ==> (#[trigger] behaviors[j]).name != name
                };
            assert(behaviors[i].name != name);
        },
        None => {},
    }
}

/// A clause of a loop is its keyword, its body and a semicolon. One that belongs to a
/// behavior stands behind `for` and the behavior's name.
pub proof fn loop_clause_is_keyword_and_body(
    keyword: Seq<char>,
    body: Seq<char>,
    behavior: Seq<char>,
    behaviors: Seq<BehaviorView>,
    path: Seq<char>,
    assumes: Seq<Seq<char>>,
)
    requires
        is_clean(keyword, body),
    ensures
        acsl::loop_clause(keyword, body, None, behaviors, path) == Ok::<Seq<char>, Seq<char>>(
            keyword + " "@ + body + ";"@,
        ),
        assumed(behaviors, behavior, assumes) ==> acsl::loop_clause(
            keyword,
            body,
            Some(behavior),
            behaviors,
            path,
        ) == Ok::<Seq<char>, Seq<char>>(
            "for "@ + behavior + ": "@ + (keyword + " "@ + body + ";"@),
        ),
        (forall|i: int| 0 <= i < behaviors.len() ==> (#[trigger] behaviors[i]).name != behavior)
            ==> acsl::loop_clause(keyword, body, Some(behavior), behaviors, path) == Err::<
            Seq<char>,
            Seq<char>,
        >(
            "behavior '"@ + behavior + "' referenced at "@ + path
                + " but not declared in proposed_behaviors"@,
        ),
{
    lemma_clean(keyword, body);
    if assumed(behaviors, behavior, assumes) {
        lemma_is_declared(behaviors, behavior, assumes);
    }
    if forall|i: int| 0 <= i < behaviors.len() ==> (#[trigger] behaviors[i]).name != behavior {
        lemma_is_not_declared(behaviors, behavior);
    }
}

/// The normal form of a clause is the clause with exactly one semicolon behind it,
/// however many there were, and without white space around it.
pub proof fn normal_form_is_the_clause_and_a_semicolon(clause: Seq<char>, tail: Seq<char>)
    requires
        clause.len() > 0,
        !text::is_white_space(clause[0]),
        !text::is_white_space(clause.last()),
        clause.last() != ';',
        forall|i: int|
            0 <= i < tail.len() ==> (#[trigger] tail[i]) == ';' || text::is_white_space(tail[i]),
    ensures
        acsl::normalized(clause + tail) == clause + ";"@,
    decreases tail.len(),
{
    let s = clause + tail;
    assert(s[0] == clause[0]);
    assert(text::trim_start(s) == s);
    lemma_without_end(clause, tail);
}

proof fn lemma_without_end(clause: Seq<char>, tail: Seq<char>)
    requires
        clause.len() > 0,
        !text::is_white_space(clause.last()),
        clause.last() != ';',
        forall|i: int|
            0 <= i < tail.len() ==> (#[trigger] tail[i]) == ';' || text::is_white_space(tail[i]),
    ensures
        acsl::without_end(clause + tail) == clause,
    decreases tail.len(),
{
    let s = clause + tail;
    if tail.len() == 0 {
        assert(s =~= clause);
    } else {
        let rest = tail.drop_last();
        assert forall|i: int| 0 <= i < rest.len() implies (#[trigger] rest[i]) == ';'
            || text::is_white_space(rest[i]) by {
            assert(rest[i] == tail[i]);
        }
        lemma_without_end(clause, rest);
        assert(s.drop_last() =~= clause + rest);
        assert(s.last() == tail[tail.len() - 1]);
    }
}

/// The label of a kind of clause, and a number, give a text that tells both: the
/// first two letters are the kind's, and no two kinds share them.
pub proof fn label_tells_the_kind(hash: u32)
    ensures
        acsl::hash_label_text("requires"@, hash) == "re_"@ + acsl::hex_digits(hash),
        acsl::hash_label_text("ensures"@, hash) == "en_"@ + acsl::hex_digits(hash),
        acsl::hash_label_text("assigns"@, hash) == "as_"@ + acsl::hex_digits(hash),
        acsl::hash_label_text("loop_invariant"@, hash) == "li_"@ + acsl::hex_digits(hash),
        acsl::hash_label_text("loop_assigns"@, hash) == "la_"@ + acsl::hex_digits(hash),
        acsl::hash_label_text("loop_variant"@, hash) == "lv_"@ + acsl::hex_digits(hash),
        acsl::hash_label_text("assert"@, hash) == "at_"@ + acsl::hex_digits(hash),
{
    reveal_strlit("requires");
    reveal_strlit("ensures");
    reveal_strlit("assigns");
    reveal_strlit("loop_invariant");
    reveal_strlit("loop_assigns");
    reveal_strlit("loop_variant");
    reveal_strlit("assert");
    reveal_strlit("re");
    reveal_strlit("en");
    reveal_strlit("as");
    reveal_strlit("li");
    reveal_strlit("la");
    reveal_strlit("lv");
    reveal_strlit("at");
    reveal_strlit("_");
    reveal_strlit("re_");
    reveal_strlit("en_");
    reveal_strlit("as_");
    reveal_strlit("li_");
    reveal_strlit("la_");
    reveal_strlit("lv_");
    reveal_strlit("at_");
    assert("ensures"@[0] != "requires"@[0]);
    assert("assigns"@[0] != "requires"@[0] && "assigns"@[0] != "ensures"@[0]);
    assert("loop_invariant"@.len() == 14 && "loop_assigns"@.len() == 12 && "loop_variant"@.len()
        == 12);
    assert("requires"@.len() == 8 && "ensures"@.len() == 7 && "assigns"@.len() == 7
        && "assert"@.len() == 6);
    assert("loop_assigns"@[5] != "loop_variant"@[5]);
    assert("re"@ + "_"@ =~= "re_"@);
    assert("en"@ + "_"@ =~= "en_"@);
    assert("as"@ + "_"@ =~= "as_"@);
    assert("li"@ + "_"@ =~= "li_"@);
    assert("la"@ + "_"@ =~= "la_"@);
    assert("lv"@ + "_"@ =~= "lv_"@);
    assert("at"@ + "_"@ =~= "at_"@);
}

/// What kind of failure a message tells of. A local variable comes before an unknown
/// name, that before a syntax error, and all else is an error of the proposal.
pub proof fn message_tells_the_failure(before: Seq<char>, behind: Seq<char>, m: Seq<char>)
    ensures
        acsl::failure_of(before + "function local"@ + behind)
            == FailureType::ProposedLocalVarInFunspec,
        text::has_text(m, "unbound"@) && !text::has_text(m, "function local"@) ==> acsl::failure_of(
            m,
        ) == FailureType::ProposedSelfReferential,
        (text::has_text(m, "syntax error"@) || text::has_text(m, "unexpected"@)) && !(
        acsl::failure_of(m) == FailureType::ProposedLocalVarInFunspec) && !(acsl::failure_of(m)
            == FailureType::ProposedSelfReferential) ==> acsl::failure_of(m)
            == FailureType::SyntaxError,
        acsl::failure_of(m) == FailureType::SyntaxError ==> text::has_text(m, "syntax error"@)
            || text::has_text(m, "parse error"@) || text::has_text(m, "unexpected"@)
            || text::has_text(m, "lexeme"@),
        acsl::failure_of(m) == FailureType::ProposedLocalVarInFunspec ==> text::has_text(
            m,
            "function local"@,
        ),
{
    let s = before + "function local"@ + behind;
    assert(s.subrange(before.len() as int, (before.len() + "function local"@.len()) as int)
        =~= "function local"@);
    assert(text::occurs_at(s, "function local"@, before.len() as int));
}

/// Clauses are compared by their text, but for what stands around it: two clauses with
/// different texts are different.
pub proof fn key_is_the_clause_itself(front: Seq<char>, clause: Seq<char>, tail: Seq<char>)
    requires
        text::is_blank(front),
        clause.len() > 0,
        !text::is_white_space(clause[0]),
        !text::is_white_space(clause.last()),
        clause.last() != ';',
        forall|i: int|
            0 <= i < tail.len() ==> (#[trigger] tail[i]) == ';' || text::is_white_space(tail[i]),
    ensures
        acsl::comparison_key_text(front + (clause + tail)) == clause,
{
    lemma_trim_front(front, clause + tail);
    assert((clause + tail)[0] == clause[0]);
    lemma_without_end(clause, tail);
}

proof fn lemma_trim_front(front: Seq<char>, s: Seq<char>)
    requires
        text::is_blank(front),
        s.len() > 0,
        !text::is_white_space(s[0]),
    ensures
        text::trim_start(front + s) == s,
    decreases front.len(),
{
    if front.len() > 0 {
        let rest = front.drop_first();
        assert forall|i: int| 0 <= i < rest.len() implies text::is_white_space(
            #[trigger] rest[i],
        ) by {
            assert(rest[i] == front[i + 1]);
        }
        lemma_trim_front(rest, s);
        assert((front + s)[0] == front[0]);
        assert((front + s).drop_first() =~= rest + s);
    } else {
        assert(front + s =~= s);
    }
}

/// A keyword in front of a body, with white space behind it, is taken off; a body that
/// only begins with the same letters is left alone, and so is one without it.
pub proof fn keyword_is_taken_off_as_a_word(keyword: Seq<char>, body: Seq<char>, c: char)
    requires
        acsl::is_keyword(keyword),
        is_clean(keyword, body),
    ensures
        acsl::without_keyword(keyword + " "@ + body, keyword) == body,
        acsl::without_keyword(body, keyword) == body,
        !text::is_white_space(c) ==> acsl::without_keyword(keyword.push(c), keyword)
            == keyword.push(c),
{
    assert(text::trimmed(body) == body);
    lemma_word_taken_off(keyword, body);
    if !text::is_white_space(c) {
        lemma_longer_word(keyword, c);
    }
}

proof fn lemma_word_taken_off(keyword: Seq<char>, body: Seq<char>)
    requires
        acsl::is_keyword(keyword),
        body.len() > 0,
        !text::is_white_space(body.last()),
        text::trimmed(body) == body,
    ensures
        acsl::without_keyword(keyword + " "@ + body, keyword) == body,
{
    reveal_strlit(" ");
    let x = keyword + " "@ + body;
    assert(x[0] == keyword[0] && x.last() == body.last());
    assert(text::trimmed(x) == x);
    assert(text::begins_with(x, keyword)) by {
        assert(x.subrange(0, keyword.len() as int) =~= keyword);
    }
    let behind = text::after(x, keyword.len() as int);
    assert(behind =~= " "@ + body);
    assert(behind[0] == ' ');
    assert(behind.drop_first() =~= body);
    assert(text::trim_start(behind) == text::trim_start(body));
}

proof fn lemma_longer_word(keyword: Seq<char>, c: char)
    requires
        acsl::is_keyword(keyword),
        !text::is_white_space(c),
    ensures
        acsl::without_keyword(keyword.push(c), keyword) == keyword.push(c),
{
    let y = keyword.push(c);
    assert(y[0] == keyword[0] && y.last() == c);
    assert(text::trimmed(y) == y);
    assert(text::after(y, keyword.len() as int) =~= seq![c]);
}

/// A clause belongs to a statement exactly where it begins as one of a loop or as an
/// assertion does; a behavior's name in front of it does not matter.
pub proof fn statement_clauses_are_told_by_their_words(
    behavior: Seq<char>,
    rest: Seq<char>,
    clause: Seq<char>,
)
    requires
        !behavior.contains(':'),
    ensures
        acsl::is_statement_clause("loop invariant"@ + rest),
        acsl::is_statement_clause("loop assigns"@ + rest),
        acsl::is_statement_clause("loop variant"@ + rest),
        acsl::is_statement_clause("assert"@ + rest),
        acsl::is_statement_clause("for "@ + behavior + ": "@ + ("loop invariant"@ + rest)),
        clause.len() > 0 && clause[0] != 'l' && clause[0] != 'a' && clause[0] != 'f'
            ==> !acsl::is_statement_clause(clause),
{
    assert("loop invariant"@[0] == 'l') by {
        reveal_strlit("loop invariant");
    }
    assert("loop assigns"@[0] == 'l') by {
        reveal_strlit("loop assigns");
    }
    assert("loop variant"@[0] == 'l') by {
        reveal_strlit("loop variant");
    }
    assert("assert"@[0] == 'a') by {
        reveal_strlit("assert");
    }
    assert("for "@[0] == 'f') by {
        reveal_strlit("for ");
    }
    lemma_first_letters();
    lemma_own_words("loop invariant"@, rest);
    lemma_own_words("loop assigns"@, rest);
    lemma_own_words("loop variant"@, rest);
    lemma_own_words("assert"@, rest);
    lemma_behind_for(behavior, "loop invariant"@ + rest);
    if clause.len() > 0 && clause[0] != 'l' && clause[0] != 'a' && clause[0] != 'f' {
        lemma_other_word(clause, "for "@);
        lemma_other_word(clause, "loop invariant"@);
        lemma_other_word(clause, "loop assigns"@);
        lemma_other_word(clause, "loop variant"@);
        lemma_other_word(clause, "assert"@);
    }
}

proof fn lemma_first_letters()
    ensures
        "loop invariant"@.len() == 14,
        "loop assigns"@.len() == 12,
        "loop variant"@.len() == 12,
        "assert"@.len() == 6,
        "for "@.len() == 4,
{
    reveal_strlit("loop invariant");
    reveal_strlit("loop assigns");
    reveal_strlit("loop variant");
    reveal_strlit("assert");
    reveal_strlit("for ");
}

/// What stands behind the name of a behavior.
proof fn lemma_behind_for(behavior: Seq<char>, inner: Seq<char>)
    requires
        !behavior.contains(':'),
        inner.len() > 0,
        !text::is_white_space(inner[0]),
    ensures
        acsl::behind_for("for "@ + behavior + ": "@ + inner) == inner,
{
    reveal_strlit("for ");
    reveal_strlit(": ");
    let s = "for "@ + behavior + ": "@ + inner;
    assert(s.subrange(0, 4) =~= "for "@);
    assert(text::begins_with(s, "for "@));
    let at = 4 + behavior.len() as int;
    assert(s[at] == ':');
    assert(s.contains(':'));
    assert forall|i: int| 0 <= i < at implies s[i] != ':' by {
        if i >= 4 {
            assert(s[i] == behavior[i - 4]);
        }
    }
    s.index_of_first_ensures(':');
    assert(s.index_of_first(':') == Some(at));
    let tail = text::after(s, at + 1);
    assert(tail =~= seq![' '] + inner);
    assert(tail[0] == ' ');
    assert(tail.drop_first() =~= inner);
    assert(text::trim_start(inner) == inner);
    assert(text::trim_start(tail) == inner);
}

proof fn lemma_own_words(word: Seq<char>, rest: Seq<char>)
    requires
        word.len() > 0,
        word[0] != 'f',
    ensures
        text::begins_with(word + rest, word),
        acsl::behind_for(word + rest) == word + rest,
{
    reveal_strlit("for ");
    let s = word + rest;
    assert(s.subrange(0, word.len() as int) =~= word);
    assert(s[0] == word[0]);
    lemma_other_word(s, "for "@);
}

proof fn lemma_other_word(s: Seq<char>, word: Seq<char>)
    requires
        s.len() > 0,
        word.len() > 0,
        s[0] != word[0],
    ensures
        !text::begins_with(s, word),
{
    if text::begins_with(s, word) {
        assert(s.subrange(0, word.len() as int)[0] == s[0]);
    }
}

/// The full label is the hash label, with the user's behind it where there is one.
pub proof fn user_label_stands_behind_the_hash(hash_label: Seq<char>, user_label: Seq<char>)
    ensures
        acsl::full_label_text(hash_label, None) == hash_label,
        acsl::full_label_text(hash_label, Some(user_label)) == hash_label + "_"@ + user_label,
{
}

/// A result of texts is the one that is described.
pub proof fn results_are_as_described(
    r: Result<String, String>,
    s: Result<Seq<char>, Seq<char>>,
    k: (String, Option<String>),
    d: (Seq<char>, Option<Seq<char>>),
)
    ensures
        acsl::text_result(r, s) <==> {
            &&& r is Ok <==> s is Ok
            &&& r matches Ok(x) ==> x@ == s->Ok_0
            &&& r matches Err(e) ==> e@ == s->Err_0
        },
        acsl::kind_is(k, d) <==> k.0@ == d.0 && text::opt_string(k.1) == d.1,
{
}

} // verus!
