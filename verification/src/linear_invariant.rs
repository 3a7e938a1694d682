//! Transition systems for the linear invariant tool: from JSON to the tool's
//! input text, and from its output text back to JSON.

pub mod laws;

use vstd::prelude::*;
use vstd::string::*;

use crate::json;
use crate::json::{Json, JsonObject, JsonView};
use crate::text;

verus! {

/// A variable in the tool's notation: a prime goes from the end to the front.
pub open spec fn primed(var: Seq<char>) -> Seq<char> {
    if var.len() > 0 && var.last() == '\'' {
        "'"@ + var.drop_last()
    } else {
        var
    }
}

/// A variable in the tool's notation: a prime goes from the end to the front.
pub fn to_in_primed(var: &str) -> (r: String)
    ensures
        r@ == primed(var@),
{
    let v = text::chars_of(var);
    if v.len() > 0 && v[v.len() - 1] == '\'' {
        let base = text::text_of(&v, 0, v.len() - 1);
        assert(base@ =~= var@.drop_last());
        "'".to_owned().concat(base.as_str())
    } else {
        var.to_owned()
    }
}

/// A term: the first one with its sign alone, the others with an operator.
pub open spec fn term(first: bool, coeff: int, var: Seq<char>) -> Seq<char> {
    if first {
        text::signed_decimal(coeff) + " * "@ + primed(var)
    } else if coeff > 0 {
        " + "@ + text::decimal(coeff as nat) + " * "@ + primed(var)
    } else {
        " -"@ + text::decimal((-coeff) as nat) + " * "@ + primed(var)
    }
}

/// The terms of the first `n` coefficients, or what is wrong with one of them.
/// A coefficient of 0 has no term.
pub open spec fn terms(coeffs: Seq<JsonView>, n: int) -> Result<Seq<char>, Seq<char>>
    decreases n,
{
    if n <= 0 {
        Ok(Seq::empty())
    } else {
        match terms(coeffs, n - 1) {
            Err(e) => Err(e),
            Ok(before) => match coeffs[n - 1].list() {
                None => Err("each coeff must be [var, number]"@),
                Some(pair) => if pair.len() != 2 {
                    Err("each coeff must be [var, number]"@)
                } else {
                    match (pair[0].text(), pair[1].signed()) {
                        (None, _) => Err("variable name must be string"@),
                        (_, None) => Err("coefficient must be integer"@),
                        (Some(var), Some(coeff)) => if coeff == 0 {
                            Ok(before)
                        } else {
                            Ok(before + term(before.len() == 0, coeff, var))
                        },
                    }
                },
            },
        }
    }
}

/// The terms with the constant behind them, and `0` where there is nothing.
pub open spec fn with_constant(sum: Seq<char>, constant: int) -> Seq<char> {
    if constant == 0 {
        if sum.len() == 0 {
            "0"@
        } else {
            sum
        }
    } else if sum.len() == 0 {
        text::signed_decimal(constant)
    } else if constant > 0 {
        sum + (" + "@ + text::decimal(constant as nat))
    } else {
        sum + (" -"@ + text::decimal((-constant) as nat))
    }
}

/// A constraint in the tool's notation, or what is wrong with it.
pub open spec fn constraint_text(c: JsonView) -> Result<Seq<char>, Seq<char>> {
    match (c.at("coeffs"@).list(), c.at("constant"@).signed(), c.text_field("kind"@)) {
        (None, _, _) => Err("constraint missing 'coeffs' array"@),
        (_, None, _) => Err("constraint missing 'constant' integer"@),
        (_, _, None) => Err("constraint missing 'kind' string"@),
        (Some(coeffs), Some(constant), Some(kind)) => match terms(coeffs, coeffs.len() as int) {
            Err(e) => Err(e),
            Ok(sum) => if kind == "geq"@ {
                Ok(with_constant(sum, constant) + " >= 0"@)
            } else if kind == "eq"@ {
                Ok(with_constant(sum, constant) + " = 0"@)
            } else {
                Err("unknown constraint kind '"@ + kind + "'"@)
            },
        },
    }
}

/// A result of texts says what `s` says.
pub open spec fn says(r: Result<String, String>, s: Result<Seq<char>, Seq<char>>) -> bool {
    match s {
        Ok(t) => r matches Ok(x) && x@ == t,
        Err(m) => r matches Err(e) && e@ == m,
    }
}

fn term_text(first: bool, coeff: i64, var: &str) -> (r: String)
    requires
        coeff != 0,
    ensures
        r@ == term(first, coeff as int, var@),
{
    let name = to_in_primed(var);
    if first {
        text::signed_decimal_text(coeff).concat(" * ").concat(name.as_str())
    } else if coeff > 0 {
        " + ".to_owned().concat(text::decimal_text(coeff as u64).as_str()).concat(" * ").concat(
            name.as_str(),
        )
    } else {
        let magnitude: u64 = (-(coeff as i128)) as u64;
        " -".to_owned().concat(text::decimal_text(magnitude).as_str()).concat(" * ").concat(
            name.as_str(),
        )
    }
}

fn terms_text(coeffs: &Vec<Json>) -> (r: Result<String, String>)
    ensures
        says(r, terms(json::json_views(coeffs@), coeffs@.len() as int)),
{
    let ghost views = json::json_views(coeffs@);
    let ghost all = terms(views, coeffs@.len() as int);
    let mut sum = String::new();
    let mut i: usize = 0;
    while i < coeffs.len()
        invariant
            i <= coeffs@.len(),
            views == json::json_views(coeffs@),
            all == terms(views, coeffs@.len() as int),
            terms(views, i as int) == Ok::<Seq<char>, Seq<char>>(sum@),
        decreases coeffs@.len() - i,
    {
        assert(views[i as int] == coeffs@[i as int]@);
        let problem = match coeffs[i].as_array() {
            None => Some("each coeff must be [var, number]"),
            Some(pair) => if pair.len() != 2 {
                Some("each coeff must be [var, number]")
            } else {
                assert(json::json_views(pair@)[0] == pair@[0]@);
                assert(json::json_views(pair@)[1] == pair@[1]@);
                match pair[0].as_str() {
                    None => Some("variable name must be string"),
                    Some(var) => match pair[1].as_i64() {
                        None => Some("coefficient must be integer"),
                        Some(coeff) => {
                            if coeff != 0 {
                                let t = term_text(sum.as_str().is_empty(), coeff, var.as_str());
                                sum.append(t.as_str());
                            }
                            None
                        },
                    },
                }
            },
        };
        match problem {
            Some(message) => {
                proof {
                    lemma_terms_error(views, i + 1, coeffs@.len() as int);
                }
                return Err(message.to_owned());
            },
            None => {},
        }
        i = i + 1;
    }
    Ok(sum)
}

/// The first thing that is wrong is what is reported.
proof fn lemma_terms_error(coeffs: Seq<JsonView>, m: int, n: int)
    requires
        0 <= m <= n,
        terms(coeffs, m) is Err,
    ensures
        terms(coeffs, n) == terms(coeffs, m),
    decreases n,
{
    if m < n {
        lemma_terms_error(coeffs, m, n - 1);
    }
}

/// Format a constraint as a line of the tool's input.
///
/// `{"coeffs": [["x", 1], ["y", -2]], "constant": 3, "kind": "geq"}` becomes
/// `1 * x -2 * y + 3 >= 0`.
pub fn format_constraint_in(c: &Json) -> (r: Result<String, String>)
    ensures
        says(r, constraint_text(c@)),
        laws::readable_constraint(c@) ==> (r matches Ok(s) ==> laws::read_constraint(s@) == Some(
            laws::constraint_of(c@),
        )),
{
    proof {
        if constraint_text(c@) is Ok && laws::readable_constraint(c@) {
            laws::constraint_reads_back(c@);
        }
    }
    let coeffs = match c.get_array("coeffs") {
        Some(l) => l,
        None => {
            return Err("constraint missing 'coeffs' array".to_owned());
        },
    };
    let constant: i64 = match c.get("constant") {
        Some(v) => match v.as_i64() {
            Some(n) => n,
            None => {
                return Err("constraint missing 'constant' integer".to_owned());
            },
        },
        None => {
            return Err("constraint missing 'constant' integer".to_owned());
        },
    };
    let kind = match c.get_str("kind") {
        Some(k) => k,
        None => {
            return Err("constraint missing 'kind' string".to_owned());
        },
    };
    let sum = match terms_text(coeffs) {
        Ok(s) => s,
        Err(e) => {
            return Err(e);
        },
    };
    let empty = sum.as_str().is_empty();
    let whole = if constant == 0 {
        if empty {
            "0".to_owned()
        } else {
            sum
        }
    } else if empty {
        text::signed_decimal_text(constant)
    } else if constant > 0 {
        let more = " + ".to_owned().concat(text::decimal_text(constant as u64).as_str());
        sum.concat(more.as_str())
    } else {
        let magnitude: u64 = (-(constant as i128)) as u64;
        let more = " -".to_owned().concat(text::decimal_text(magnitude).as_str());
        sum.concat(more.as_str())
    };
    if text::same_text(kind.as_str(), "geq") {
        Ok(whole.concat(" >= 0"))
    } else if text::same_text(kind.as_str(), "eq") {
        Ok(whole.concat(" = 0"))
    } else {
        Err("unknown constraint kind '".to_owned().concat(kind.as_str()).concat("'"))
    }
}

/// Lines, or what is wrong.
pub type LinesView = Result<Seq<Seq<char>>, Seq<char>>;

/// The lines of `a` and then those of `b`; what is wrong with `a` comes first.
pub open spec fn and_then(a: LinesView, b: LinesView) -> LinesView {
    match (a, b) {
        (Err(e), _) => Err(e),
        (_, Err(e)) => Err(e),
        (Ok(x), Ok(y)) => Ok(x + y),
    }
}

/// The lines of the first `n` constraints, each set in by two spaces.
pub open spec fn constraint_lines(list: Seq<JsonView>, n: int) -> LinesView
    decreases n,
{
    if n <= 0 {
        Ok(Seq::empty())
    } else {
        and_then(
            constraint_lines(list, n - 1),
            match constraint_text(list[n - 1]) {
                Ok(t) => Ok(seq!["  "@ + t]),
                Err(e) => Err(e),
            },
        )
    }
}

/// The lines of the constraints under `key`, where there are any.
pub open spec fn constraints_under(v: JsonView, key: Seq<char>) -> LinesView {
    match v.at(key).list() {
        Some(l) => constraint_lines(l, l.len() as int),
        None => Ok(Seq::empty()),
    }
}

/// The lines of a location.
pub open spec fn location_lines(loc: JsonView) -> LinesView {
    match loc.text_field("name"@) {
        None => Err("location missing 'name'"@),
        Some(name) => and_then(
            Ok(seq!["Location "@ + name + ":"@]),
            constraints_under(loc, "init_constraints"@),
        ),
    }
}

/// The texts in a list of JSON values.
pub open spec fn texts_in(items: Seq<JsonView>, n: int) -> Seq<Seq<char>>
    decreases n,
{
    if n <= 0 {
        Seq::empty()
    } else {
        match items[n - 1].text() {
            Some(s) => texts_in(items, n - 1).push(s),
            None => texts_in(items, n - 1),
        }
    }
}

/// The line that says which variables a transition leaves alone, where there are
/// any.
pub open spec fn preserve_lines(tr: JsonView) -> Seq<Seq<char>> {
    match tr.at("preserved"@).list() {
        Some(l) => {
            let names = texts_in(l, l.len() as int);
            if names.len() == 0 {
                Seq::empty()
            } else {
                seq!["  preserve["@ + text::joined(names, ", "@) + "]"@]
            }
        },
        None => Seq::empty(),
    }
}

/// The lines of a transition.
pub open spec fn transition_lines(tr: JsonView) -> LinesView {
    match (tr.text_field("name"@), tr.text_field("src"@), tr.text_field("dst"@)) {
        (None, _, _) => Err("transition missing 'name'"@),
        (_, None, _) => Err("transition missing 'src'"@),
        (_, _, None) => Err("transition missing 'dst'"@),
        (Some(name), Some(src), Some(dst)) => and_then(
            and_then(
                and_then(
                    Ok(seq!["Transition "@ + name + ": "@ + src + ", "@ + dst]),
                    constraints_under(tr, "guard"@),
                ),
                constraints_under(tr, "update"@),
            ),
            Ok(preserve_lines(tr)),
        ),
    }
}

/// The lines of the first `n` locations.
pub open spec fn all_locations(list: Seq<JsonView>, n: int) -> LinesView
    decreases n,
{
    if n <= 0 {
        Ok(Seq::empty())
    } else {
        and_then(all_locations(list, n - 1), location_lines(list[n - 1]))
    }
}

/// The lines of the first `n` transitions.
pub open spec fn all_transitions(list: Seq<JsonView>, n: int) -> LinesView
    decreases n,
{
    if n <= 0 {
        Ok(Seq::empty())
    } else {
        and_then(all_transitions(list, n - 1), transition_lines(list[n - 1]))
    }
}

/// The line of the variables.
pub open spec fn variable_lines(input: JsonView) -> LinesView {
    match input.at("variables"@).list() {
        None => Err("missing 'variables' array"@),
        Some(l) => if forall|i: int| 0 <= i < l.len() ==> (#[trigger] l[i]).text() is Some {
            Ok(seq!["Variable ["@ + text::joined(texts_in(l, l.len() as int), ", "@) + "]"@])
        } else {
            Err("variable must be string"@)
        },
    }
}

/// The lines of a transition system.
pub open spec fn system_lines(input: JsonView) -> LinesView {
    and_then(
        and_then(
            and_then(
                variable_lines(input),
                match input.at("locations"@).list() {
                    None => Err("missing 'locations' array"@),
                    Some(l) => all_locations(l, l.len() as int),
                },
            ),
            match input.at("transitions"@).list() {
                None => Err("missing 'transitions' array"@),
                Some(l) => all_transitions(l, l.len() as int),
            },
        ),
        Ok(seq!["End"@]),
    )
}

/// What pushing lines comes to: they stand behind the old ones, or something is
/// wrong.
pub open spec fn pushed(
    r: Result<(), String>,
    before: Seq<String>,
    after: Seq<String>,
    lines: LinesView,
) -> bool {
    match lines {
        Ok(l) => r is Ok && text::texts(after) == text::texts(before) + l,
        Err(m) => r matches Err(e) && e@ == m,
    }
}

fn push_line(lines: &mut Vec<String>, line: String)
    ensures
        text::texts(final(lines)@) == text::texts(old(lines)@).push(line@),
{
    proof {
        assert(text::texts(lines@.push(line)) =~= text::texts(lines@).push(line@));
    }
    lines.push(line);
}

proof fn lemma_constraint_error(list: Seq<JsonView>, m: int, n: int)
    requires
        0 <= m <= n,
        constraint_lines(list, m) is Err,
    ensures
        constraint_lines(list, n) == constraint_lines(list, m),
    decreases n,
{
    if m < n {
        lemma_constraint_error(list, m, n - 1);
    }
}

fn push_constraints(lines: &mut Vec<String>, v: &Json, key: &str) -> (r: Result<(), String>)
    ensures
        pushed(r, old(lines)@, final(lines)@, constraints_under(v@, key@)),
{
    let ghost before = text::texts(lines@);
    match v.get_array(key) {
        Some(list) => {
            let ghost views = json::json_views(list@);
            let mut i: usize = 0;
            assert(text::texts(lines@) =~= before + Seq::<Seq<char>>::empty());
            while i < list.len()
                invariant
                    i <= list@.len(),
                    views == json::json_views(list@),
                    constraints_under(v@, key@) == constraint_lines(views, list@.len() as int),
                    before == text::texts(old(lines)@),
                    constraint_lines(views, i as int) is Ok,
                    text::texts(lines@) == before + constraint_lines(views, i as int)->Ok_0,
                decreases list@.len() - i,
            {
                assert(views[i as int] == list@[i as int]@);
                match format_constraint_in(&list[i]) {
                    Ok(t) => {
                        push_line(lines, "  ".to_owned().concat(t.as_str()));
                        assert(text::texts(lines@) =~= before + constraint_lines(
                            views,
                            i + 1,
                        )->Ok_0);
                    },
                    Err(e) => {
                        proof {
                            lemma_constraint_error(views, i + 1, list@.len() as int);
                        }
                        return Err(e);
                    },
                }
                i = i + 1;
            }
        },
        None => {
            assert(text::texts(lines@) =~= before + Seq::<Seq<char>>::empty());
        },
    }
    Ok(())
}

fn push_location(lines: &mut Vec<String>, loc: &Json) -> (r: Result<(), String>)
    ensures
        pushed(r, old(lines)@, final(lines)@, location_lines(loc@)),
{
    let ghost before = text::texts(lines@);
    match loc.get_str("name") {
        None => Err("location missing 'name'".to_owned()),
        Some(name) => {
            push_line(lines, "Location ".to_owned().concat(name.as_str()).concat(":"));
            let ghost head = text::texts(lines@);
            let r = push_constraints(lines, loc, "init_constraints");
            proof {
                if constraints_under(loc@, "init_constraints"@) is Ok {
                    assert(text::texts(lines@) =~= before + location_lines(loc@)->Ok_0);
                }
            }
            r
        },
    }
}

fn texts_of(items: &Vec<Json>) -> (r: Vec<String>)
    ensures
        text::texts(r@) == texts_in(json::json_views(items@), items@.len() as int),
{
    let ghost views = json::json_views(items@);
    let mut r: Vec<String> = Vec::new();
    let mut i: usize = 0;
    assert(text::texts(r@) =~= texts_in(views, 0));
    while i < items.len()
        invariant
            i <= items@.len(),
            views == json::json_views(items@),
            text::texts(r@) == texts_in(views, i as int),
        decreases items@.len() - i,
    {
        assert(views[i as int] == items@[i as int]@);
        match items[i].as_str() {
            Some(s) => {
                push_line(&mut r, s.clone());
            },
            None => {},
        }
        i = i + 1;
    }
    r
}

fn push_transition(lines: &mut Vec<String>, tr: &Json) -> (r: Result<(), String>)
    ensures
        pushed(r, old(lines)@, final(lines)@, transition_lines(tr@)),
{
    let ghost before = text::texts(lines@);
    let name = match tr.get_str("name") {
        Some(s) => s,
        None => {
            return Err("transition missing 'name'".to_owned());
        },
    };
    let src = match tr.get_str("src") {
        Some(s) => s,
        None => {
            return Err("transition missing 'src'".to_owned());
        },
    };
    let dst = match tr.get_str("dst") {
        Some(s) => s,
        None => {
            return Err("transition missing 'dst'".to_owned());
        },
    };
    push_line(
        lines,
        "Transition ".to_owned().concat(name.as_str()).concat(": ").concat(src.as_str()).concat(
            ", ",
        ).concat(dst.as_str()),
    );
    match push_constraints(lines, tr, "guard") {
        Ok(_) => {},
        Err(e) => {
            return Err(e);
        },
    }
    match push_constraints(lines, tr, "update") {
        Ok(_) => {},
        Err(e) => {
            return Err(e);
        },
    }
    match tr.get_array("preserved") {
        Some(list) => {
            let names = texts_of(list);
            assert(text::texts(names@).len() == names@.len());
            if names.len() > 0 {
                push_line(
                    lines,
                    "  preserve[".to_owned().concat(text::join(&names, ", ").as_str()).concat("]"),
                );
            }
        },
        None => {},
    }
    assert(text::texts(lines@) =~= before + transition_lines(tr@)->Ok_0);
    Ok(())
}

proof fn lemma_location_error(list: Seq<JsonView>, m: int, n: int)
    requires
        0 <= m <= n,
        all_locations(list, m) is Err,
    ensures
        all_locations(list, n) == all_locations(list, m),
    decreases n,
{
    if m < n {
        lemma_location_error(list, m, n - 1);
    }
}

proof fn lemma_transition_error(list: Seq<JsonView>, m: int, n: int)
    requires
        0 <= m <= n,
        all_transitions(list, m) is Err,
    ensures
        all_transitions(list, n) == all_transitions(list, m),
    decreases n,
{
    if m < n {
        lemma_transition_error(list, m, n - 1);
    }
}

fn push_locations(lines: &mut Vec<String>, list: &Vec<Json>) -> (r: Result<(), String>)
    ensures
        pushed(
            r,
            old(lines)@,
            final(lines)@,
            all_locations(json::json_views(list@), list@.len() as int),
        ),
{
    let ghost before = text::texts(lines@);
    let ghost views = json::json_views(list@);
    let mut i: usize = 0;
    assert(text::texts(lines@) =~= before + Seq::<Seq<char>>::empty());
    while i < list.len()
        invariant
            i <= list@.len(),
            views == json::json_views(list@),
            before == text::texts(old(lines)@),
            all_locations(views, i as int) is Ok,
            text::texts(lines@) == before + all_locations(views, i as int)->Ok_0,
        decreases list@.len() - i,
    {
        assert(views[i as int] == list@[i as int]@);
        match push_location(lines, &list[i]) {
            Ok(_) => {
                assert(text::texts(lines@) =~= before + all_locations(views, i + 1)->Ok_0);
            },
            Err(e) => {
                proof {
                    lemma_location_error(views, i + 1, list@.len() as int);
                }
                return Err(e);
            },
        }
        i = i + 1;
    }
    Ok(())
}

fn push_transitions(lines: &mut Vec<String>, list: &Vec<Json>) -> (r: Result<(), String>)
    ensures
        pushed(
            r,
            old(lines)@,
            final(lines)@,
            all_transitions(json::json_views(list@), list@.len() as int),
        ),
{
    let ghost before = text::texts(lines@);
    let ghost views = json::json_views(list@);
    let mut i: usize = 0;
    assert(text::texts(lines@) =~= before + Seq::<Seq<char>>::empty());
    while i < list.len()
        invariant
            i <= list@.len(),
            views == json::json_views(list@),
            before == text::texts(old(lines)@),
            all_transitions(views, i as int) is Ok,
            text::texts(lines@) == before + all_transitions(views, i as int)->Ok_0,
        decreases list@.len() - i,
    {
        assert(views[i as int] == list@[i as int]@);
        match push_transition(lines, &list[i]) {
            Ok(_) => {
                assert(text::texts(lines@) =~= before + all_transitions(views, i + 1)->Ok_0);
            },
            Err(e) => {
                proof {
                    lemma_transition_error(views, i + 1, list@.len() as int);
                }
                return Err(e);
            },
        }
        i = i + 1;
    }
    Ok(())
}

fn push_variables(lines: &mut Vec<String>, input: &Json) -> (r: Result<(), String>)
    ensures
        pushed(r, old(lines)@, final(lines)@, variable_lines(input@)),
{
    let ghost before = text::texts(lines@);
    let list = match input.get_array("variables") {
        Some(l) => l,
        None => {
            return Err("missing 'variables' array".to_owned());
        },
    };
    let ghost views = json::json_views(list@);
    let mut i: usize = 0;
    while i < list.len()
        invariant
            i <= list@.len(),
            views == json::json_views(list@),
            input@.at("variables"@).list() == Some(views),
            forall|j: int| 0 <= j < i ==> (#[trigger] views[j]).text() is Some,
        decreases list@.len() - i,
    {
        assert(views[i as int] == list@[i as int]@);
        match list[i].as_str() {
            Some(_) => {},
            None => {
                return Err("variable must be string".to_owned());
            },
        }
        i = i + 1;
    }
    let names = texts_of(list);
    push_line(
        lines,
        "Variable [".to_owned().concat(text::join(&names, ", ").as_str()).concat("]"),
    );
    assert(text::texts(lines@) =~= before + variable_lines(input@)->Ok_0);
    Ok(())
}

/// Convert a transition system from JSON to the tool's input text.
pub fn json_to_in_format(input: &Json) -> (r: Result<String, String>)
    ensures
        says(
            r,
            (match system_lines(input@) {
                Ok(l) => Ok(text::joined(l, "\n"@)),
                Err(e) => Err(e),
            }),
        ),
        laws::readable_system(input@) ==> (r matches Ok(s) ==> laws::read_system(s@)
            == laws::system_of(input@)),
{
    proof {
        if system_lines(input@) is Ok && laws::readable_system(input@) {
            laws::system_reads_back(input@);
        }
    }
    let mut lines: Vec<String> = Vec::new();
    assert(text::texts(lines@) =~= Seq::<Seq<char>>::empty());
    match push_variables(&mut lines, input) {
        Ok(_) => {},
        Err(e) => {
            return Err(e);
        },
    }
    match input.get_array("locations") {
        Some(list) => match push_locations(&mut lines, list) {
            Ok(_) => {},
            Err(e) => {
                return Err(e);
            },
        },
        None => {
            return Err("missing 'locations' array".to_owned());
        },
    }
    match input.get_array("transitions") {
        Some(list) => match push_transitions(&mut lines, list) {
            Ok(_) => {},
            Err(e) => {
                return Err(e);
            },
        },
        None => {
            return Err("missing 'transitions' array".to_owned());
        },
    }
    push_line(&mut lines, "End".to_owned());
    assert(text::texts(lines@) =~= system_lines(input@)->Ok_0);
    Ok(text::join(&lines, "\n"))
}

/// What was read of the tool's output: the locations that are complete, with
/// their invariants, and the one that is being read.
pub struct Reading {
    pub done: Seq<(Seq<char>, JsonView)>,
    pub location: Option<Seq<char>>,
    pub invariants: Seq<JsonView>,
}

/// The complete locations, once the one that is being read is closed.
pub open spec fn closed(r: Reading) -> Seq<(Seq<char>, JsonView)> {
    match r.location {
        Some(l) => json::with_field(r.done, l, JsonView::List(r.invariants)),
        None => r.done,
    }
}

/// One line more. `Location:` opens a location; other lines are invariants of the
/// one that is open; blank lines say nothing.
pub open spec fn read_line(r: Reading, line: Seq<char>) -> Reading {
    let t = text::trimmed(line);
    if t.len() == 0 {
        r
    } else if text::begins_with(t, "Location:"@) {
        Reading {
            done: closed(r),
            location: Some(text::trimmed(text::after(t, "Location:"@.len() as int))),
            invariants: if r.location is Some {
                Seq::empty()
            } else {
                r.invariants
            },
        }
    } else if r.location is Some {
        Reading { invariants: r.invariants.push(JsonView::Text(t)), ..r }
    } else {
        r
    }
}

/// The first `n` lines.
pub open spec fn read_lines(lines: Seq<Seq<char>>, n: int) -> Reading
    decreases n,
{
    if n <= 0 {
        Reading { done: Seq::empty(), location: None, invariants: Seq::empty() }
    } else {
        read_line(read_lines(lines, n - 1), lines[n - 1])
    }
}

/// The lines that are not blank, as texts.
pub open spec fn plain_invariants(lines: Seq<Seq<char>>, n: int) -> Seq<JsonView>
    decreases n,
{
    if n <= 0 {
        Seq::empty()
    } else {
        let t = text::trimmed(lines[n - 1]);
        if t.len() == 0 {
            plain_invariants(lines, n - 1)
        } else {
            plain_invariants(lines, n - 1).push(JsonView::Text(t))
        }
    }
}

/// Some line opens a location.
pub open spec fn has_locations(lines: Seq<Seq<char>>) -> bool {
    exists|i: int| 0 <= i < lines.len() && text::begins_with(#[trigger] lines[i], "Location:"@)
}

/// The invariants in the tool's output: by location where it names locations,
/// else one list.
pub open spec fn invariants_json(output: Seq<char>) -> JsonView {
    let lines = text::lines_of(output);
    JsonView::Record(
        seq![
            (
                "invariants"@,
                if has_locations(lines) {
                    JsonView::Record(closed(read_lines(lines, lines.len() as int)))
                } else {
                    JsonView::List(plain_invariants(lines, lines.len() as int))
                },
            ),
        ],
    )
}

fn push_text(list: &mut Vec<Json>, s: String)
    ensures
        json::json_views(final(list)@) == json::json_views(old(list)@).push(JsonView::Text(s@)),
{
    let j = Json::Text(s);
    proof {
        assert(json::json_views(list@.push(j)) =~= json::json_views(list@).push(j@));
    }
    list.push(j);
}

fn read_located(lines: &Vec<String>) -> (r: JsonObject)
    ensures
        r@ == closed(read_lines(text::texts(lines@), lines@.len() as int)),
{
    let ghost views = text::texts(lines@);
    let mut done = JsonObject::new();
    let mut location: Option<String> = None;
    let mut invariants: Vec<Json> = Vec::new();
    let mut i: usize = 0;
    assert(json::json_views(invariants@) =~= Seq::<JsonView>::empty());
    while i < lines.len()
        invariant
            i <= lines@.len(),
            views == text::texts(lines@),
            done@ == read_lines(views, i as int).done,
            match location {
                Some(l) => read_lines(views, i as int).location == Some(l@),
                None => read_lines(views, i as int).location is None,
            },
            json::json_views(invariants@) == read_lines(views, i as int).invariants,
        decreases lines@.len() - i,
    {
        assert(views[i as int] == lines@[i as int]@);
        let t = text::trim(lines[i].as_str());
        if !t.as_str().is_empty() {
            match text::strip_prefix(t.as_str(), "Location:") {
                Some(name) => {
                    match location {
                        Some(l) => {
                            let mut list: Vec<Json> = Vec::new();
                            std::mem::swap(&mut list, &mut invariants);
                            done.insert(l, Json::list(list));
                            assert(json::json_views(invariants@) =~= Seq::<JsonView>::empty());
                        },
                        None => {},
                    }
                    location = Some(text::trim(name.as_str()));
                },
                None => {
                    if location.is_some() {
                        push_text(&mut invariants, t);
                    }
                },
            }
        }
        i = i + 1;
    }
    match location {
        Some(l) => {
            done.insert(l, Json::list(invariants));
        },
        None => {},
    }
    done
}

/// Parse the tool's output into JSON.
pub fn parse_inv_output(output: &str) -> (r: Json)
    ensures
        r@ == invariants_json(output@),
{
    let lines = text::lines(output);
    let ghost views = text::texts(lines@);
    let mut located = false;
    let mut i: usize = 0;
    while i < lines.len()
        invariant
            i <= lines@.len(),
            views == text::texts(lines@),
            located == exists|j: int|
                0 <= j < i && text::begins_with(#[trigger] views[j], "Location:"@),
        decreases lines@.len() - i,
    {
        assert(views[i as int] == lines@[i as int]@);
        if text::starts_with(lines[i].as_str(), "Location:") {
            located = true;
        }
        i = i + 1;
    }
    let inner = if located {
        Json::Record(read_located(&lines))
    } else {
        let mut invariants: Vec<Json> = Vec::new();
        let mut i: usize = 0;
        assert(json::json_views(invariants@) =~= Seq::<JsonView>::empty());
        while i < lines.len()
            invariant
                i <= lines@.len(),
                views == text::texts(lines@),
                json::json_views(invariants@) == plain_invariants(views, i as int),
            decreases lines@.len() - i,
        {
            assert(views[i as int] == lines@[i as int]@);
            let t = text::trim(lines[i].as_str());
            if !t.as_str().is_empty() {
                push_text(&mut invariants, t);
            }
            i = i + 1;
        }
        Json::list(invariants)
    };
    let mut o = JsonObject::new();
    o.insert("invariants".to_owned(), inner);
    assert(o@ =~= invariants_json(output@)->Record_0);
    Json::Record(o)
}

} // verus!
