//! The tool's notation read back: what was written is the transition system that was
//! given.
//!
//! The reader here knows the notation only: words between spaces, names between
//! commas, lines between line ends.

use vstd::prelude::*;

use crate::json;
use crate::json::JsonView;
use crate::linear_invariant;
use crate::text;

verus! {

// ── Cutting texts ───────────────────────────────────────────────────────

/// The pieces of `s` between the occurrences of `c`.
pub open spec fn cut(s: Seq<char>, c: char) -> Seq<Seq<char>>
    decreases s.len(),
{
    if s.len() == 0 {
        seq![s]
    } else {
        let before = cut(s.drop_last(), c);
        if s.last() == c {
            before.push(Seq::empty())
        } else {
            before.drop_last().push(before.last().push(s.last()))
        }
    }
}

proof fn lemma_cut_len(s: Seq<char>, c: char)
    ensures
        cut(s, c).len() > 0,
    decreases s.len(),
{
    if s.len() > 0 {
        lemma_cut_len(s.drop_last(), c);
    }
}

/// What holds no `c` is one piece.
proof fn lemma_cut_whole(s: Seq<char>, c: char)
    requires
        !s.contains(c),
    ensures
        cut(s, c) == seq![s],
    decreases s.len(),
{
    if s.len() > 0 {
        assert forall|i: int| 0 <= i < s.drop_last().len() implies s.drop_last()[i] != c by {
            assert(s[i] != c);
        }
        lemma_cut_whole(s.drop_last(), c);
        assert(s[s.len() - 1] != c);
        assert(s.drop_last().push(s.last()) =~= s);
        assert(cut(s, c) =~= seq![s]);
    } else {
        assert(cut(s, c) =~= seq![s]);
    }
}

/// A `c` between two texts parts their pieces.
proof fn lemma_cut_between(a: Seq<char>, b: Seq<char>, c: char)
    ensures
        cut(a + seq![c] + b, c) == cut(a, c) + cut(b, c),
    decreases b.len(),
{
    let s = a + seq![c] + b;
    lemma_cut_len(b, c);
    if b.len() == 0 {
        assert(s.drop_last() =~= a);
        assert(b =~= Seq::<char>::empty());
        assert(cut(b, c) =~= seq![b]);
        assert(cut(s, c) =~= cut(a, c) + cut(b, c));
    } else {
        assert(s.drop_last() =~= a + seq![c] + b.drop_last());
        assert(s.last() == b.last());
        lemma_cut_between(a, b.drop_last(), c);
        lemma_cut_len(b.drop_last(), c);
        let before = cut(a, c) + cut(b.drop_last(), c);
        assert(before.last() == cut(b.drop_last(), c).last());
        assert(before.drop_last() =~= cut(a, c) + cut(b.drop_last(), c).drop_last());
        assert(cut(s, c) =~= cut(a, c) + cut(b, c));
    }
}

/// Texts without `c` that are joined by it are the pieces.
proof fn lemma_cut_joined(parts: Seq<Seq<char>>, c: char)
    requires
        parts.len() > 0,
        forall|i: int| 0 <= i < parts.len() ==> !(#[trigger] parts[i]).contains(c),
    ensures
        cut(text::joined(parts, seq![c]), c) == parts,
    decreases parts.len(),
{
    if parts.len() == 1 {
        lemma_cut_whole(parts[0], c);
        assert(parts =~= seq![parts[0]]);
    } else {
        let rest = parts.drop_last();
        assert forall|i: int| 0 <= i < rest.len() implies !(#[trigger] rest[i]).contains(c) by {
            assert(rest[i] == parts[i]);
        }
        lemma_cut_joined(rest, c);
        let last = parts.last();
        assert(last == parts[parts.len() - 1]);
        lemma_cut_between(text::joined(rest, seq![c]), last, c);
        lemma_cut_whole(last, c);
        assert(rest + seq![last] =~= parts);
    }
}

/// The names in a list with commas and spaces between them.
pub open spec fn read_names(s: Seq<char>) -> Seq<Seq<char>> {
    if s.len() == 0 {
        Seq::empty()
    } else {
        let pieces = cut(s, ',');
        Seq::new(
            pieces.len(),
            |i: int|
                if i == 0 {
                    pieces[i]
                } else {
                    pieces[i].drop_first()
                },
        )
    }
}

proof fn lemma_cut_names(names: Seq<Seq<char>>)
    requires
        names.len() > 0,
        forall|i: int| 0 <= i < names.len() ==> !(#[trigger] names[i]).contains(','),
    ensures
        ({
            let pieces = cut(text::joined(names, ", "@), ',');
            &&& pieces.len() == names.len()
            &&& pieces[0] == names[0]
            &&& forall|i: int| 0 < i < names.len() ==> #[trigger] pieces[i] == seq![' '] + names[i]
        }),
    decreases names.len(),
{
    reveal_strlit(", ");
    if names.len() == 1 {
        lemma_cut_whole(names[0], ',');
    } else {
        let rest = names.drop_last();
        assert forall|i: int| 0 <= i < rest.len() implies !(#[trigger] rest[i]).contains(',') by {
            assert(rest[i] == names[i]);
        }
        lemma_cut_names(rest);
        let last = names.last();
        assert(last == names[names.len() - 1]);
        let tail = seq![' '] + last;
        let whole = text::joined(names, ", "@);
        assert(", "@ =~= seq![',', ' ']);
        assert(whole =~= text::joined(rest, ", "@) + seq![','] + tail);
        lemma_cut_between(text::joined(rest, ", "@), tail, ',');
        assert forall|i: int| 0 <= i < tail.len() implies tail[i] != ',' by {
            if i > 0 {
                assert(tail[i] == last[i - 1]);
            }
        }
        lemma_cut_whole(tail, ',');
        let pieces = cut(whole, ',');
        assert(pieces == cut(text::joined(rest, ", "@), ',') + seq![tail]);
    }
}

/// Names without commas are read back, but for one empty name alone.
proof fn lemma_read_names(names: Seq<Seq<char>>)
    requires
        forall|i: int| 0 <= i < names.len() ==> !(#[trigger] names[i]).contains(','),
        names.len() == 1 ==> names[0].len() > 0,
    ensures
        read_names(text::joined(names, ", "@)) == names,
{
    reveal_strlit(", ");
    let whole = text::joined(names, ", "@);
    if names.len() > 0 {
        lemma_cut_names(names);
        assert(whole.len() > 0) by {
            if names.len() > 1 {
                assert(whole == text::joined(names.drop_last(), ", "@) + ", "@ + names.last());
            }
        }
        assert forall|i: int| 0 <= i < names.len() implies #[trigger] read_names(whole)[i]
            == names[i] by {
            if i > 0 {
                assert((seq![' '] + names[i]).drop_first() =~= names[i]);
            }
        }
        assert(read_names(whole) =~= names);
    } else {
        assert(read_names(whole) =~= names);
    }
}

// ── Numbers ─────────────────────────────────────────────────────────────

/// The value of decimal digits; that of none is 0.
pub open spec fn digits_value(s: Seq<char>) -> Option<nat>
    decreases s.len(),
{
    if s.len() == 0 {
        Some(0)
    } else {
        match digits_value(s.drop_last()) {
            Some(n) => if '0' <= s.last() && s.last() <= '9' {
                Some((10 * n + (s.last() as int - '0' as int)) as nat)
            } else {
                None
            },
            None => None,
        }
    }
}

/// The value of a whole number in decimal, with a minus sign where it is negative.
pub open spec fn number_value(s: Seq<char>) -> Option<int> {
    if s.len() > 0 && s[0] == '-' {
        match digits_value(s.drop_first()) {
            Some(n) => Some(-(n as int)),
            None => None,
        }
    } else {
        match digits_value(s) {
            Some(n) => Some(n as int),
            None => None,
        }
    }
}

proof fn lemma_decimal_value(n: nat)
    ensures
        digits_value(text::decimal(n)) == Some(n),
        text::decimal(n).len() > 0,
        forall|i: int|
            0 <= i < text::decimal(n).len() ==> '0' <= #[trigger] text::decimal(n)[i] && text::decimal(
                n,
            )[i] <= '9',
    decreases n,
{
    reveal_with_fuel(digits_value, 2);
    let d = text::decimal(n);
    if n < 10 {
        assert(d.drop_last() =~= Seq::<char>::empty());
        assert(d.last() == text::digit(n));
    } else {
        lemma_decimal_value(n / 10);
        assert(d.drop_last() =~= text::decimal(n / 10));
        assert(d.last() == text::digit(n % 10));
    }
}

/// A number that is written down is read back, and is a single word.
pub proof fn numbers_read_back(n: int)
    ensures
        number_value(text::signed_decimal(n)) == Some(n),
        text::signed_decimal(n).len() > 0,
        forall|i: int|
            0 <= i < text::signed_decimal(n).len() ==> {
                let c = #[trigger] text::signed_decimal(n)[i];
                c == '-' || ('0' <= c && c <= '9')
            },
{
    let s = text::signed_decimal(n);
    if n < 0 {
        lemma_decimal_value((-n) as nat);
        assert(s.drop_first() =~= text::decimal((-n) as nat));
        assert forall|i: int| 0 <= i < s.len() implies {
            let c = #[trigger] s[i];
            c == '-' || ('0' <= c && c <= '9')
        } by {
            if i > 0 {
                assert(s[i] == text::decimal((-n) as nat)[i - 1]);
            }
        }
    } else {
        lemma_decimal_value(n as nat);
        assert(text::decimal(n as nat)[0] >= '0');
    }
}

// ── Constraints ─────────────────────────────────────────────────────────

/// A linear constraint: the sum of the terms and the constant is at least 0, or is
/// 0.
pub struct ConstraintView {
    pub terms: Seq<(Seq<char>, int)>,
    pub constant: int,
    pub at_least: bool,
}

/// A variable of the tool's notation: a prime stands in front of it.
pub open spec fn read_variable(word: Seq<char>) -> Seq<char> {
    if word.len() > 0 && word[0] == '\'' {
        word.drop_first().push('\'')
    } else {
        word
    }
}

/// How far a constraint is read.
pub struct WordsView {
    pub terms: Seq<(Seq<char>, int)>,
    /// A number that was read, and is a constant unless a variable follows.
    pub number: Option<int>,
    /// A variable follows.
    pub times: bool,
    pub at_least: Option<bool>,
}

/// One word more.
pub open spec fn read_word(r: WordsView, word: Seq<char>) -> WordsView {
    if r.at_least is Some {
        r
    } else if r.times {
        WordsView {
            terms: r.terms.push((read_variable(word), r.number->0)),
            number: None,
            times: false,
            at_least: None,
        }
    } else if word == seq!['+'] {
        r
    } else if word == seq!['*'] {
        WordsView { times: true, ..r }
    } else if word == seq!['>', '='] {
        WordsView { at_least: Some(true), ..r }
    } else if word == seq!['='] {
        WordsView { at_least: Some(false), ..r }
    } else {
        WordsView { number: number_value(word), ..r }
    }
}

/// All words, from what was read before them.
pub open spec fn read_words(r: WordsView, words: Seq<Seq<char>>) -> WordsView
    decreases words.len(),
{
    if words.len() == 0 {
        r
    } else {
        read_word(read_words(r, words.drop_last()), words.last())
    }
}

/// Nothing is read yet.
pub open spec fn no_words() -> WordsView {
    WordsView { terms: Seq::empty(), number: None, times: false, at_least: None }
}

/// The constraint that a text spells.
pub open spec fn read_constraint(s: Seq<char>) -> Option<ConstraintView> {
    let r = read_words(no_words(), cut(s, ' '));
    match r.at_least {
        Some(at_least) => Some(
            ConstraintView {
                terms: r.terms,
                constant: match r.number {
                    Some(n) => n,
                    None => 0,
                },
                at_least,
            },
        ),
        None => None,
    }
}

/// The variable and the coefficient of a pair.
pub open spec fn term_of(pair: JsonView) -> (Seq<char>, int) {
    match pair {
        JsonView::List(p) => match (p[0], p[1].signed()) {
            (JsonView::Text(var), Some(n)) => (var, n),
            _ => (Seq::empty(), 0),
        },
        _ => (Seq::empty(), 0),
    }
}

/// The terms of a list of pairs: those with a coefficient other than 0.
pub open spec fn terms_of(pairs: Seq<JsonView>) -> Seq<(Seq<char>, int)> {
    pairs.map_values(|p: JsonView| term_of(p)).filter(|t: (Seq<char>, int)| t.1 != 0)
}

/// The constraint that a JSON object describes.
pub open spec fn constraint_of(c: JsonView) -> ConstraintView {
    ConstraintView {
        terms: match c.at("coeffs"@) {
            JsonView::List(pairs) => terms_of(pairs),
            _ => Seq::empty(),
        },
        constant: match c.at("constant"@).signed() {
            Some(n) => n,
            None => 0,
        },
        at_least: c.at("kind"@) == JsonView::Text("geq"@),
    }
}

/// A variable that can be read back: a single word on one line, with a prime in
/// front only where there is one behind.
pub open spec fn is_readable(var: Seq<char>) -> bool {
    &&& !var.contains(' ')
    &&& !var.contains('\n')
    &&& var.len() > 0 && var[0] == '\'' ==> var.last() == '\''
}

/// All variables of a constraint can be read back.
pub open spec fn readable_constraint(c: JsonView) -> bool {
    match c.at("coeffs"@) {
        JsonView::List(pairs) => forall|i: int|
            0 <= i < pairs.len() ==> is_readable(term_of(#[trigger] pairs[i]).0),
        _ => true,
    }
}

proof fn lemma_read_variable(var: Seq<char>)
    requires
        is_readable(var),
    ensures
        read_variable(linear_invariant::primed(var)) == var,
        !linear_invariant::primed(var).contains(' '),
        !linear_invariant::primed(var).contains('\n'),
{
    reveal_strlit("'");
    let word = linear_invariant::primed(var);
    if var.len() > 0 && var.last() == '\'' {
        assert(word.drop_first() =~= var.drop_last());
        assert(word.drop_first().push('\'') =~= var);
        assert forall|i: int| 0 <= i < word.len() implies word[i] != ' ' && word[i] != '\n' by {
            if i > 0 {
                assert(word[i] == var[i - 1]);
            }
        }
    }
}

proof fn lemma_words_sum(r: WordsView, a: Seq<Seq<char>>, b: Seq<Seq<char>>)
    ensures
        read_words(r, a + b) == read_words(read_words(r, a), b),
    decreases b.len(),
{
    if b.len() == 0 {
        assert(a + b =~= a);
    } else {
        assert((a + b).drop_last() =~= a + b.drop_last());
        lemma_words_sum(r, a, b.drop_last());
    }
}

proof fn lemma_words_three(r: WordsView, a: Seq<char>, b: Seq<char>, c: Seq<char>)
    ensures
        read_words(r, seq![a]) == read_word(r, a),
        read_words(r, seq![a, b]) == read_word(read_word(r, a), b),
        read_words(r, seq![a, b, c]) == read_word(read_word(read_word(r, a), b), c),
{
    reveal_with_fuel(read_words, 4);
    assert(seq![a].drop_last() =~= Seq::<Seq<char>>::empty());
    assert(seq![a, b].drop_last() =~= seq![a]);
    assert(seq![a, b, c].drop_last() =~= seq![a, b]);
}

/// The words of a number, a star and a variable are read as a term.
#[verifier::rlimit(40)]
proof fn lemma_read_term(r: WordsView, coeff: int, var: Seq<char>)
    requires
        r.at_least is None,
        !r.times,
        is_readable(var),
    ensures
        ({
            let word = linear_invariant::primed(var);
            let s = text::signed_decimal(coeff) + " * "@ + word;
            &&& read_words(r, cut(s, ' ')) == (WordsView {
                terms: r.terms.push((var, coeff)),
                number: None,
                times: false,
                at_least: None,
            })
            &&& s.len() > 0
            &&& !s.contains('\n')
        }),
{
    reveal_strlit(" * ");
    let word = linear_invariant::primed(var);
    let num = text::signed_decimal(coeff);
    let s = num + " * "@ + word;
    lemma_read_variable(var);
    numbers_read_back(coeff);
    lemma_number_word(coeff);
    let rest = seq!['*', ' '] + word;
    assert(" * "@ =~= seq![' ', '*', ' ']);
    assert(s =~= num + seq![' '] + rest);
    lemma_cut_between(num, rest, ' ');
    lemma_cut_whole(num, ' ');
    assert(rest =~= seq!['*'] + seq![' '] + word);
    lemma_cut_between(seq!['*'], word, ' ');
    assert(!seq!['*'].contains(' '));
    lemma_cut_whole(seq!['*'], ' ');
    lemma_cut_whole(word, ' ');
    assert(cut(s, ' ') =~= seq![num, seq!['*'], word]);
    lemma_words_three(r, num, seq!['*'], word);
    assert forall|i: int| 0 <= i < s.len() implies s[i] != '\n' by {
        if i < num.len() {
            assert(s[i] == num[i]);
        } else if i >= num.len() + 3 {
            assert(s[i] == word[i - num.len() - 3]);
        }
    }
}

/// A number is none of the other words, and holds no space.
proof fn lemma_number_word(n: int)
    ensures
        !text::signed_decimal(n).contains(' '),
        !text::signed_decimal(n).contains('\n'),
        text::signed_decimal(n) != seq!['+'],
        text::signed_decimal(n) != seq!['*'],
        text::signed_decimal(n) != seq!['>', '='],
        text::signed_decimal(n) != seq!['='],
{
    numbers_read_back(n);
    let s = text::signed_decimal(n);
    let c = s[0];
    assert(seq!['+'][0] == '+' && seq!['*'][0] == '*' && seq!['>', '='][0] == '>' && seq!['='][0]
        == '=');
}

/// Words behind a space are read after those before it.
proof fn lemma_words_behind(r: WordsView, before: Seq<char>, more: Seq<char>)
    ensures
        read_words(r, cut(before + seq![' '] + more, ' ')) == read_words(
            read_words(r, cut(before, ' ')),
            cut(more, ' '),
        ),
{
    lemma_cut_between(before, more, ' ');
    lemma_words_sum(r, cut(before, ' '), cut(more, ' '));
}

/// A plus sign says nothing by itself.
proof fn lemma_read_plus(r: WordsView, more: Seq<char>)
    requires
        r.at_least is None,
        !r.times,
    ensures
        read_words(r, cut(seq!['+'] + seq![' '] + more, ' ')) == read_words(r, cut(more, ' ')),
{
    lemma_words_behind(r, seq!['+'], more);
    assert(!seq!['+'].contains(' '));
    lemma_cut_whole(seq!['+'], ' ');
    lemma_words_three(r, seq!['+'], seq!['+'], seq!['+']);
}

/// A term behind others, without its operator: its sign is an operator, or stands at
/// the number.
proof fn lemma_next_term(coeff: int, var: Seq<char>)
    requires
        coeff != 0,
    ensures
        ({
            let t = text::signed_decimal(coeff) + " * "@ + linear_invariant::primed(var);
            linear_invariant::term(false, coeff, var) == seq![' '] + (if coeff > 0 {
                seq!['+'] + seq![' '] + t
            } else {
                t
            })
        }),
{
    reveal_strlit(" + ");
    reveal_strlit(" -");
    let t = text::signed_decimal(coeff) + " * "@ + linear_invariant::primed(var);
    let term = linear_invariant::term(false, coeff, var);
    if coeff > 0 {
        assert(" + "@ =~= seq![' ', '+', ' ']);
        assert(term =~= seq![' '] + (seq!['+'] + seq![' '] + t));
    } else {
        assert(" -"@ =~= seq![' ', '-']);
        assert(term =~= seq![' '] + t);
    }
}

proof fn lemma_no_line_end(a: Seq<char>, b: Seq<char>)
    requires
        !a.contains('\n'),
        !b.contains('\n'),
    ensures
        !(a + b).contains('\n'),
{
    let s = a + b;
    assert forall|i: int| 0 <= i < s.len() implies s[i] != '\n' by {
        if i < a.len() {
            assert(s[i] == a[i]);
        } else {
            assert(s[i] == b[i - a.len()]);
        }
    }
}

/// A term behind others is read back.
proof fn lemma_read_next_term(before: Seq<char>, coeff: int, var: Seq<char>)
    requires
        coeff != 0,
        is_readable(var),
        read_words(no_words(), cut(before, ' ')).at_least is None,
        !read_words(no_words(), cut(before, ' ')).times,
    ensures
        ({
            let r = read_words(no_words(), cut(before, ' '));
            let s = before + linear_invariant::term(false, coeff, var);
            &&& read_words(no_words(), cut(s, ' ')) == (WordsView {
                terms: r.terms.push((var, coeff)),
                number: None,
                times: false,
                at_least: None,
            })
            &&& !linear_invariant::term(false, coeff, var).contains('\n')
        }),
{
    let t = text::signed_decimal(coeff) + " * "@ + linear_invariant::primed(var);
    let s = before + linear_invariant::term(false, coeff, var);
    let r = read_words(no_words(), cut(before, ' '));
    lemma_next_term(coeff, var);
    lemma_read_term(r, coeff, var);
    let more = if coeff > 0 {
        seq!['+'] + seq![' '] + t
    } else {
        t
    };
    assert(s =~= before + seq![' '] + more);
    lemma_words_behind(no_words(), before, more);
    assert(!seq![' '].contains('\n'));
    if coeff > 0 {
        lemma_read_plus(r, t);
        assert(!(seq!['+'] + seq![' ']).contains('\n'));
        lemma_no_line_end(seq!['+'] + seq![' '], t);
    }
    lemma_no_line_end(seq![' '], more);
}

/// The terms of the first `n` pairs, read back.
proof fn lemma_read_terms(pairs: Seq<JsonView>, n: int)
    requires
        0 <= n <= pairs.len(),
        linear_invariant::terms(pairs, n) is Ok,
        forall|i: int| 0 <= i < pairs.len() ==> is_readable(term_of(#[trigger] pairs[i]).0),
    ensures
        ({
            let s = linear_invariant::terms(pairs, n)->Ok_0;
            let terms = terms_of(pairs.take(n));
            &&& s.len() == 0 <==> terms.len() == 0
            &&& s.len() > 0 ==> read_words(no_words(), cut(s, ' ')) == (WordsView {
                terms,
                number: None,
                times: false,
                at_least: None,
            })
            &&& !s.contains('\n')
        }),
    decreases n,
{
    reveal(Seq::filter);
    let f = |p: JsonView| term_of(p);
    let keep = |t: (Seq<char>, int)| t.1 != 0;
    if n > 0 {
        lemma_read_terms(pairs, n - 1);
        let before = linear_invariant::terms(pairs, n - 1)->Ok_0;
        let pair = pairs[n - 1].list()->0;
        let var = pair[0].text()->0;
        let coeff = pair[1].signed()->0;
        assert(term_of(pairs[n - 1]) == (var, coeff));
        let mapped = pairs.take(n).map_values(f);
        assert(mapped.drop_last() =~= pairs.take(n - 1).map_values(f));
        assert(mapped.last() == (var, coeff));
        assert(terms_of(pairs.take(n)) == if coeff != 0 {
            terms_of(pairs.take(n - 1)).push((var, coeff))
        } else {
            terms_of(pairs.take(n - 1))
        });
        if coeff != 0 {
            assert(is_readable(term_of(pairs[n - 1]).0));
            let s = linear_invariant::terms(pairs, n)->Ok_0;
            let term = linear_invariant::term(before.len() == 0, coeff, var);
            if before.len() == 0 {
                assert(s =~= text::signed_decimal(coeff) + " * "@ + linear_invariant::primed(var));
                lemma_read_term(no_words(), coeff, var);
                assert(terms_of(pairs.take(n - 1)) =~= Seq::empty());
            } else {
                lemma_read_next_term(before, coeff, var);
                assert forall|i: int| 0 <= i < s.len() implies s[i] != '\n' by {
                    if i < before.len() {
                        assert(s[i] == before[i]);
                    } else {
                        assert(s[i] == term[i - before.len()]);
                    }
                }
                assert(s[0] == before[0]);
            }
        }
    } else {
        assert(pairs.take(n).map_values(f) =~= Seq::empty());
        assert(terms_of(pairs.take(n)) =~= Seq::empty());
    }
}

/// The terms and the constant behind them are read back.
proof fn lemma_read_constant(sum: Seq<char>, constant: int, terms: Seq<(Seq<char>, int)>)
    requires
        sum.len() == 0 ==> terms.len() == 0,
        sum.len() > 0 ==> read_words(no_words(), cut(sum, ' ')) == (WordsView {
            terms,
            number: None,
            times: false,
            at_least: None,
        }),
    ensures
        read_words(no_words(), cut(linear_invariant::with_constant(sum, constant), ' ')) == (
        WordsView {
            terms,
            number: if constant == 0 && sum.len() > 0 {
                None
            } else {
                Some(constant)
            },
            times: false,
            at_least: None,
        }),
{
    reveal_strlit(" + ");
    reveal_strlit(" -");
    reveal_strlit("0");
    let body = linear_invariant::with_constant(sum, constant);
    let num = text::signed_decimal(constant);
    numbers_read_back(constant);
    lemma_number_word(constant);
    lemma_cut_whole(num, ' ');
    let q = read_words(no_words(), cut(sum, ' '));
    if sum.len() == 0 {
        assert(terms =~= Seq::empty());
        if constant == 0 {
            assert(text::decimal(0) =~= seq!['0']);
            assert("0"@ =~= seq!['0']);
            assert(body == num);
        }
        lemma_words_three(no_words(), num, num, num);
    } else if constant > 0 {
        assert(" + "@ =~= seq![' ', '+', ' ']);
        assert(body =~= sum + seq![' '] + (seq!['+'] + seq![' '] + num));
        lemma_words_behind(no_words(), sum, seq!['+'] + seq![' '] + num);
        lemma_read_plus(q, num);
        lemma_words_three(q, num, num, num);
    } else if constant < 0 {
        assert(" -"@ =~= seq![' ', '-']);
        assert(body =~= sum + seq![' '] + num);
        lemma_words_behind(no_words(), sum, num);
        lemma_words_three(q, num, num, num);
    }
}

/// The terms and the constant stand on one line, and begin with a number.
proof fn lemma_constant_line(sum: Seq<char>, constant: int)
    requires
        !sum.contains('\n'),
        sum.len() > 0 ==> sum[0] == '-' || ('0' <= sum[0] && sum[0] <= '9'),
    ensures
        ({
            let body = linear_invariant::with_constant(sum, constant);
            &&& !body.contains('\n')
            &&& body.len() > 0
            &&& body[0] == '-' || ('0' <= body[0] && body[0] <= '9')
        }),
{
    reveal_strlit(" + ");
    reveal_strlit(" -");
    reveal_strlit("0");
    let body = linear_invariant::with_constant(sum, constant);
    let num = text::signed_decimal(constant);
    numbers_read_back(constant);
    lemma_number_word(constant);
    if sum.len() > 0 && constant > 0 {
        assert(!" + "@.contains('\n'));
        lemma_no_line_end(" + "@, num);
        lemma_no_line_end(sum, " + "@ + num);
        assert(body[0] == sum[0]);
    } else if sum.len() > 0 && constant < 0 {
        let more = " -"@ + text::decimal((-constant) as nat);
        assert(more =~= seq![' '] + num);
        assert(!seq![' '].contains('\n'));
        lemma_no_line_end(seq![' '], num);
        lemma_no_line_end(sum, more);
        assert(body[0] == sum[0]);
    } else if sum.len() == 0 && constant == 0 {
        assert("0"@ =~= seq!['0']);
    }
}

/// The comparison at the end is read back.
#[verifier::rlimit(40)]
proof fn lemma_read_comparison(body: Seq<char>, at_least: bool)
    requires
        read_words(no_words(), cut(body, ' ')).at_least is None,
        !read_words(no_words(), cut(body, ' ')).times,
    ensures
        ({
            let s = body + (if at_least {
                " >= 0"@
            } else {
                " = 0"@
            });
            read_words(no_words(), cut(s, ' ')) == (WordsView {
                at_least: Some(at_least),
                ..read_words(no_words(), cut(body, ' '))
            })
        }),
{
    reveal_strlit(" >= 0");
    reveal_strlit(" = 0");
    let s = body + (if at_least {
        " >= 0"@
    } else {
        " = 0"@
    });
    let r = read_words(no_words(), cut(body, ' '));
    let op = if at_least {
        seq!['>', '=']
    } else {
        seq!['=']
    };
    let tail = op + seq![' '] + seq!['0'];
    assert(" >= 0"@ =~= seq![' ', '>', '=', ' ', '0']);
    assert(" = 0"@ =~= seq![' ', '=', ' ', '0']);
    assert(s =~= body + seq![' '] + tail);
    lemma_words_behind(no_words(), body, tail);
    lemma_words_behind(r, op, seq!['0']);
    assert(!op.contains(' '));
    assert(!seq!['0'].contains(' '));
    lemma_cut_whole(op, ' ');
    lemma_cut_whole(seq!['0'], ' ');
    lemma_words_three(r, op, op, op);
    lemma_words_three(read_word(r, op), seq!['0'], op, op);
    assert(op != seq!['+'] && op != seq!['*']) by {
        assert(op[0] != '+' && op[0] != '*');
        assert(seq!['+'][0] == '+' && seq!['*'][0] == '*');
    }
    if !at_least {
        assert(op.len() == 1 && seq!['>', '='].len() == 2);
    }
}

/// A constraint that was written down is read back as the constraint that was given:
/// the same variables with the same coefficients, but for those with 0, the same
/// constant, and the same comparison.
#[verifier::rlimit(40)]
pub proof fn constraint_reads_back(c: JsonView)
    requires
        linear_invariant::constraint_text(c) is Ok,
        readable_constraint(c),
    ensures
        read_constraint(linear_invariant::constraint_text(c)->Ok_0) == Some(constraint_of(c)),
        !linear_invariant::constraint_text(c)->Ok_0.contains('\n'),
        ({
            let s = linear_invariant::constraint_text(c)->Ok_0;
            s.len() > 0 && (s[0] == '-' || ('0' <= s[0] && s[0] <= '9'))
        }),
{
    reveal_strlit(" >= 0");
    reveal_strlit(" = 0");
    reveal_strlit("geq");
    reveal_strlit("eq");
    assert("geq"@.len() == 3 && "eq"@.len() == 2);
    let pairs = c.at("coeffs"@).list()->0;
    let constant = c.at("constant"@).signed()->0;
    let kind = c.text_field("kind"@)->0;
    let at_least = kind == "geq"@;
    let sum = linear_invariant::terms(pairs, pairs.len() as int)->Ok_0;
    let body = linear_invariant::with_constant(sum, constant);
    let s = linear_invariant::constraint_text(c)->Ok_0;
    lemma_read_terms(pairs, pairs.len() as int);
    assert(pairs.take(pairs.len() as int) =~= pairs);
    lemma_first_char(pairs, pairs.len() as int);
    lemma_read_constant(sum, constant, terms_of(pairs));
    lemma_constant_line(sum, constant);
    lemma_read_comparison(body, at_least);
    let op = if at_least {
        " >= 0"@
    } else {
        " = 0"@
    };
    assert(s == body + op);
    assert(!op.contains('\n'));
    lemma_no_line_end(body, op);
    assert(s[0] == body[0]);
}

/// A constraint is written down exactly where it is well formed: its coefficients are
/// pairs of a variable and a whole number, its constant is a whole number, and its
/// kind is one of the two.
pub proof fn well_formed_constraints_are_written(c: JsonView)
    ensures
        linear_invariant::constraint_text(c) is Ok <==> {
            &&& c.at("coeffs"@) matches JsonView::List(pairs)
            &&& forall|i: int| 0 <= i < pairs.len() ==> #[trigger] is_pair(pairs[i])
            &&& c.at("constant"@).signed() is Some
            &&& c.at("kind"@) == JsonView::Text("geq"@) || c.at("kind"@) == JsonView::Text("eq"@)
        },
{
    match c.at("coeffs"@) {
        JsonView::List(pairs) => {
            lemma_terms_written(pairs, pairs.len() as int);
        },
        _ => {},
    }
}

/// The value is a pair of a text and a whole number.
pub open spec fn is_pair(v: JsonView) -> bool {
    match v {
        JsonView::List(p) => p.len() == 2 && p[0] is Text && p[1].signed() is Some,
        _ => false,
    }
}

proof fn lemma_terms_written(pairs: Seq<JsonView>, n: int)
    requires
        0 <= n <= pairs.len(),
    ensures
        linear_invariant::terms(pairs, n) is Ok <==> forall|i: int|
            0 <= i < n ==> #[trigger] is_pair(pairs[i]),
    decreases n,
{
    if n > 0 {
        lemma_terms_written(pairs, n - 1);
        if forall|i: int| 0 <= i < n ==> #[trigger] is_pair(pairs[i]) {
            assert(is_pair(pairs[n - 1]));
        }
        if linear_invariant::terms(pairs, n) is Ok {
            assert(is_pair(pairs[n - 1]));
        }
    }
}

/// The terms begin with a number.
proof fn lemma_first_char(pairs: Seq<JsonView>, n: int)
    requires
        0 <= n <= pairs.len(),
        linear_invariant::terms(pairs, n) is Ok,
    ensures
        ({
            let s = linear_invariant::terms(pairs, n)->Ok_0;
            s.len() > 0 ==> s[0] == '-' || ('0' <= s[0] && s[0] <= '9')
        }),
    decreases n,
{
    if n > 0 {
        lemma_first_char(pairs, n - 1);
        let before = linear_invariant::terms(pairs, n - 1)->Ok_0;
        let pair = pairs[n - 1].list()->0;
        let var = pair[0].text()->0;
        let coeff = pair[1].signed()->0;
        numbers_read_back(coeff);
        let s = linear_invariant::terms(pairs, n)->Ok_0;
        if coeff != 0 && before.len() == 0 {
            assert(s[0] == text::signed_decimal(coeff)[0]);
        } else if coeff != 0 {
            assert(s[0] == before[0]);
        }
    }
}

// ── Systems ─────────────────────────────────────────────────────────────

/// A location with its initial constraints.
pub struct LocationView {
    pub name: Seq<char>,
    pub constraints: Seq<ConstraintView>,
}

/// A transition from one location to another, with its guard and its update, and
/// the variables that it leaves alone.
pub struct TransitionView {
    pub name: Seq<char>,
    pub src: Seq<char>,
    pub dst: Seq<char>,
    pub constraints: Seq<ConstraintView>,
    pub preserved: Seq<Seq<char>>,
}

/// A transition system.
pub struct SystemView {
    pub variables: Seq<Seq<char>>,
    pub locations: Seq<LocationView>,
    pub transitions: Seq<TransitionView>,
    /// The last line was read.
    pub ended: bool,
}

/// The system with constraints added to what was opened last: a transition, or a
/// location as long as there is no transition.
pub open spec fn with_constraints(sys: SystemView, more: Seq<ConstraintView>) -> SystemView {
    if sys.transitions.len() > 0 {
        let t = sys.transitions.last();
        SystemView {
            transitions: sys.transitions.drop_last().push(
                TransitionView { constraints: t.constraints + more, ..t },
            ),
            ..sys
        }
    } else {
        let l = sys.locations.last();
        SystemView {
            locations: sys.locations.drop_last().push(
                LocationView { constraints: l.constraints + more, ..l },
            ),
            ..sys
        }
    }
}

/// The transition that a line opens, from what stands behind the word: a name, a
/// colon, where it starts, a comma, and where it leads.
pub open spec fn read_transition(s: Seq<char>) -> TransitionView {
    let name = cut(s, ':')[0];
    let ends = s.skip(name.len() as int + 2);
    let src = cut(ends, ',')[0];
    TransitionView {
        name,
        src,
        dst: ends.skip(src.len() as int + 2),
        constraints: Seq::empty(),
        preserved: Seq::empty(),
    }
}

/// One line more.
pub open spec fn read_line(sys: SystemView, line: Seq<char>) -> SystemView {
    if line == "End"@ {
        SystemView { ended: true, ..sys }
    } else if text::begins_with(line, "Variable ["@) {
        SystemView { variables: read_names(line.subrange(10, line.len() - 1)), ..sys }
    } else if text::begins_with(line, "Location "@) {
        SystemView {
            locations: sys.locations.push(
                LocationView {
                    name: line.subrange(9, line.len() - 1),
                    constraints: Seq::empty(),
                },
            ),
            ..sys
        }
    } else if text::begins_with(line, "Transition "@) {
        SystemView { transitions: sys.transitions.push(read_transition(line.skip(11))), ..sys }
    } else if text::begins_with(line, "  preserve["@) {
        let t = sys.transitions.last();
        SystemView {
            transitions: sys.transitions.drop_last().push(
                TransitionView {
                    preserved: read_names(line.subrange(11, line.len() - 1)),
                    ..t
                },
            ),
            ..sys
        }
    } else {
        match read_constraint(line.skip(2)) {
            Some(c) => with_constraints(sys, seq![c]),
            None => sys,
        }
    }
}

/// All lines, from what was read before them.
pub open spec fn read_lines(sys: SystemView, lines: Seq<Seq<char>>) -> SystemView
    decreases lines.len(),
{
    if lines.len() == 0 {
        sys
    } else {
        read_line(read_lines(sys, lines.drop_last()), lines.last())
    }
}

/// The system that a text spells.
pub open spec fn read_system(s: Seq<char>) -> SystemView {
    read_lines(
        SystemView {
            variables: Seq::empty(),
            locations: Seq::empty(),
            transitions: Seq::empty(),
            ended: false,
        },
        cut(s, '\n'),
    )
}

/// The items of a list, and none of anything else.
pub open spec fn items_of(v: JsonView) -> Seq<JsonView> {
    match v {
        JsonView::List(l) => l,
        _ => Seq::empty(),
    }
}

/// The text, or the empty text.
pub open spec fn text_of(v: JsonView) -> Seq<char> {
    match v {
        JsonView::Text(s) => s,
        _ => Seq::empty(),
    }
}

/// The constraints that a list describes.
pub open spec fn constraints_of(v: JsonView) -> Seq<ConstraintView> {
    items_of(v).map_values(|c: JsonView| constraint_of(c))
}

/// The texts among the items of a list.
pub open spec fn names_of(v: JsonView) -> Seq<Seq<char>> {
    items_of(v).filter(|t: JsonView| t is Text).map_values(|t: JsonView| text_of(t))
}

/// The location that an object describes.
pub open spec fn location_of(v: JsonView) -> LocationView {
    LocationView {
        name: text_of(v.at("name"@)),
        constraints: constraints_of(v.at("init_constraints"@)),
    }
}

/// The transition that an object describes.
pub open spec fn transition_of(v: JsonView) -> TransitionView {
    TransitionView {
        name: text_of(v.at("name"@)),
        src: text_of(v.at("src"@)),
        dst: text_of(v.at("dst"@)),
        constraints: constraints_of(v.at("guard"@)) + constraints_of(v.at("update"@)),
        preserved: names_of(v.at("preserved"@)),
    }
}

/// The transition system that an object describes.
pub open spec fn system_of(v: JsonView) -> SystemView {
    SystemView {
        variables: names_of(v.at("variables"@)),
        locations: items_of(v.at("locations"@)).map_values(|l: JsonView| location_of(l)),
        transitions: items_of(v.at("transitions"@)).map_values(|t: JsonView| transition_of(t)),
        ended: true,
    }
}

/// Names that can be read back: no comma and no line end in them, and not one empty
/// name alone.
pub open spec fn readable_names(names: Seq<Seq<char>>) -> bool {
    &&& forall|i: int|
        0 <= i < names.len() ==> !(#[trigger] names[i]).contains(',') && !names[i].contains('\n')
    &&& names.len() == 1 ==> names[0].len() > 0
}

/// All constraints of a list can be read back.
pub open spec fn readable_constraints(v: JsonView) -> bool {
    forall|i: int| 0 <= i < items_of(v).len() ==> readable_constraint(#[trigger] items_of(v)[i])
}

/// The location can be read back.
pub open spec fn readable_location(v: JsonView) -> bool {
    !text_of(v.at("name"@)).contains('\n') && readable_constraints(v.at("init_constraints"@))
}

/// The transition can be read back: its name holds no colon, and its start no comma.
pub open spec fn readable_transition(v: JsonView) -> bool {
    &&& !text_of(v.at("name"@)).contains(':')
    &&& !text_of(v.at("name"@)).contains('\n')
    &&& !text_of(v.at("src"@)).contains(',')
    &&& !text_of(v.at("src"@)).contains('\n')
    &&& !text_of(v.at("dst"@)).contains('\n')
    &&& readable_constraints(v.at("guard"@))
    &&& readable_constraints(v.at("update"@))
    &&& readable_names(names_of(v.at("preserved"@)))
}

/// The system can be read back.
pub open spec fn readable_system(v: JsonView) -> bool {
    &&& readable_names(names_of(v.at("variables"@)))
    &&& forall|i: int|
        0 <= i < items_of(v.at("locations"@)).len() ==> readable_location(
            #[trigger] items_of(v.at("locations"@))[i],
        )
    &&& forall|i: int|
        0 <= i < items_of(v.at("transitions"@)).len() ==> readable_transition(
            #[trigger] items_of(v.at("transitions"@))[i],
        )
}

/// No line holds a line end.
spec fn are_lines(lines: Seq<Seq<char>>) -> bool {
    forall|i: int| 0 <= i < lines.len() ==> !(#[trigger] lines[i]).contains('\n')
}

proof fn lemma_are_lines(a: Seq<Seq<char>>, b: Seq<Seq<char>>)
    requires
        are_lines(a),
        are_lines(b),
    ensures
        are_lines(a + b),
{
    assert forall|i: int| 0 <= i < (a + b).len() implies !(#[trigger] (a + b)[i]).contains(
        '\n',
    ) by {
        if i < a.len() {
            assert((a + b)[i] == a[i]);
        } else {
            assert((a + b)[i] == b[i - a.len()]);
        }
    }
}

proof fn lemma_lines_sum(sys: SystemView, a: Seq<Seq<char>>, b: Seq<Seq<char>>)
    ensures
        read_lines(sys, a + b) == read_lines(read_lines(sys, a), b),
    decreases b.len(),
{
    if b.len() == 0 {
        assert(a + b =~= a);
    } else {
        assert((a + b).drop_last() =~= a + b.drop_last());
        lemma_lines_sum(sys, a, b.drop_last());
    }
}

proof fn lemma_one_line(sys: SystemView, line: Seq<char>)
    ensures
        read_lines(sys, seq![line]) == read_line(sys, line),
        !line.contains('\n') ==> are_lines(seq![line]),
{
    reveal_with_fuel(read_lines, 2);
    assert(seq![line].drop_last() =~= Seq::<Seq<char>>::empty());
}

/// The first character of a line tells the kinds of lines apart.
proof fn lemma_not_begun(line: Seq<char>, word: Seq<char>)
    requires
        word.len() > 0,
        line.len() > 0,
        line[0] != word[0],
    ensures
        !text::begins_with(line, word),
        line != word,
{
    if text::begins_with(line, word) {
        assert(line.subrange(0, word.len() as int)[0] == line[0]);
    }
}

proof fn lemma_begun(word: Seq<char>, rest: Seq<char>)
    ensures
        text::begins_with(word + rest, word),
{
    assert((word + rest).subrange(0, word.len() as int) =~= word);
}

/// The line of a constraint is read as the constraint.
proof fn lemma_read_constraint_line(sys: SystemView, c: JsonView)
    requires
        linear_invariant::constraint_text(c) is Ok,
        readable_constraint(c),
    ensures
        ({
            let line = "  "@ + linear_invariant::constraint_text(c)->Ok_0;
            &&& read_line(sys, line) == with_constraints(sys, seq![constraint_of(c)])
            &&& !line.contains('\n')
        }),
{
    reveal_strlit("  ");
    reveal_strlit("End");
    reveal_strlit("Variable [");
    reveal_strlit("Location ");
    reveal_strlit("Transition ");
    reveal_strlit("  preserve[");
    let t = linear_invariant::constraint_text(c)->Ok_0;
    let line = "  "@ + t;
    constraint_reads_back(c);
    assert(line[0] == ' ');
    lemma_not_begun(line, "End"@);
    lemma_not_begun(line, "Variable ["@);
    lemma_not_begun(line, "Location "@);
    lemma_not_begun(line, "Transition "@);
    if text::begins_with(line, "  preserve["@) {
        assert(line.subrange(0, 11)[2] == line[2]);
        assert("  preserve["@[2] == 'p');
        assert(line[2] == t[0]);
    }
    assert(line.skip(2) =~= t);
    assert(!"  "@.contains('\n'));
    lemma_no_line_end("  "@, t);
}

/// Constraints added one after the other are added together.
proof fn lemma_with_constraints(
    sys: SystemView,
    a: Seq<ConstraintView>,
    b: Seq<ConstraintView>,
)
    requires
        sys.transitions.len() > 0 || sys.locations.len() > 0,
    ensures
        with_constraints(with_constraints(sys, a), b) == with_constraints(sys, a + b),
        with_constraints(sys, Seq::empty()) == sys,
{
    if sys.transitions.len() > 0 {
        let t = sys.transitions.last();
        assert(t.constraints + (a + b) =~= (t.constraints + a) + b);
        assert(t.constraints + Seq::<ConstraintView>::empty() =~= t.constraints);
        assert(with_constraints(with_constraints(sys, a), b).transitions =~= with_constraints(
            sys,
            a + b,
        ).transitions);
        assert(with_constraints(sys, Seq::empty()).transitions =~= sys.transitions);
    } else {
        let l = sys.locations.last();
        assert(l.constraints + (a + b) =~= (l.constraints + a) + b);
        assert(l.constraints + Seq::<ConstraintView>::empty() =~= l.constraints);
        assert(with_constraints(with_constraints(sys, a), b).locations =~= with_constraints(
            sys,
            a + b,
        ).locations);
        assert(with_constraints(sys, Seq::empty()).locations =~= sys.locations);
    }
}

proof fn lemma_read_constraints(sys: SystemView, list: Seq<JsonView>, n: int)
    requires
        sys.transitions.len() > 0 || sys.locations.len() > 0,
        0 <= n <= list.len(),
        linear_invariant::constraint_lines(list, n) is Ok,
        forall|i: int| 0 <= i < list.len() ==> readable_constraint(#[trigger] list[i]),
    ensures
        ({
            let lines = linear_invariant::constraint_lines(list, n)->Ok_0;
            &&& read_lines(sys, lines) == with_constraints(
                sys,
                list.take(n).map_values(|c: JsonView| constraint_of(c)),
            )
            &&& are_lines(lines)
        }),
    decreases n,
{
    let f = |c: JsonView| constraint_of(c);
    if n > 0 {
        lemma_read_constraints(sys, list, n - 1);
        let before = linear_invariant::constraint_lines(list, n - 1)->Ok_0;
        let c = list[n - 1];
        let line = "  "@ + linear_invariant::constraint_text(c)->Ok_0;
        let lines = linear_invariant::constraint_lines(list, n)->Ok_0;
        assert(lines == before + seq![line]);
        let mid = read_lines(sys, before);
        lemma_lines_sum(sys, before, seq![line]);
        lemma_one_line(mid, line);
        lemma_read_constraint_line(mid, c);
        lemma_are_lines(before, seq![line]);
        let done = list.take(n - 1).map_values(f);
        lemma_with_constraints(sys, done, seq![constraint_of(c)]);
        assert(list.take(n).map_values(f) =~= done + seq![constraint_of(c)]);
    } else {
        lemma_with_constraints(sys, Seq::empty(), Seq::empty());
        assert(list.take(n).map_values(f) =~= Seq::empty());
    }
}

proof fn lemma_read_constraints_under(sys: SystemView, v: JsonView, key: Seq<char>)
    requires
        sys.transitions.len() > 0 || sys.locations.len() > 0,
        linear_invariant::constraints_under(v, key) is Ok,
        readable_constraints(v.at(key)),
    ensures
        read_lines(sys, linear_invariant::constraints_under(v, key)->Ok_0) == with_constraints(
            sys,
            constraints_of(v.at(key)),
        ),
        are_lines(linear_invariant::constraints_under(v, key)->Ok_0),
{
    match v.at(key) {
        JsonView::List(l) => {
            assert forall|i: int| 0 <= i < l.len() implies readable_constraint(#[trigger] l[i]) by {
                assert(items_of(v.at(key))[i] == l[i]);
            }
            lemma_read_constraints(sys, l, l.len() as int);
            assert(l.take(l.len() as int) =~= l);
        },
        _ => {
            assert(constraints_of(v.at(key)) =~= Seq::empty());
            lemma_with_constraints(sys, Seq::empty(), Seq::empty());
        },
    }
}

#[verifier::rlimit(40)]
proof fn lemma_read_location(sys: SystemView, v: JsonView)
    requires
        sys.transitions.len() == 0,
        linear_invariant::location_lines(v) is Ok,
        readable_location(v),
    ensures
        read_lines(sys, linear_invariant::location_lines(v)->Ok_0) == (SystemView {
            locations: sys.locations.push(location_of(v)),
            ..sys
        }),
        are_lines(linear_invariant::location_lines(v)->Ok_0),
{
    reveal_strlit("End");
    reveal_strlit("Variable [");
    reveal_strlit("Location ");
    reveal_strlit(":");
    let name = v.text_field("name"@)->0;
    assert(name == text_of(v.at("name"@)));
    let line = "Location "@ + name + ":"@;
    let more = linear_invariant::constraints_under(v, "init_constraints"@)->Ok_0;
    let lines = linear_invariant::location_lines(v)->Ok_0;
    assert(lines == seq![line] + more);
    assert(line =~= "Location "@ + (name + ":"@));
    assert(line[0] == 'L');
    lemma_begun("Location "@, name + ":"@);
    lemma_not_begun(line, "End"@);
    lemma_not_begun(line, "Variable ["@);
    assert(line.subrange(9, line.len() - 1) =~= name);
    let mid = SystemView {
        locations: sys.locations.push(LocationView { name, constraints: Seq::empty() }),
        ..sys
    };
    assert(read_line(sys, line) == mid);
    assert(!":"@.contains('\n') && !"Location "@.contains('\n'));
    lemma_no_line_end("Location "@, name);
    lemma_no_line_end("Location "@ + name, ":"@);
    lemma_lines_sum(sys, seq![line], more);
    lemma_one_line(sys, line);
    lemma_read_constraints_under(mid, v, "init_constraints"@);
    lemma_are_lines(seq![line], more);
    let constraints = constraints_of(v.at("init_constraints"@));
    assert(Seq::<ConstraintView>::empty() + constraints =~= constraints);
    assert(mid.locations.drop_last() =~= sys.locations);
}

/// What opens a transition is read as its name, where it starts, and where it leads.
proof fn lemma_read_transition(name: Seq<char>, src: Seq<char>, dst: Seq<char>)
    requires
        !name.contains(':'),
        !src.contains(','),
    ensures
        read_transition(name + ": "@ + src + ", "@ + dst) == (TransitionView {
            name,
            src,
            dst,
            constraints: Seq::empty(),
            preserved: Seq::empty(),
        }),
{
    reveal_strlit(": ");
    reveal_strlit(", ");
    let s = name + ": "@ + src + ", "@ + dst;
    let ends = src + ", "@ + dst;
    assert(": "@ =~= seq![':', ' ']);
    assert(", "@ =~= seq![',', ' ']);
    assert(s =~= name + seq![':'] + (seq![' '] + ends));
    lemma_cut_between(name, seq![' '] + ends, ':');
    lemma_cut_whole(name, ':');
    assert(cut(s, ':')[0] == name);
    assert(s.skip(name.len() as int + 2) =~= ends);
    assert(ends =~= src + seq![','] + (seq![' '] + dst));
    lemma_cut_between(src, seq![' '] + dst, ',');
    lemma_cut_whole(src, ',');
    assert(cut(ends, ',')[0] == src);
    assert(ends.skip(src.len() as int + 2) =~= dst);
}

/// The texts of a list.
proof fn lemma_texts_in(list: Seq<JsonView>, n: int)
    requires
        0 <= n <= list.len(),
    ensures
        linear_invariant::texts_in(list, n) == names_of(JsonView::List(list.take(n))),
    decreases n,
{
    reveal(Seq::filter);
    let f = |t: JsonView| text_of(t);
    if n > 0 {
        lemma_texts_in(list, n - 1);
        assert(list.take(n).drop_last() =~= list.take(n - 1));
        assert(list.take(n).last() == list[n - 1]);
        let before = list.take(n - 1).filter(|t: JsonView| t is Text);
        assert(before.push(list[n - 1]).map_values(f) =~= before.map_values(f).push(
            text_of(list[n - 1]),
        ));
        assert(linear_invariant::texts_in(list, n) =~= names_of(JsonView::List(list.take(n))));
    } else {
        assert(linear_invariant::texts_in(list, n) =~= names_of(JsonView::List(list.take(n))));
    }
}

proof fn lemma_joined_names_line(names: Seq<Seq<char>>)
    requires
        readable_names(names),
    ensures
        !text::joined(names, ", "@).contains('\n'),
    decreases names.len(),
{
    reveal_strlit(", ");
    if names.len() == 1 {
        assert(!names[0].contains('\n'));
    } else if names.len() > 1 {
        lemma_joined_line(names);
    }
}

proof fn lemma_joined_line(names: Seq<Seq<char>>)
    requires
        names.len() > 0,
        forall|i: int| 0 <= i < names.len() ==> !(#[trigger] names[i]).contains('\n'),
    ensures
        !text::joined(names, ", "@).contains('\n'),
    decreases names.len(),
{
    reveal_strlit(", ");
    if names.len() == 1 {
        assert(!names[0].contains('\n'));
    } else {
        let rest = names.drop_last();
        assert forall|i: int| 0 <= i < rest.len() implies !(#[trigger] rest[i]).contains('\n') by {
            assert(rest[i] == names[i]);
        }
        lemma_joined_line(rest);
        assert(!", "@.contains('\n'));
        assert(!names[names.len() - 1].contains('\n'));
        lemma_no_line_end(text::joined(rest, ", "@), ", "@);
        lemma_no_line_end(text::joined(rest, ", "@) + ", "@, names.last());
    }
}

#[verifier::rlimit(40)]
proof fn lemma_read_preserved(sys: SystemView, v: JsonView)
    requires
        sys.transitions.len() > 0,
        sys.transitions.last().preserved.len() == 0,
        readable_names(names_of(v.at("preserved"@))),
    ensures
        read_lines(sys, linear_invariant::preserve_lines(v)) == (SystemView {
            transitions: sys.transitions.drop_last().push(
                TransitionView {
                    preserved: names_of(v.at("preserved"@)),
                    ..sys.transitions.last()
                },
            ),
            ..sys
        }),
        are_lines(linear_invariant::preserve_lines(v)),
{
    reveal(Seq::filter);
    reveal_strlit("End");
    reveal_strlit("Variable [");
    reveal_strlit("Location ");
    reveal_strlit("Transition ");
    reveal_strlit("  preserve[");
    reveal_strlit("]");
    let names = names_of(v.at("preserved"@));
    match v.at("preserved"@) {
        JsonView::List(l) => {
            lemma_texts_in(l, l.len() as int);
            assert(l.take(l.len() as int) =~= l);
        },
        _ => {
            assert(names =~= Seq::empty());
        },
    }
    if names.len() == 0 {
        assert(names =~= sys.transitions.last().preserved);
        assert(sys.transitions.drop_last().push(sys.transitions.last()) =~= sys.transitions);
    } else {
        let inner = text::joined(names, ", "@);
        let line = "  preserve["@ + inner + "]"@;
        assert(linear_invariant::preserve_lines(v) == seq![line]);
        assert(line =~= "  preserve["@ + (inner + "]"@));
        lemma_begun("  preserve["@, inner + "]"@);
        assert(line[0] == ' ');
        lemma_not_begun(line, "End"@);
        lemma_not_begun(line, "Variable ["@);
        lemma_not_begun(line, "Location "@);
        lemma_not_begun(line, "Transition "@);
        assert(line.subrange(11, line.len() - 1) =~= inner);
        lemma_read_names(names);
        lemma_one_line(sys, line);
        lemma_joined_names_line(names);
        assert(!"]"@.contains('\n') && !"  preserve["@.contains('\n'));
        lemma_no_line_end("  preserve["@, inner);
        lemma_no_line_end("  preserve["@ + inner, "]"@);
    }
}

#[verifier::rlimit(40)]
proof fn lemma_read_whole_transition(sys: SystemView, v: JsonView)
    requires
        linear_invariant::transition_lines(v) is Ok,
        readable_transition(v),
    ensures
        read_lines(sys, linear_invariant::transition_lines(v)->Ok_0) == (SystemView {
            transitions: sys.transitions.push(transition_of(v)),
            ..sys
        }),
        are_lines(linear_invariant::transition_lines(v)->Ok_0),
{
    reveal_strlit("End");
    reveal_strlit("Variable [");
    reveal_strlit("Location ");
    reveal_strlit("Transition ");
    reveal_strlit(": ");
    reveal_strlit(", ");
    let name = v.text_field("name"@)->0;
    let src = v.text_field("src"@)->0;
    let dst = v.text_field("dst"@)->0;
    assert(name == text_of(v.at("name"@)) && src == text_of(v.at("src"@)) && dst == text_of(
        v.at("dst"@),
    ));
    let head = name + ": "@ + src + ", "@ + dst;
    let line = "Transition "@ + name + ": "@ + src + ", "@ + dst;
    assert(line =~= "Transition "@ + head);
    lemma_begun("Transition "@, head);
    assert(line[0] == 'T');
    lemma_not_begun(line, "End"@);
    lemma_not_begun(line, "Variable ["@);
    lemma_not_begun(line, "Location "@);
    assert(line.skip(11) =~= head);
    lemma_read_transition(name, src, dst);
    let opened = TransitionView {
        name,
        src,
        dst,
        constraints: Seq::empty(),
        preserved: Seq::empty(),
    };
    let first = SystemView { transitions: sys.transitions.push(opened), ..sys };
    assert(read_line(sys, line) == first);
    assert(!"Transition "@.contains('\n') && !": "@.contains('\n') && !", "@.contains('\n'));
    lemma_no_line_end("Transition "@, name);
    lemma_no_line_end("Transition "@ + name, ": "@);
    lemma_no_line_end("Transition "@ + name + ": "@, src);
    lemma_no_line_end("Transition "@ + name + ": "@ + src, ", "@);
    lemma_no_line_end("Transition "@ + name + ": "@ + src + ", "@, dst);
    lemma_one_line(sys, line);

    let guard = linear_invariant::constraints_under(v, "guard"@)->Ok_0;
    let update = linear_invariant::constraints_under(v, "update"@)->Ok_0;
    let preserve = linear_invariant::preserve_lines(v);
    let guards = constraints_of(v.at("guard"@));
    let updates = constraints_of(v.at("update"@));
    let lines = linear_invariant::transition_lines(v)->Ok_0;
    assert(lines == seq![line] + guard + update + preserve);
    lemma_read_constraints_under(first, v, "guard"@);
    let second = with_constraints(first, guards);
    lemma_read_constraints_under(second, v, "update"@);
    let third = with_constraints(second, updates);
    lemma_with_constraints(first, guards, updates);
    assert(third == with_constraints(first, guards + updates));
    assert(Seq::<ConstraintView>::empty() + (guards + updates) =~= guards + updates);
    lemma_read_preserved(third, v);
    lemma_lines_sum(sys, seq![line], guard);
    lemma_lines_sum(sys, seq![line] + guard, update);
    lemma_lines_sum(sys, seq![line] + guard + update, preserve);
    lemma_are_lines(seq![line], guard);
    lemma_are_lines(seq![line] + guard, update);
    lemma_are_lines(seq![line] + guard + update, preserve);
    assert(first.transitions.drop_last() =~= sys.transitions);
    assert(third.transitions.drop_last() =~= sys.transitions);
}

proof fn lemma_read_locations(sys: SystemView, list: Seq<JsonView>, n: int)
    requires
        sys.transitions.len() == 0,
        0 <= n <= list.len(),
        linear_invariant::all_locations(list, n) is Ok,
        forall|i: int| 0 <= i < list.len() ==> readable_location(#[trigger] list[i]),
    ensures
        read_lines(sys, linear_invariant::all_locations(list, n)->Ok_0) == (SystemView {
            locations: sys.locations + list.take(n).map_values(|l: JsonView| location_of(l)),
            ..sys
        }),
        are_lines(linear_invariant::all_locations(list, n)->Ok_0),
    decreases n,
{
    let f = |l: JsonView| location_of(l);
    if n > 0 {
        lemma_read_locations(sys, list, n - 1);
        let before = linear_invariant::all_locations(list, n - 1)->Ok_0;
        let more = linear_invariant::location_lines(list[n - 1])->Ok_0;
        let mid = read_lines(sys, before);
        lemma_lines_sum(sys, before, more);
        lemma_read_location(mid, list[n - 1]);
        lemma_are_lines(before, more);
        assert(sys.locations + list.take(n).map_values(f) =~= (sys.locations + list.take(
            n - 1,
        ).map_values(f)).push(location_of(list[n - 1])));
    } else {
        assert(sys.locations + list.take(n).map_values(f) =~= sys.locations);
    }
}

proof fn lemma_read_transitions(sys: SystemView, list: Seq<JsonView>, n: int)
    requires
        0 <= n <= list.len(),
        linear_invariant::all_transitions(list, n) is Ok,
        forall|i: int| 0 <= i < list.len() ==> readable_transition(#[trigger] list[i]),
    ensures
        read_lines(sys, linear_invariant::all_transitions(list, n)->Ok_0) == (SystemView {
            transitions: sys.transitions + list.take(n).map_values(
                |t: JsonView| transition_of(t),
            ),
            ..sys
        }),
        are_lines(linear_invariant::all_transitions(list, n)->Ok_0),
    decreases n,
{
    let f = |t: JsonView| transition_of(t);
    if n > 0 {
        lemma_read_transitions(sys, list, n - 1);
        let before = linear_invariant::all_transitions(list, n - 1)->Ok_0;
        let more = linear_invariant::transition_lines(list[n - 1])->Ok_0;
        let mid = read_lines(sys, before);
        lemma_lines_sum(sys, before, more);
        lemma_read_whole_transition(mid, list[n - 1]);
        lemma_are_lines(before, more);
        assert(sys.transitions + list.take(n).map_values(f) =~= (sys.transitions + list.take(
            n - 1,
        ).map_values(f)).push(transition_of(list[n - 1])));
    } else {
        assert(sys.transitions + list.take(n).map_values(f) =~= sys.transitions);
    }
}

#[verifier::rlimit(40)]
proof fn lemma_read_variables(sys: SystemView, v: JsonView)
    requires
        linear_invariant::variable_lines(v) is Ok,
        readable_names(names_of(v.at("variables"@))),
    ensures
        read_lines(sys, linear_invariant::variable_lines(v)->Ok_0) == (SystemView {
            variables: names_of(v.at("variables"@)),
            ..sys
        }),
        are_lines(linear_invariant::variable_lines(v)->Ok_0),
        linear_invariant::variable_lines(v)->Ok_0.len() == 1,
{
    reveal_strlit("End");
    reveal_strlit("Variable [");
    reveal_strlit("]");
    let l = v.at("variables"@).list()->0;
    lemma_texts_in(l, l.len() as int);
    assert(l.take(l.len() as int) =~= l);
    let names = names_of(v.at("variables"@));
    let inner = text::joined(names, ", "@);
    let line = "Variable ["@ + inner + "]"@;
    assert(linear_invariant::variable_lines(v)->Ok_0 == seq![line]);
    assert(line =~= "Variable ["@ + (inner + "]"@));
    lemma_begun("Variable ["@, inner + "]"@);
    assert(line[0] == 'V');
    lemma_not_begun(line, "End"@);
    assert(line.subrange(10, line.len() - 1) =~= inner);
    lemma_read_names(names);
    lemma_one_line(sys, line);
    lemma_joined_names_line(names);
    assert(!"]"@.contains('\n') && !"Variable ["@.contains('\n'));
    lemma_no_line_end("Variable ["@, inner);
    lemma_no_line_end("Variable ["@ + inner, "]"@);
}

/// A transition system that was written down is read back as the one that was given:
/// the same variables, the same locations with their constraints, and the same
/// transitions, each with its name, from where it starts to where it leads, its
/// guard and update, and the variables that it leaves alone.
#[verifier::rlimit(40)]
pub proof fn system_reads_back(input: JsonView)
    requires
        linear_invariant::system_lines(input) is Ok,
        readable_system(input),
    ensures
        read_system(text::joined(linear_invariant::system_lines(input)->Ok_0, "\n"@)) == system_of(
            input,
        ),
{
    reveal_strlit("\n");
    reveal_strlit("End");
    let lines = linear_invariant::system_lines(input)->Ok_0;
    let vars = linear_invariant::variable_lines(input)->Ok_0;
    let locs = input.at("locations"@).list()->0;
    let trs = input.at("transitions"@).list()->0;
    let a = linear_invariant::all_locations(locs, locs.len() as int)->Ok_0;
    let b = linear_invariant::all_transitions(trs, trs.len() as int)->Ok_0;
    assert(lines == vars + a + b + seq!["End"@]);
    let blank = SystemView {
        variables: Seq::empty(),
        locations: Seq::empty(),
        transitions: Seq::empty(),
        ended: false,
    };
    lemma_read_variables(blank, input);
    let first = read_lines(blank, vars);
    assert forall|i: int| 0 <= i < locs.len() implies readable_location(#[trigger] locs[i]) by {
        assert(items_of(input.at("locations"@))[i] == locs[i]);
    }
    assert forall|i: int| 0 <= i < trs.len() implies readable_transition(#[trigger] trs[i]) by {
        assert(items_of(input.at("transitions"@))[i] == trs[i]);
    }
    lemma_read_locations(first, locs, locs.len() as int);
    let second = read_lines(first, a);
    lemma_read_transitions(second, trs, trs.len() as int);
    let third = read_lines(second, b);
    lemma_one_line(third, "End"@);
    assert(!"End"@.contains('\n'));
    lemma_lines_sum(blank, vars, a);
    lemma_lines_sum(blank, vars + a, b);
    lemma_lines_sum(blank, vars + a + b, seq!["End"@]);
    lemma_are_lines(vars, a);
    lemma_are_lines(vars + a, b);
    lemma_are_lines(vars + a + b, seq!["End"@]);
    assert(locs.take(locs.len() as int) =~= locs);
    assert(trs.take(trs.len() as int) =~= trs);
    assert(third.locations =~= system_of(input).locations);
    assert(third.transitions =~= system_of(input).transitions);
    assert("\n"@ =~= seq!['\n']);
    lemma_cut_joined(lines, '\n');
}

/// A transition system is written down exactly where it is well formed: its variables
/// are texts, each location has a name, each transition a name, a start and a target,
/// and all constraints are well formed.
pub proof fn well_formed_systems_are_written(input: JsonView)
    ensures
        linear_invariant::system_lines(input) is Ok <==> {
            &&& input.at("variables"@) is List
            &&& input.at("locations"@) is List
            &&& input.at("transitions"@) is List
            &&& forall|i: int|
                0 <= i < items_of(input.at("variables"@)).len() ==> (
                #[trigger] items_of(input.at("variables"@))[i]) is Text
            &&& forall|i: int|
                0 <= i < items_of(input.at("locations"@)).len() ==> is_location(
                    #[trigger] items_of(input.at("locations"@))[i],
                )
            &&& forall|i: int|
                0 <= i < items_of(input.at("transitions"@)).len() ==> is_transition(
                    #[trigger] items_of(input.at("transitions"@))[i],
                )
        },
{
    match (input.at("variables"@), input.at("locations"@), input.at("transitions"@)) {
        (JsonView::List(vars), JsonView::List(locs), JsonView::List(trs)) => {
            lemma_locations_written(locs, locs.len() as int);
            lemma_transitions_written(trs, trs.len() as int);
            assert((forall|i: int| 0 <= i < vars.len() ==> (#[trigger] vars[i]).text() is Some)
                <==> (forall|i: int| 0 <= i < vars.len() ==> (#[trigger] vars[i]) is Text)) by {
                if forall|i: int| 0 <= i < vars.len() ==> (#[trigger] vars[i]).text() is Some {
                    assert forall|i: int| 0 <= i < vars.len() implies (
                    #[trigger] vars[i]) is Text by {
                        assert(vars[i].text() is Some);
                    }
                }
            }
            assert(items_of(input.at("variables"@)) == vars);
            assert(items_of(input.at("locations"@)) == locs);
            assert(items_of(input.at("transitions"@)) == trs);
        },
        _ => {},
    }
}

/// All constraints of a list are well formed.
pub open spec fn are_constraints(v: JsonView) -> bool {
    forall|i: int|
        0 <= i < items_of(v).len() ==> linear_invariant::constraint_text(
            #[trigger] items_of(v)[i],
        ) is Ok
}

/// The value describes a location.
pub open spec fn is_location(v: JsonView) -> bool {
    v.at("name"@) is Text && are_constraints(v.at("init_constraints"@))
}

/// The value describes a transition.
pub open spec fn is_transition(v: JsonView) -> bool {
    &&& v.at("name"@) is Text
    &&& v.at("src"@) is Text
    &&& v.at("dst"@) is Text
    &&& are_constraints(v.at("guard"@))
    &&& are_constraints(v.at("update"@))
}

proof fn lemma_constraints_written(list: Seq<JsonView>, n: int)
    requires
        0 <= n <= list.len(),
    ensures
        linear_invariant::constraint_lines(list, n) is Ok <==> forall|i: int|
            0 <= i < n ==> linear_invariant::constraint_text(#[trigger] list[i]) is Ok,
    decreases n,
{
    if n > 0 {
        lemma_constraints_written(list, n - 1);
        if forall|i: int| 0 <= i < n ==> linear_invariant::constraint_text(
            #[trigger] list[i],
        ) is Ok {
            assert(linear_invariant::constraint_text(list[n - 1]) is Ok);
        }
    }
}

proof fn lemma_constraints_under_written(v: JsonView, key: Seq<char>)
    ensures
        linear_invariant::constraints_under(v, key) is Ok <==> are_constraints(v.at(key)),
{
    match v.at(key) {
        JsonView::List(l) => {
            lemma_constraints_written(l, l.len() as int);
            assert(items_of(v.at(key)) == l);
        },
        _ => {},
    }
}

proof fn lemma_locations_written(list: Seq<JsonView>, n: int)
    requires
        0 <= n <= list.len(),
    ensures
        linear_invariant::all_locations(list, n) is Ok <==> forall|i: int|
            0 <= i < n ==> is_location(#[trigger] list[i]),
    decreases n,
{
    if n > 0 {
        lemma_locations_written(list, n - 1);
        lemma_constraints_under_written(list[n - 1], "init_constraints"@);
        if forall|i: int| 0 <= i < n ==> is_location(#[trigger] list[i]) {
            assert(is_location(list[n - 1]));
        }
    }
}

proof fn lemma_transitions_written(list: Seq<JsonView>, n: int)
    requires
        0 <= n <= list.len(),
    ensures
        linear_invariant::all_transitions(list, n) is Ok <==> forall|i: int|
            0 <= i < n ==> is_transition(#[trigger] list[i]),
    decreases n,
{
    if n > 0 {
        lemma_transitions_written(list, n - 1);
        lemma_constraints_under_written(list[n - 1], "guard"@);
        lemma_constraints_under_written(list[n - 1], "update"@);
        if forall|i: int| 0 <= i < n ==> is_transition(#[trigger] list[i]) {
            assert(is_transition(list[n - 1]));
        }
    }
}

// ── The tool's output ───────────────────────────────────────────────────

/// Lines joined by line ends are the lines of the text, where none of them holds a
/// line end or a carriage return, and the last is not empty.
pub proof fn joined_lines_are_the_lines(lines: Seq<Seq<char>>)
    requires
        lines.len() > 0,
        forall|i: int|
            0 <= i < lines.len() ==> !(#[trigger] lines[i]).contains('\n') && !lines[i].contains(
                '\r',
            ),
        lines.last().len() > 0,
    ensures
        text::lines_of(text::joined(lines, "\n"@)) == lines,
    decreases lines.len(),
{
    reveal_strlit("\n");
    let s = text::joined(lines, "\n"@);
    assert("\n"@ =~= seq!['\n']);
    let first = lines[0];
    assert(!first.contains('\n') && !first.contains('\r'));
    assert forall|k: int| 0 <= k < first.len() implies first[k] != '\n' by {}
    if lines.len() == 1 {
        lemma_line_runs(s, 0, first.len() as int);
        assert(s.subrange(0, s.len() as int) =~= s);
        assert(text::lines_from(s, s.len() as int + 1) =~= Seq::empty());
        assert(text::lines_of(s) =~= lines);
    } else {
        let rest = lines.drop_first();
        lemma_joined_front(lines, "\n"@);
        assert forall|i: int| 0 <= i < rest.len() implies !(#[trigger] rest[i]).contains('\n')
            && !rest[i].contains('\r') by {
            assert(rest[i] == lines[i + 1]);
        }
        joined_lines_are_the_lines(rest);
        let tail = text::joined(rest, "\n"@);
        assert(s =~= first + seq!['\n'] + tail);
        let e = first.len() as int;
        assert(s[e] == '\n');
        lemma_line_runs(s, 0, e);
        assert(s.subrange(0, e) =~= first);
        if first.len() > 0 {
            assert(first[e - 1] != '\r');
        }
        lemma_lines_shift(s, e + 1, 0);
        assert(s.skip(e + 1) =~= tail);
        assert(text::lines_of(s) =~= seq![first] + text::lines_of(tail));
        assert(seq![first] + rest =~= lines);
    }
}

proof fn lemma_line_runs(s: Seq<char>, k: int, e: int)
    requires
        0 <= k <= e <= s.len(),
        forall|i: int| k <= i < e ==> s[i] != '\n',
        e < s.len() ==> s[e] == '\n',
    ensures
        text::line_end(s, k) == e,
    decreases e - k,
{
    if k < e {
        lemma_line_runs(s, k + 1, e);
    }
}

proof fn lemma_line_end_shift(s: Seq<char>, n: int, k: int)
    requires
        0 <= n <= s.len(),
        0 <= k,
        n + k <= s.len(),
    ensures
        text::line_end(s, n + k) == n + text::line_end(s.skip(n), k),
    decreases s.len() - n - k,
{
    if n + k < s.len() && s[n + k] != '\n' {
        lemma_line_end_shift(s, n, k + 1);
    }
}

proof fn lemma_lines_shift(s: Seq<char>, n: int, k: int)
    requires
        0 <= n <= s.len(),
        0 <= k,
    ensures
        text::lines_from(s, n + k) == text::lines_from(s.skip(n), k),
    decreases s.len() + 1 - n - k,
{
    if n + k < s.len() {
        lemma_line_end_shift(s, n, k);
        text::lemma_line_end(s, n + k);
        let e = text::line_end(s, n + k);
        assert(s.subrange(n + k, e) =~= s.skip(n).subrange(k, e - n));
        lemma_lines_shift(s, n, e - n + 1);
    }
}

proof fn lemma_joined_front(parts: Seq<Seq<char>>, sep: Seq<char>)
    requires
        parts.len() > 1,
    ensures
        text::joined(parts, sep) == parts[0] + sep + text::joined(parts.drop_first(), sep),
    decreases parts.len(),
{
    let rest = parts.drop_first();
    if parts.len() == 2 {
        assert(parts.drop_last() =~= seq![parts[0]]);
        assert(rest =~= seq![parts[1]]);
        reveal_with_fuel(text::joined, 3);
        assert(text::joined(parts, sep) =~= parts[0] + sep + text::joined(rest, sep));
    } else {
        lemma_joined_front(parts.drop_last(), sep);
        assert(parts.drop_last().drop_first() =~= rest.drop_last());
        assert(rest.last() == parts.last());
        assert(text::joined(parts, sep) =~= parts[0] + sep + text::joined(rest, sep));
    }
}

/// The lines of invariants by location: a line for each location, and one for each
/// invariant.
pub open spec fn located_lines(blocks: Seq<(Seq<char>, Seq<Seq<char>>)>) -> Seq<Seq<char>>
    decreases blocks.len(),
{
    if blocks.len() == 0 {
        Seq::empty()
    } else {
        located_lines(blocks.drop_last()) + seq!["Location:"@ + blocks.last().0] + blocks.last().1
    }
}

/// A line that is an invariant: not blank, without white space around it, and not
/// the line of a location.
pub open spec fn is_invariant(line: Seq<char>) -> bool {
    &&& line.len() > 0
    &&& text::trimmed(line) == line
    &&& !text::begins_with(line, "Location:"@)
}

/// The names of locations differ, and have no white space around them.
pub open spec fn are_blocks(blocks: Seq<(Seq<char>, Seq<Seq<char>>)>) -> bool {
    &&& forall|i: int, j: int|
        #![trigger blocks[i], blocks[j]]
        0 <= i < j < blocks.len() ==> blocks[i].0 != blocks[j].0
    &&& forall|i: int|
        0 <= i < blocks.len() ==> text::trimmed((#[trigger] blocks[i]).0) == blocks[i].0
            && blocks[i].0.len() > 0
    &&& forall|i: int, j: int|
        0 <= i < blocks.len() && 0 <= j < blocks[i].1.len() ==> is_invariant(
            #[trigger] blocks[i].1[j],
        )
}

/// The texts as a JSON list.
pub open spec fn as_list(texts: Seq<Seq<char>>) -> JsonView {
    JsonView::List(texts.map_values(|t: Seq<char>| JsonView::Text(t)))
}

proof fn lemma_new_field(fields: Seq<(Seq<char>, JsonView)>, key: Seq<char>, value: JsonView)
    requires
        forall|i: int| 0 <= i < fields.len() ==> (#[trigger] fields[i]).0 != key,
    ensures
        json::with_field(fields, key, value) == fields.push((key, value)),
    decreases fields.len(),
{
    if fields.len() > 0 {
        let rest = fields.drop_first();
        assert forall|i: int| 0 <= i < rest.len() implies (#[trigger] rest[i]).0 != key by {
            assert(rest[i] == fields[i + 1]);
        }
        assert(fields[0].0 != key);
        lemma_new_field(rest, key, value);
        assert(seq![fields[0]] + rest.push((key, value)) =~= fields.push((key, value)));
    } else {
        assert(json::with_field(fields, key, value) =~= fields.push((key, value)));
    }
}

spec fn block_fields(blocks: Seq<(Seq<char>, Seq<Seq<char>>)>) -> Seq<(Seq<char>, JsonView)> {
    blocks.map_values(|b: (Seq<char>, Seq<Seq<char>>)| (b.0, as_list(b.1)))
}

/// All lines of a text, from what was read before them.
spec fn reading(lines: Seq<Seq<char>>) -> linear_invariant::Reading {
    linear_invariant::read_lines(lines, lines.len() as int)
}

proof fn lemma_reading_prefix(lines: Seq<Seq<char>>, more: Seq<Seq<char>>, n: int)
    requires
        0 <= n <= lines.len(),
    ensures
        linear_invariant::read_lines(lines + more, n) == linear_invariant::read_lines(lines, n),
    decreases n,
{
    if n > 0 {
        lemma_reading_prefix(lines, more, n - 1);
        assert((lines + more)[n - 1] == lines[n - 1]);
    }
}

proof fn lemma_reading_push(lines: Seq<Seq<char>>, line: Seq<char>)
    ensures
        reading(lines.push(line)) == linear_invariant::read_line(reading(lines), line),
{
    assert(lines.push(line) =~= lines + seq![line]);
    lemma_reading_prefix(lines, seq![line], lines.len() as int);
}

proof fn lemma_read_invariants(lines: Seq<Seq<char>>, more: Seq<Seq<char>>)
    requires
        reading(lines).location is Some,
        forall|i: int| 0 <= i < more.len() ==> is_invariant(#[trigger] more[i]),
    ensures
        reading(lines + more) == (linear_invariant::Reading {
            invariants: reading(lines).invariants + more.map_values(
                |t: Seq<char>| JsonView::Text(t),
            ),
            ..reading(lines)
        }),
    decreases more.len(),
{
    let f = |t: Seq<char>| JsonView::Text(t);
    if more.len() == 0 {
        assert(lines + more =~= lines);
        assert(reading(lines).invariants + more.map_values(f) =~= reading(lines).invariants);
    } else {
        let rest = more.drop_last();
        assert forall|i: int| 0 <= i < rest.len() implies is_invariant(#[trigger] rest[i]) by {
            assert(rest[i] == more[i]);
        }
        lemma_read_invariants(lines, rest);
        assert(lines + more =~= (lines + rest).push(more.last()));
        lemma_reading_push(lines + rest, more.last());
        assert(is_invariant(more[more.len() - 1]));
        assert(reading(lines).invariants + more.map_values(f) =~= (reading(lines).invariants
            + rest.map_values(f)).push(JsonView::Text(more.last())));
    }
}

#[verifier::rlimit(40)]
proof fn lemma_read_blocks(blocks: Seq<(Seq<char>, Seq<Seq<char>>)>)
    requires
        are_blocks(blocks),
    ensures
        linear_invariant::closed(reading(located_lines(blocks))) == block_fields(blocks),
        reading(located_lines(blocks)).location is None <==> blocks.len() == 0,
        reading(located_lines(blocks)).location is None ==> reading(
            located_lines(blocks),
        ).invariants.len() == 0,
    decreases blocks.len(),
{
    reveal_strlit("Location:");
    if blocks.len() > 0 {
        let rest = blocks.drop_last();
        assert(are_blocks(rest)) by {
            assert forall|i: int, j: int|
                #![trigger rest[i], rest[j]]
                0 <= i < j < rest.len() implies rest[i].0 != rest[j].0 by {
                assert(rest[i] == blocks[i] && rest[j] == blocks[j]);
            }
            assert forall|i: int| 0 <= i < rest.len() implies text::trimmed((#[trigger] rest[i]).0)
                == rest[i].0 && rest[i].0.len() > 0 by {
                assert(rest[i] == blocks[i]);
            }
            assert forall|i: int, j: int|
                0 <= i < rest.len() && 0 <= j < rest[i].1.len() implies is_invariant(
                #[trigger] rest[i].1[j],
            ) by {
                assert(rest[i] == blocks[i]);
                assert(is_invariant(blocks[i].1[j]));
            }
        }
        lemma_read_blocks(rest);
        let (name, invs) = blocks.last();
        assert(blocks[blocks.len() - 1] == (name, invs));
        let before = located_lines(rest);
        let line = "Location:"@ + name;
        assert(before + seq![line] =~= before.push(line));
        lemma_reading_push(before, line);
        lemma_trimmed_location(name);
        assert(text::after(line, 9) =~= name);
        lemma_begun("Location:"@, name);
        let opened = before.push(line);
        assert(reading(opened).location == Some(name));
        assert(reading(opened).done == block_fields(rest));
        assert(reading(opened).invariants =~= Seq::empty());
        assert forall|j: int| 0 <= j < invs.len() implies is_invariant(#[trigger] invs[j]) by {
            assert(is_invariant(blocks[blocks.len() - 1].1[j]));
        }
        lemma_read_invariants(opened, invs);
        let f = |t: Seq<char>| JsonView::Text(t);
        assert(Seq::<JsonView>::empty() + invs.map_values(f) =~= invs.map_values(f));
        let fields = block_fields(rest);
        assert forall|i: int| 0 <= i < fields.len() implies (#[trigger] fields[i]).0 != name by {
            assert(fields[i].0 == rest[i].0);
            assert(blocks[i].0 != blocks[blocks.len() - 1].0);
        }
        lemma_new_field(fields, name, as_list(invs));
        assert(block_fields(blocks) =~= fields.push((name, as_list(invs))));
    } else {
        assert(block_fields(blocks) =~= Seq::empty());
    }
}

proof fn lemma_trimmed_location(name: Seq<char>)
    requires
        text::trimmed(name) == name,
        name.len() > 0,
    ensures
        text::trimmed("Location:"@ + name) == "Location:"@ + name,
{
    reveal_strlit("Location:");
    let line = "Location:"@ + name;
    assert(line[0] == 'L');
    assert(text::trim_start(line) == line);
    lemma_trimmed_last(name);
    assert(line.last() == name.last());
}

proof fn lemma_trimmed_last(s: Seq<char>)
    requires
        text::trimmed(s) == s,
        s.len() > 0,
    ensures
        !text::is_white_space(s.last()),
{
    lemma_trim_start_len(s);
    if text::is_white_space(s.last()) {
        if text::trim_start(s) == s {
            lemma_trim_end_len(s.drop_last());
        } else {
            lemma_trim_end_len(text::trim_start(s));
        }
    }
}

proof fn lemma_trim_start_len(s: Seq<char>)
    ensures
        text::trim_start(s).len() <= s.len(),
        text::trim_start(s).len() == s.len() ==> text::trim_start(s) == s,
    decreases s.len(),
{
    if s.len() > 0 && text::is_white_space(s[0]) {
        lemma_trim_start_len(s.drop_first());
    }
}

proof fn lemma_trim_end_len(s: Seq<char>)
    ensures
        text::trim_end(s).len() <= s.len(),
    decreases s.len(),
{
    if s.len() > 0 && text::is_white_space(s.last()) {
        lemma_trim_end_len(s.drop_last());
    }
}

/// Invariants by location are read as such: each location with its own invariants,
/// in their order.
pub proof fn located_invariants_are_read(
    output: Seq<char>,
    blocks: Seq<(Seq<char>, Seq<Seq<char>>)>,
)
    requires
        blocks.len() > 0,
        are_blocks(blocks),
        text::lines_of(output) == located_lines(blocks),
    ensures
        linear_invariant::invariants_json(output).at("invariants"@) is Record,
        forall|i: int|
            0 <= i < blocks.len() ==> linear_invariant::invariants_json(output).at(
                "invariants"@,
            ).at((#[trigger] blocks[i]).0) == as_list(blocks[i].1),
        linear_invariant::invariants_json(output).at("invariants"@)->Record_0.len()
            == blocks.len(),
{
    let lines = located_lines(blocks);
    lemma_read_blocks(blocks);
    let (name, invs) = blocks.last();
    let at = located_lines(blocks.drop_last()).len() as int;
    assert(lines[at] == "Location:"@ + name);
    lemma_begun("Location:"@, name);
    assert(linear_invariant::has_locations(lines));
    let fields = block_fields(blocks);
    reveal_with_fuel(json::lookup, 2);
    assert(linear_invariant::invariants_json(output).at("invariants"@) == JsonView::Record(fields));
    assert forall|i: int| 0 <= i < blocks.len() implies json::lookup(
        fields,
        (#[trigger] blocks[i]).0,
    ) == Some(as_list(blocks[i].1)) by {
        assert forall|j: int| 0 <= j < i implies (#[trigger] fields[j]).0 != blocks[i].0 by {
            assert(fields[j].0 == blocks[j].0);
        }
        assert(fields[i].0 == blocks[i].0);
        lemma_lookup(fields, blocks[i].0, i);
    }
}

proof fn lemma_lookup(fields: Seq<(Seq<char>, JsonView)>, key: Seq<char>, i: int)
    requires
        0 <= i < fields.len(),
        fields[i].0 == key,
        forall|j: int| 0 <= j < i ==> (#[trigger] fields[j]).0 != key,
    ensures
        json::lookup(fields, key) == Some(fields[i].1),
    decreases i,
{
    if i > 0 {
        let rest = fields.drop_first();
        assert(fields[0].0 != key);
        assert forall|j: int| 0 <= j < i - 1 implies (#[trigger] rest[j]).0 != key by {
            assert(rest[j] == fields[j + 1]);
        }
        lemma_lookup(rest, key, i - 1);
    }
}

/// Invariants without locations are read as one list, in their order.
pub proof fn plain_invariants_are_read(output: Seq<char>)
    requires
        forall|i: int|
            0 <= i < text::lines_of(output).len() ==> is_invariant(
                #[trigger] text::lines_of(output)[i],
            ),
    ensures
        linear_invariant::invariants_json(output).at("invariants"@) == as_list(
            text::lines_of(output),
        ),
{
    let lines = text::lines_of(output);
    reveal_with_fuel(json::lookup, 2);
    assert(!linear_invariant::has_locations(lines)) by {
        if linear_invariant::has_locations(lines) {
            let i = choose|i: int|
                0 <= i < lines.len() && text::begins_with(#[trigger] lines[i], "Location:"@);
            assert(is_invariant(lines[i]));
        }
    }
    lemma_plain(lines, lines.len() as int);
    assert(lines.take(lines.len() as int) =~= lines);
}

proof fn lemma_plain(lines: Seq<Seq<char>>, n: int)
    requires
        0 <= n <= lines.len(),
        forall|i: int| 0 <= i < lines.len() ==> is_invariant(#[trigger] lines[i]),
    ensures
        linear_invariant::plain_invariants(lines, n) == lines.take(n).map_values(
            |t: Seq<char>| JsonView::Text(t),
        ),
    decreases n,
{
    let f = |t: Seq<char>| JsonView::Text(t);
    if n > 0 {
        lemma_plain(lines, n - 1);
        assert(is_invariant(lines[n - 1]));
        assert(lines.take(n).map_values(f) =~= lines.take(n - 1).map_values(f).push(
            JsonView::Text(lines[n - 1]),
        ));
    } else {
        assert(lines.take(n).map_values(f) =~= Seq::empty());
    }
}

/// Blank lines, and white space around a line, say nothing.
pub proof fn white_space_says_nothing(
    r: linear_invariant::Reading,
    line: Seq<char>,
    other: Seq<char>,
)
    requires
        text::trimmed(line) == text::trimmed(other),
    ensures
        linear_invariant::read_line(r, line) == linear_invariant::read_line(r, other),
        text::trimmed(line).len() == 0 ==> linear_invariant::read_line(r, line) == r,
{
}

} // verus!
