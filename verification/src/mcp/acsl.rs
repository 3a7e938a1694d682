//! ACSL clauses as text: labels, normal forms, wrapping into behaviors, and the
//! classification of what Frama-C says about them.

pub mod laws;

use vstd::prelude::*;
use vstd::string::*;

use crate::frama_c::codec;
use crate::json::Json;
use crate::text;

verus! {

// ── Outside text functions ──────────────────────────────────────────────

/// The lowercase form of a text, as `str::to_lowercase` gives it.
pub uninterp spec fn lowercased(s: Seq<char>) -> Seq<char>;

/// The first match of a regular expression in a text, as `regex::Regex::find`
/// gives it; nothing where the pattern is no regular expression.
pub uninterp spec fn regex_found(pattern: Seq<char>, s: Seq<char>) -> Option<Seq<char>>;

/// The text with each match of a regular expression replaced, as
/// `regex::Regex::replace_all` gives it; nothing where the pattern is no regular
/// expression.
pub uninterp spec fn regex_replaced(pattern: Seq<char>, s: Seq<char>, by: Seq<char>) -> Option<
    Seq<char>,
>;

/// `str::to_lowercase` puts a text in lowercase. In a text of ASCII characters
/// it changes the letters `A` to `Z`, and nothing else.
#[verifier::external_body]
fn to_lowercase(s: &str) -> (r: String)
    ensures
        r@ == lowercased(s@),
        vstd::utf8::is_ascii_chars(s@) ==> r@ == ascii_lowercased(s@),
{
    s.to_lowercase()
}

/// `regex::Regex::find` gives the leftmost match, which is a part of the text.
#[verifier::external_body]
fn regex_find(pattern: &str, s: &str) -> (r: Option<String>)
    ensures
        match r {
            Some(m) => regex_found(pattern@, s@) == Some(m@) && text::has_text(s@, m@),
            None => regex_found(pattern@, s@) is None,
        },
{
    regex::Regex::new(pattern).ok()?.find(s).map(|m| m.as_str().to_string())
}

/// `regex::Regex::replace_all` replaces each match.
#[verifier::external_body]
fn regex_replace_all(pattern: &str, s: &str, by: &str) -> (r: Option<String>)
    ensures
        match r {
            Some(t) => regex_replaced(pattern@, s@, by@) == Some(t@),
            None => regex_replaced(pattern@, s@, by@) is None,
        },
{
    Some(regex::Regex::new(pattern).ok()?.replace_all(s, by).into_owned())
}

/// `std::time::SystemTime::now`, in nanoseconds since the epoch, cut to 64 bits.
#[verifier::external_body]
pub(crate) fn clock_nanos() -> u64 {
    std::time::SystemTime::now().duration_since(
        std::time::UNIX_EPOCH,
    ).unwrap_or_default().as_nanos() as u64
}

/// `std::collections::hash_map::RandomState` hashes the value with keys that it
/// draws anew.
#[verifier::external_body]
fn random_hash(value: u64) -> u64 {
    std::hash::BuildHasher::hash_one(&std::collections::hash_map::RandomState::new(), value)
}

// ── Lowercase in ASCII ──────────────────────────────────────────────────

/// The letters `A` to `Z` in lowercase, everything else as it is.
pub open spec fn ascii_lower(c: char) -> char {
    if 'A' <= c <= 'Z' {
        (c as u32 + 32) as char
    } else {
        c
    }
}

/// The text with the letters `A` to `Z` in lowercase.
pub open spec fn ascii_lowercased(s: Seq<char>) -> Seq<char> {
    s.map_values(|c: char| ascii_lower(c))
}

/// The text with the letters `A` to `Z` in lowercase.
pub fn to_ascii_lowercase(s: &str) -> (r: String)
    ensures
        r@ == ascii_lowercased(s@),
{
    let v = text::chars_of(s);
    let mut r = String::new();
    let mut i: usize = 0;
    while i < v.len()
        invariant
            i <= v@.len(),
            v@ == s@,
            r@ =~= ascii_lowercased(s@).take(i as int),
        decreases v@.len() - i,
    {
        let c: char = v[i];
        if 'A' <= c && c <= 'Z' {
            r.push((c as u8 + 32) as char);
        } else {
            r.push(c);
        }
        i = i + 1;
    }
    r
}

// ── Labels ──────────────────────────────────────────────────────────────

/// The two letters that begin the label of a clause of the given kind.
pub open spec fn label_prefix(kind: Seq<char>) -> Seq<char> {
    if kind == "requires"@ {
        "re"@
    } else if kind == "ensures"@ {
        "en"@
    } else if kind == "assigns"@ {
        "as"@
    } else if kind == "loop_invariant"@ {
        "li"@
    } else if kind == "loop_assigns"@ {
        "la"@
    } else if kind == "loop_variant"@ {
        "lv"@
    } else if kind == "assert"@ {
        "at"@
    } else {
        "an"@
    }
}

/// A number in eight hex digits.
pub open spec fn hex_digits(n: u32) -> Seq<char> {
    codec::hex(n as nat, 8).map_values(|b: u8| b as char)
}

/// A number in eight hex digits.
pub fn hex_text(n: u32) -> (r: String)
    ensures
        r@ == hex_digits(n),
{
    let mut digits: Vec<u8> = Vec::new();
    codec::push_hex(&mut digits, n as usize, 8);
    let mut r = String::new();
    let mut i: usize = 0;
    assert(digits@ =~= codec::hex(n as nat, 8));
    while i < digits.len()
        invariant
            i <= digits@.len(),
            r@ =~= digits@.map_values(|b: u8| b as char).take(i as int),
        decreases digits@.len() - i,
    {
        r.push(digits[i] as char);
        i = i + 1;
    }
    assert(r@ =~= digits@.map_values(|b: u8| b as char));
    r
}

/// The label of a clause: its kind's letters, an underscore, eight hex digits.
pub open spec fn hash_label_text(kind: Seq<char>, hash: u32) -> Seq<char> {
    label_prefix(kind) + "_"@ + hex_digits(hash)
}

/// The label of a clause of the given kind with the given hash.
pub fn hash_label(kind: &str, hash: u32) -> (r: String)
    ensures
        r@ == hash_label_text(kind@, hash),
{
    let prefix = if text::same_text(kind, "requires") {
        "re"
    } else if text::same_text(kind, "ensures") {
        "en"
    } else if text::same_text(kind, "assigns") {
        "as"
    } else if text::same_text(kind, "loop_invariant") {
        "li"
    } else if text::same_text(kind, "loop_assigns") {
        "la"
    } else if text::same_text(kind, "loop_variant") {
        "lv"
    } else if text::same_text(kind, "assert") {
        "at"
    } else {
        "an"
    };
    prefix.to_owned().concat("_").concat(hex_text(hash).as_str())
}

/// A label for a clause of the given kind, with a hash drawn at random.
pub fn generate_hash_label(kind: &str) -> (r: String)
    ensures
        exists|hash: u32| r@ == #[trigger] hash_label_text(kind@, hash),
{
    let hash: u64 = random_hash(clock_nanos());
    hash_label(kind, (hash % 0x1_0000_0000) as u32)
}

/// The label that goes into the AST: the hash label, with the user's label behind
/// an underscore where there is one.
pub open spec fn full_label_text(hash_label: Seq<char>, user_label: Option<Seq<char>>) -> Seq<
    char,
> {
    match user_label {
        Some(l) => hash_label + "_"@ + l,
        None => hash_label,
    }
}

/// The label that goes into the AST: the hash label, with the user's label behind
/// an underscore where there is one.
pub fn full_label(hash_label: &str, user_label: Option<&str>) -> (r: String)
    ensures
        r@ == full_label_text(hash_label@, text::opt_text(user_label)),
{
    match user_label {
        Some(l) => hash_label.to_owned().concat("_").concat(l),
        None => hash_label.to_owned(),
    }
}

// ── Normal forms ────────────────────────────────────────────────────────

/// `s` without the semicolons and the white space at its end.
pub open spec fn without_end(s: Seq<char>) -> Seq<char>
    decreases s.len(),
{
    if s.len() > 0 && (s.last() == ';' || text::is_white_space(s.last())) {
        without_end(s.drop_last())
    } else {
        s
    }
}

/// `s` without white space at its ends and semicolons at its end.
pub open spec fn without_ends(s: Seq<char>) -> Seq<char> {
    without_end(text::trim_start(s))
}

/// A clause in normal form: without white space at its ends, with exactly one
/// semicolon behind it.
pub open spec fn normalized(s: Seq<char>) -> Seq<char> {
    without_ends(s) + ";"@
}

/// Normalize ACSL text: strip all trailing semicolons and white space, and the
/// white space at the start; add exactly one semicolon.
pub fn normalize_acsl(s: &str) -> (r: String)
    ensures
        r@ == normalized(s@),
{
    strip_ends(s).concat(";")
}

/// Strips the white space at the ends and the semicolons at the end.
fn strip_ends(s: &str) -> (r: String)
    ensures
        r@ == without_ends(s@),
{
    let v = text::chars_of(s);
    let mut i: usize = 0;
    proof {
        assert(text::after(s@, 0) =~= s@);
    }
    while i < v.len() && text::white_space(v[i])
        invariant
            i <= v@.len(),
            v@ == s@,
            text::trim_start(s@) == text::trim_start(text::after(s@, i as int)),
        decreases v@.len() - i,
    {
        proof {
            assert(text::after(s@, i as int).drop_first() =~= text::after(s@, i + 1));
        }
        i = i + 1;
    }
    let ghost t = text::after(s@, i as int);
    assert(text::trim_start(t) == t);
    let mut j: usize = v.len();
    proof {
        assert(s@.subrange(i as int, j as int) =~= t);
    }
    while i < j && (v[j - 1] == ';' || text::white_space(v[j - 1]))
        invariant
            i <= j <= v@.len(),
            v@ == s@,
            t == text::after(s@, i as int),
            without_end(t) == without_end(s@.subrange(i as int, j as int)),
        decreases j - i,
    {
        proof {
            assert(s@.subrange(i as int, j as int).drop_last() =~= s@.subrange(i as int, j - 1));
        }
        j = j - 1;
    }
    text::text_of(&v, i, j)
}

proof fn lemma_without_end(s: Seq<char>)
    ensures
        without_end(s).len() == 0 || (without_end(s).last() != ';' && !text::is_white_space(
            without_end(s).last(),
        )),
        without_end(s).len() <= s.len(),
        without_end(s).is_prefix_of(s),
    decreases s.len(),
{
    if s.len() > 0 && (s.last() == ';' || text::is_white_space(s.last())) {
        lemma_without_end(s.drop_last());
    }
}

/// A normal form ends in exactly one semicolon, and normalizing it again changes
/// nothing.
pub proof fn normal_form_is_stable(s: Seq<char>)
    ensures
        normalized(s).last() == ';',
        normalized(s).len() == 1 || normalized(s)[normalized(s).len() - 2] != ';',
        normalized(normalized(s)) == normalized(s),
{
    let body = without_end(text::trim_start(s));
    let n = normalized(s);
    lemma_without_end(text::trim_start(s));
    text::lemma_trim_start(s);
    reveal_strlit(";");
    assert(n =~= body.push(';'));
    assert(text::trim_start(n) == n) by {
        if body.len() > 0 {
            assert(n[0] == body[0]);
            assert(body[0] == text::trim_start(s)[0]);
        }
    }
    assert(n.drop_last() =~= body);
    assert(without_end(n) == without_end(body));
    assert(without_end(body) == body);
}

/// The pattern of a hash label behind a comma, with what follows it up to the
/// next comma or semicolon.
pub const LABEL_SUFFIX_PATTERN: &'static str =
    ",\\s*(?:re|en|as|li|la|lv|at|an)_[0-9a-f]{8}(?:,[^,;]*)?";

/// What is compared of a clause whose labels are stripped: the whole text, but
/// for the white space at its ends and the semicolons at its end.
pub open spec fn comparison_key_text(stripped: Seq<char>) -> Seq<char> {
    without_ends(stripped)
}

/// What is compared of a clause whose labels are stripped.
pub fn comparison_key(stripped: &str) -> (r: String)
    ensures
        r@ == comparison_key_text(stripped@),
{
    strip_ends(stripped)
}

/// A clause and its normal form are compared as the same.
pub proof fn normal_form_keeps_the_key(s: Seq<char>)
    ensures
        comparison_key_text(normalized(s)) == comparison_key_text(s),
{
    reveal_strlit(";");
    normal_form_is_stable(s);
    let again = without_ends(normalized(s)) + ";"@;
    assert(again == without_ends(s) + ";"@);
    assert(again.drop_last() =~= without_ends(normalized(s)));
    assert(again.drop_last() =~= without_ends(s));
}

/// Normalize ACSL for comparison: strip the hash labels, the white space at the
/// ends and the semicolons at the end. What stands behind a semicolon inside the
/// clause counts: two behaviors that differ there are different.
pub fn normalize_for_comparison(acsl: &str) -> (r: String)
    ensures
        r@ == comparison_key_text(
            (match regex_replaced(LABEL_SUFFIX_PATTERN@, acsl@, ""@) {
                Some(s) => s,
                None => acsl@,
            }),
        ),
{
    match regex_replace_all(LABEL_SUFFIX_PATTERN, acsl, "") {
        Some(s) => comparison_key(s.as_str()),
        None => comparison_key(acsl),
    }
}

// ── Clauses and behaviors ───────────────────────────────────────────────

/// A named behavior with its assumptions.
#[derive(Debug)]
pub struct Behavior {
    pub name: String,
    pub assumes: Vec<String>,
}

/// What a behavior says.
pub struct BehaviorView {
    pub name: Seq<char>,
    pub assumes: Seq<Seq<char>>,
}

impl View for Behavior {
    type V = BehaviorView;

    open spec fn view(&self) -> BehaviorView {
        BehaviorView { name: self.name@, assumes: text::texts(self.assumes@) }
    }
}

/// What declared behaviors say.
pub open spec fn behavior_views(v: Seq<Behavior>) -> Seq<BehaviorView> {
    v.map_values(|b: Behavior| b@)
}

/// The assumptions of the behavior of the given name; of two declarations of one
/// name, those of the later.
pub open spec fn assumes_of(behaviors: Seq<BehaviorView>, name: Seq<char>) -> Option<Seq<Seq<char>>>
    decreases behaviors.len(),
{
    if behaviors.len() == 0 {
        None
    } else if behaviors.last().name == name {
        Some(behaviors.last().assumes)
    } else {
        assumes_of(behaviors.drop_last(), name)
    }
}

/// The assumptions of the behavior of the given name, where it is declared.
pub fn lookup_behavior_assumes<'a>(behaviors: &'a [Behavior], name: &str) -> (r: Option<
    &'a Vec<String>,
>)
    ensures
        match r {
            Some(a) => assumes_of(behavior_views(behaviors@), name@) == Some(text::texts(a@)),
            None => assumes_of(behavior_views(behaviors@), name@) is None,
        },
{
    let ghost all = behavior_views(behaviors@);
    let mut i: usize = behaviors.len();
    proof {
        assert(all.take(i as int) =~= all);
    }
    while i > 0
        invariant
            i <= behaviors@.len(),
            all == behavior_views(behaviors@),
            assumes_of(all, name@) == assumes_of(all.take(i as int), name@),
        decreases i,
    {
        i = i - 1;
        proof {
            assert(all.take(i + 1).drop_last() =~= all.take(i as int));
            assert(all.take(i + 1).last() == behaviors@[i as int]@);
        }
        if text::same_text(behaviors[i].name.as_str(), name) {
            return Some(&behaviors[i].assumes);
        }
    }
    None
}

/// `body` without the clause keyword at its start, where the keyword stands there
/// as a whole word; in either case without white space at its ends.
pub open spec fn without_keyword(body: Seq<char>, keyword: Seq<char>) -> Seq<char> {
    let t = text::trimmed(body);
    if text::begins_with(t, keyword) {
        let rest = text::after(t, keyword.len() as int);
        if rest.len() == 0 || text::is_white_space(rest[0]) {
            text::trimmed(rest)
        } else {
            t
        }
    } else {
        t
    }
}

/// Strip a leading clause keyword where `body` already starts with it as a whole
/// word: the keyword with white space behind it, or the keyword alone. A name
/// that only begins like the keyword, such as `requires_foo`, is left alone.
pub fn strip_leading_keyword(body: &str, keyword: &str) -> (r: String)
    ensures
        r@ == without_keyword(body@, keyword@),
{
    let t = text::trim(body);
    match text::strip_prefix(t.as_str(), keyword) {
        Some(rest) => {
            let v = text::chars_of(rest.as_str());
            if v.len() == 0 || text::white_space(v[0]) {
                text::trim(rest.as_str())
            } else {
                t
            }
        },
        None => t,
    }
}

/// The keyword stands at the start of `s` as a whole word.
pub open spec fn leads(s: Seq<char>, keyword: Seq<char>) -> bool {
    &&& text::begins_with(s, keyword)
    &&& s.len() == keyword.len() || text::is_white_space(s[keyword.len() as int])
}

/// Stripping the keyword is idempotent, unless the body repeats the keyword: a
/// bare body and one that bears the keyword come out the same.
pub proof fn stripping_twice_is_stripping_once(body: Seq<char>, keyword: Seq<char>)
    requires
        keyword.len() == 0 || !leads(without_keyword(body, keyword), keyword),
    ensures
        without_keyword(without_keyword(body, keyword), keyword) == without_keyword(body, keyword),
{
    lemma_trimmed_is_stable(body);
    lemma_trimmed_is_stable(text::after(text::trimmed(body), keyword.len() as int));
    let once = without_keyword(body, keyword);
    assert(text::trimmed(once) == once);
    if keyword.len() == 0 {
        assert(text::after(once, 0) =~= once);
    }
}

proof fn lemma_trimmed_is_stable(s: Seq<char>)
    ensures
        text::trimmed(text::trimmed(s)) == text::trimmed(s),
{
    let t = text::trim_start(s);
    text::lemma_trim_start(s);
    lemma_trim_end(t);
    let u = text::trim_end(t);
    if u.len() > 0 {
        assert(u[0] == t[0]);
    }
}

proof fn lemma_trim_end(s: Seq<char>)
    ensures
        text::trim_end(s).len() == 0 || !text::is_white_space(text::trim_end(s).last()),
        text::trim_end(s).is_prefix_of(s),
        text::trim_end(text::trim_end(s)) == text::trim_end(s),
    decreases s.len(),
{
    if s.len() > 0 && text::is_white_space(s.last()) {
        lemma_trim_end(s.drop_last());
    }
}

/// `s` without white space at its ends, and without the semicolons behind it.
pub open spec fn bare(s: Seq<char>) -> Seq<char> {
    text::trimmed(text::without_trailing(text::trimmed(s), ';'))
}

/// The body of a clause, without its keyword and its semicolons.
pub open spec fn clause_body(keyword: Seq<char>, body: Seq<char>) -> Seq<char> {
    text::trimmed(text::without_trailing(without_keyword(bare(body), keyword), ';'))
}

fn bare_text(s: &str) -> (r: String)
    ensures
        r@ == bare(s@),
{
    text::trim(text::trim_end_matches(text::trim(s).as_str(), ';').as_str())
}

fn clause_body_text(keyword: &str, body: &str) -> (r: String)
    ensures
        r@ == clause_body(keyword@, body@),
{
    let clean = bare_text(body);
    let stripped = strip_leading_keyword(clean.as_str(), keyword);
    text::trim(text::trim_end_matches(stripped.as_str(), ';').as_str())
}

/// The complaint about a behavior that is not declared.
pub open spec fn undeclared(behavior: Seq<char>, path: Seq<char>) -> Seq<char> {
    "behavior '"@ + behavior + "' referenced at "@ + path
        + " but not declared in proposed_behaviors"@
}

fn undeclared_text(behavior: &str, path: &str) -> (r: String)
    ensures
        r@ == undeclared(behavior@, path@),
{
    "behavior '".to_owned().concat(behavior).concat("' referenced at ").concat(path).concat(
        " but not declared in proposed_behaviors",
    )
}

/// The assumptions of a behavior block, one clause each.
pub open spec fn assumes_clauses(assumes: Seq<Seq<char>>) -> Seq<char>
    decreases assumes.len(),
{
    if assumes.len() == 0 {
        Seq::empty()
    } else {
        assumes_clauses(assumes.drop_last()) + (" assumes "@ + bare(assumes.last()) + ";"@)
    }
}

/// A clause of a function contract: on its own, or in a block of the behavior
/// that it belongs to, behind that behavior's assumptions.
pub open spec fn funspec_clause(
    keyword: Seq<char>,
    body: Seq<char>,
    behavior: Option<Seq<char>>,
    behaviors: Seq<BehaviorView>,
    path: Seq<char>,
) -> Result<Seq<char>, Seq<char>> {
    let clause = keyword + " "@ + clause_body(keyword, body) + ";"@;
    match behavior {
        None => Ok(clause),
        Some(b) => match assumes_of(behaviors, b) {
            Some(assumes) => Ok(
                "behavior "@ + b + ":"@ + assumes_clauses(assumes) + " "@ + clause,
            ),
            None => Err(undeclared(b, path)),
        },
    }
}

/// A clause of a loop: on its own, or for the behavior that it belongs to.
pub open spec fn loop_clause(
    keyword: Seq<char>,
    body: Seq<char>,
    behavior: Option<Seq<char>>,
    behaviors: Seq<BehaviorView>,
    path: Seq<char>,
) -> Result<Seq<char>, Seq<char>> {
    let clause = keyword + " "@ + clause_body(keyword, body) + ";"@;
    match behavior {
        None => Ok(clause),
        Some(b) => match assumes_of(behaviors, b) {
            Some(_) => Ok("for "@ + b + ": "@ + clause),
            None => Err(undeclared(b, path)),
        },
    }
}

// Trimming at the start has no bearing on trimming at the end, and stripping
// semicolons at the end none on trimming at the start.

proof fn lemma_ends_from_the_front(s: Seq<char>)
    requires
        s.len() > 0,
    ensures
        ({
            let rest = text::trim_end(s.drop_first());
            text::trim_end(s) == if rest.len() > 0 || !text::is_white_space(s[0]) {
                seq![s[0]] + rest
            } else {
                Seq::empty()
            }
        }),
        ({
            let rest = text::without_trailing(s.drop_first(), ';');
            text::without_trailing(s, ';') == if rest.len() > 0 || s[0] != ';' {
                seq![s[0]] + rest
            } else {
                Seq::empty()
            }
        }),
    decreases s.len(),
{
    if s.len() == 1 {
        assert(s.drop_first() =~= Seq::<char>::empty());
        assert(s.drop_last() =~= Seq::<char>::empty());
        assert(s =~= seq![s[0]] + Seq::<char>::empty());
    } else {
        lemma_ends_from_the_front(s.drop_last());
        assert(s.drop_last().drop_first() =~= s.drop_first().drop_last());
        assert(s =~= seq![s[0]] + s.drop_first());
        assert(s.drop_first().last() == s.last());
    }
}

proof fn lemma_ends_are_apart(s: Seq<char>)
    ensures
        text::trim_start(text::trim_end(s)) == text::trim_end(text::trim_start(s)),
        text::trim_start(text::without_trailing(s, ';')) == text::without_trailing(
            text::trim_start(s),
            ';',
        ),
    decreases s.len(),
{
    if s.len() > 0 {
        lemma_ends_from_the_front(s);
        if text::is_white_space(s[0]) {
            let rest = s.drop_first();
            lemma_ends_are_apart(rest);
            let e = text::trim_end(rest);
            assert((seq![s[0]] + e).drop_first() =~= e);
            let w = text::without_trailing(rest, ';');
            assert((seq![s[0]] + w).drop_first() =~= w);
        }
    }
}

/// `s` without white space and semicolons at its end, taken off in turns.
spec fn end_stripped(s: Seq<char>) -> Seq<char> {
    text::trim_end(text::without_trailing(s, ';'))
}

proof fn lemma_bare(s: Seq<char>)
    ensures
        bare(s) == text::trim_start(end_stripped(text::trim_end(s))),
        text::trimmed(bare(s)) == bare(s),
{
    let e = text::trim_end(s);
    let w = text::without_trailing(e, ';');
    lemma_ends_are_apart(s);
    lemma_ends_are_apart(e);
    lemma_ends_are_apart(w);
    text::lemma_trim_start(w);
    text::lemma_trimmed(w);
}

/// Nothing at the end of a text that is put behind a word and a space touches the
/// word.
proof fn lemma_behind_a_word(word: Seq<char>, s: Seq<char>)
    requires
        word.len() > 0,
        !text::is_white_space(word.last()),
    ensures
        text::without_trailing(word + " "@ + s, ';') == word + " "@ + text::without_trailing(
            s,
            ';',
        ),
        text::trim_end(word + " "@ + s) == if text::trim_end(s).len() == 0 {
            word
        } else {
            word + " "@ + text::trim_end(s)
        },
    decreases s.len(),
{
    reveal_strlit(" ");
    let x = word + " "@ + s;
    if s.len() == 0 {
        assert(x.drop_last() =~= word);
        assert(x.last() == ' ');
        assert(text::trim_end(x) == text::trim_end(word));
        assert(text::trim_end(word) == word);
    } else {
        assert(x.last() == s.last());
        assert(x.drop_last() =~= word + " "@ + s.drop_last());
        lemma_behind_a_word(word, s.drop_last());
    }
}

/// A keyword: a word, or several, without white space at its ends, and with no
/// semicolon behind it.
pub open spec fn is_keyword(s: Seq<char>) -> bool {
    &&& s.len() > 0
    &&& !text::is_white_space(s[0])
    &&& !text::is_white_space(s.last())
    &&& s.last() != ';'
}

proof fn lemma_keyword_stripped(keyword: Seq<char>, rest: Seq<char>)
    requires
        is_keyword(keyword),
        text::trim_end(rest) == rest,
    ensures
        without_keyword(keyword, keyword) == Seq::<char>::empty(),
        rest.len() > 0 ==> without_keyword(keyword + " "@ + rest, keyword) == text::trim_start(
            rest,
        ),
{
    reveal_strlit(" ");
    assert(text::trimmed(keyword) == keyword);
    assert(text::after(keyword, keyword.len() as int) =~= Seq::<char>::empty());
    assert(keyword.subrange(0, keyword.len() as int) =~= keyword);
    assert(text::begins_with(keyword, keyword));
    if rest.len() > 0 {
        let x = keyword + " "@ + rest;
        assert(x[0] == keyword[0]);
        assert(text::trim_start(x) == x);
        lemma_behind_a_word(keyword, rest);
        assert(text::trimmed(x) == x);
        assert(x.subrange(0, keyword.len() as int) =~= keyword);
        assert(text::begins_with(x, keyword));
        let behind = text::after(x, keyword.len() as int);
        assert(behind =~= " "@ + rest);
        assert(behind[0] == ' ');
        assert(behind.drop_first() =~= rest);
        assert(text::trim_start(behind) == text::trim_start(rest));
        lemma_ends_are_apart(rest);
    }
}

proof fn lemma_keyword_in_the_body(keyword: Seq<char>, body: Seq<char>)
    requires
        is_keyword(keyword),
        !leads(bare(body), keyword),
    ensures
        clause_body(keyword, keyword + " "@ + body) == clause_body(keyword, body),
        !(body.len() > 0 && text::is_white_space(body.last()) && bare(body).len() > 0 && bare(
            body,
        ).last() == ';') ==> clause_body(keyword, keyword + " "@ + body + ";"@) == clause_body(
            keyword,
            body,
        ),
{
    reveal_strlit(" ");
    reveal_strlit(";");
    lemma_bare(body);
    assert(without_keyword(bare(body), keyword) == bare(body));

    let e = text::trim_end(body);
    let f = end_stripped(e);
    lemma_trim_end(text::without_trailing(e, ';'));
    let x = keyword + " "@ + body;
    assert(x[0] == keyword[0]);
    assert(text::trim_start(x) == x);
    lemma_behind_a_word(keyword, body);
    lemma_behind_a_word(keyword, e);
    lemma_behind_a_word(keyword, text::without_trailing(e, ';'));
    lemma_bare(x);
    assert(text::trim_end(keyword) == keyword);
    assert(text::without_trailing(keyword, ';') == keyword);
    lemma_keyword_stripped(keyword, f);
    if e.len() == 0 {
        assert(f == Seq::<char>::empty());
        assert(text::trim_start(keyword) == keyword);
        assert(bare(x) == keyword);
    } else {
        assert(end_stripped(text::trim_end(x)) == if f.len() == 0 {
            keyword
        } else {
            keyword + " "@ + f
        });
        assert(end_stripped(text::trim_end(x))[0] == keyword[0]);
        assert(bare(x) == end_stripped(text::trim_end(x)));
    }
    assert(without_keyword(bare(x), keyword) == text::trim_start(f));

    let g = end_stripped(body);
    lemma_trim_end(text::without_trailing(body, ';'));
    let y = x + ";"@;
    assert(y[0] == keyword[0]);
    assert(y.last() == ';');
    assert(y.drop_last() =~= x);
    assert(text::trim_end(y) == y);
    assert(text::without_trailing(y, ';') == keyword + " "@ + text::without_trailing(body, ';'));
    lemma_behind_a_word(keyword, text::without_trailing(body, ';'));
    lemma_bare(y);
    lemma_keyword_stripped(keyword, g);
    assert(end_stripped(text::trim_end(y))[0] == keyword[0]);
    assert(bare(y) == end_stripped(text::trim_end(y)));
    assert(without_keyword(bare(y), keyword) == text::trim_start(g));
    if body.len() > 0 && text::is_white_space(body.last()) {
        assert(text::without_trailing(body, ';') == body);
        assert(g == e);
        let w = text::without_trailing(e, ';');
        lemma_ends_are_apart(e);
        lemma_ends_are_apart(w);
        text::lemma_trim_start(w);
        assert(text::trim_start(text::trim_start(w)) == text::trim_start(w));
        assert(clause_body(keyword, y) == bare(body));
        if !(bare(body).len() > 0 && bare(body).last() == ';') {
            assert(text::without_trailing(bare(body), ';') == bare(body));
        }
    } else {
        assert(e == body);
    }
}

/// A clause comes out the same whether its body is given bare or with the keyword
/// in front of it, and with a semicolon behind that. The body must not bear the
/// keyword already; and where a semicolon is added, a body that ends in white space
/// must not have semicolons in front of it in two places, as in `x; ; `: one more
/// of them is then taken off the bare body.
pub proof fn keyword_in_the_body_changes_nothing(
    keyword: Seq<char>,
    body: Seq<char>,
    behavior: Option<Seq<char>>,
    behaviors: Seq<BehaviorView>,
    path: Seq<char>,
)
    requires
        is_keyword(keyword),
        !leads(bare(body), keyword),
    ensures
        ({
            let borne = keyword + " "@ + body;
            &&& funspec_clause(keyword, borne, behavior, behaviors, path) == funspec_clause(
                keyword,
                body,
                behavior,
                behaviors,
                path,
            )
            &&& loop_clause(keyword, borne, behavior, behaviors, path) == loop_clause(
                keyword,
                body,
                behavior,
                behaviors,
                path,
            )
        }),
        !(body.len() > 0 && text::is_white_space(body.last()) && bare(body).len() > 0 && bare(
            body,
        ).last() == ';') ==> ({
            let borne = keyword + " "@ + body + ";"@;
            &&& funspec_clause(keyword, borne, behavior, behaviors, path) == funspec_clause(
                keyword,
                body,
                behavior,
                behaviors,
                path,
            )
            &&& loop_clause(keyword, borne, behavior, behaviors, path) == loop_clause(
                keyword,
                body,
                behavior,
                behaviors,
                path,
            )
        }),
{
    lemma_keyword_in_the_body(keyword, body);
}

/// A result of texts says what `s` says.
pub open spec fn text_result(r: Result<String, String>, s: Result<Seq<char>, Seq<char>>) -> bool {
    match s {
        Ok(t) => r matches Ok(x) && x@ == t,
        Err(m) => r matches Err(e) && e@ == m,
    }
}

/// Wrap a clause of a function contract, whose body may come bare or with its
/// keyword, as a clause of its own or in a block of the behavior that it names.
/// A behavior that is not declared is an error, which names the place.
pub fn wrap_funspec_clause(
    keyword: &str,
    body: &str,
    behavior: Option<&str>,
    behaviors: &[Behavior],
    proposed_path: &str,
) -> (r: Result<String, String>)
    ensures
        text_result(
            r,
            funspec_clause(
                keyword@,
                body@,
                text::opt_text(behavior),
                behavior_views(behaviors@),
                proposed_path@,
            ),
        ),
{
    let clause = keyword.to_owned().concat(" ").concat(
        clause_body_text(keyword, body).as_str(),
    ).concat(";");
    match behavior {
        None => Ok(clause),
        Some(name) => match lookup_behavior_assumes(behaviors, name) {
            Some(assumes) => {
                let mut block = "behavior ".to_owned().concat(name).concat(":");
                let ghost start = block@;
                let ghost all = text::texts(assumes@);
                let mut i: usize = 0;
                proof {
                    assert(start + assumes_clauses(all.take(0)) =~= start);
                }
                while i < assumes.len()
                    invariant
                        i <= assumes@.len(),
                        all == text::texts(assumes@),
                        block@ == start + assumes_clauses(all.take(i as int)),
                    decreases assumes@.len() - i,
                {
                    let one = " assumes ".to_owned().concat(
                        bare_text(assumes[i].as_str()).as_str(),
                    ).concat(";");
                    block.append(one.as_str());
                    proof {
                        assert(all.take(i + 1).drop_last() =~= all.take(i as int));
                        assert(all.take(i + 1).last() == assumes@[i as int]@);
                        assert(block@ =~= start + assumes_clauses(all.take(i + 1)));
                    }
                    i = i + 1;
                }
                assert(all.take(i as int) =~= all);
                Ok(block.concat(" ").concat(clause.as_str()))
            },
            None => Err(undeclared_text(name, proposed_path)),
        },
    }
}

/// Wrap a clause of a loop (`loop invariant`, `loop assigns`, `loop variant`),
/// with a `for` in front of it where it belongs to a behavior. The behavior's
/// assumptions stand in the function contract and are not repeated.
pub fn wrap_loop_clause(
    keyword: &str,
    body: &str,
    behavior: Option<&str>,
    behaviors: &[Behavior],
    proposed_path: &str,
) -> (r: Result<String, String>)
    ensures
        text_result(
            r,
            loop_clause(
                keyword@,
                body@,
                text::opt_text(behavior),
                behavior_views(behaviors@),
                proposed_path@,
            ),
        ),
{
    let clause = keyword.to_owned().concat(" ").concat(
        clause_body_text(keyword, body).as_str(),
    ).concat(";");
    match behavior {
        None => Ok(clause),
        Some(name) => match lookup_behavior_assumes(behaviors, name) {
            Some(_) => Ok("for ".to_owned().concat(name).concat(": ").concat(clause.as_str())),
            None => Err(undeclared_text(name, proposed_path)),
        },
    }
}

// ── Classification ──────────────────────────────────────────────────────

/// The text behind a leading `for ...:`, or the whole text.
pub open spec fn behind_for(s: Seq<char>) -> Seq<char> {
    if text::begins_with(s, "for "@) && s.contains(':') {
        text::trim_start(text::after(s, s.index_of_first(':')->0 + 1))
    } else {
        s
    }
}

/// The clause, in lowercase and without white space in front, is one of a
/// statement: a clause of a loop or an assertion, for all behaviors or for some.
pub open spec fn is_statement_clause(lower: Seq<char>) -> bool {
    let s = behind_for(lower);
    ||| text::begins_with(s, "loop invariant"@)
    ||| text::begins_with(s, "loop assigns"@)
    ||| text::begins_with(s, "loop variant"@)
    ||| text::begins_with(s, "assert"@)
}

/// The AST kind of a clause given in lowercase: `annot` for a clause of a
/// statement, `spec` for one of a function.
pub fn ast_kind_of_lowered(lower: &str) -> (r: String)
    ensures
        r@ == (if is_statement_clause(lower@) {
            "annot"@
        } else {
            "spec"@
        }),
{
    let v = text::chars_of(lower);
    let mut clause = lower.to_owned();
    if text::starts_with(lower, "for ") {
        let mut i: usize = 0;
        while i < v.len() && v[i] != ':'
            invariant
                i <= v@.len(),
                v@ == lower@,
                forall|j: int| 0 <= j < i ==> #[trigger] v@[j] != ':',
            decreases v@.len() - i,
        {
            i = i + 1;
        }
        if i < v.len() {
            proof {
                assert(v@[i as int] == ':');
                assert(lower@.contains(':'));
                lower@.index_of_first_ensures(':');
                assert(lower@.index_of_first(':')->0 == i);
            }
            let mut k: usize = i + 1;
            let ghost rest = text::after(lower@, i + 1);
            while k < v.len() && text::white_space(v[k])
                invariant
                    i < k <= v@.len(),
                    v@ == lower@,
                    text::trim_start(rest) == text::trim_start(text::after(lower@, k as int)),
                decreases v@.len() - k,
            {
                proof {
                    assert(text::after(lower@, k as int).drop_first() =~= text::after(
                        lower@,
                        k + 1,
                    ));
                }
                k = k + 1;
            }
            clause = text::text_of(&v, k, v.len());
        }
    }
    assert(clause@ == behind_for(lower@));
    if text::starts_with(clause.as_str(), "loop invariant") || text::starts_with(
        clause.as_str(),
        "loop assigns",
    ) || text::starts_with(clause.as_str(), "loop variant") || text::starts_with(
        clause.as_str(),
        "assert",
    ) {
        "annot".to_owned()
    } else {
        "spec".to_owned()
    }
}

/// The AST kind of a clause: `annot` for a clause of a statement (a loop
/// invariant, loop assigns, loop variant or assertion), `spec` for one of a
/// function (requires, ensures, assigns, a behavior).
pub fn acsl_kind_to_ast_kind(acsl: &str) -> (r: String)
    ensures
        r@ == (if is_statement_clause(lowercased(text::trimmed(acsl@))) {
            "annot"@
        } else {
            "spec"@
        }),
        vstd::utf8::is_ascii_chars(text::trimmed(acsl@)) ==> r@ == (if is_statement_clause(
            ascii_lowercased(text::trimmed(acsl@)),
        ) {
            "annot"@
        } else {
            "spec"@
        }),
{
    ast_kind_of_lowered(to_lowercase(text::trim(acsl).as_str()).as_str())
}

/// Why a clause could not be added.
#[derive(Debug, Clone, Copy, PartialEq, Eq, Structural)]
pub enum FailureType {
    /// The clause does not parse.
    SyntaxError,
    /// The clause refers to a name that is not defined.
    ProposedSelfReferential,
    /// A function contract refers to a local variable of the function.
    ProposedLocalVarInFunspec,
    /// Anything else: type errors, duplicates, what is no lvalue in assigns.
    ProposedError,
}

/// What an error message in lowercase is about. A local variable in a function
/// contract goes before an undefined name, that before a syntax error.
pub open spec fn failure_of(lower: Seq<char>) -> FailureType {
    if text::has_text(lower, "function local"@) {
        FailureType::ProposedLocalVarInFunspec
    } else if text::has_text(lower, "unbound"@) || text::has_text(lower, "no such"@)
        || text::has_text(lower, "not found"@) || text::has_text(lower, "unknown identifier"@)
        || text::has_text(lower, "undeclared type"@) || text::has_text(lower, "reference to unknown"@)
        || text::has_text(lower, "cannot find"@) {
        FailureType::ProposedSelfReferential
    } else if text::has_text(lower, "syntax error"@) || text::has_text(lower, "parse error"@)
        || text::has_text(lower, "unexpected"@) || text::has_text(lower, "lexeme"@) {
        FailureType::SyntaxError
    } else {
        FailureType::ProposedError
    }
}

/// What an error message in lowercase is about.
pub fn classify_lowered(lower: &str) -> (r: FailureType)
    ensures
        r == failure_of(lower@),
{
    if text::contains(lower, "function local") {
        FailureType::ProposedLocalVarInFunspec
    } else if text::contains(lower, "unbound") || text::contains(lower, "no such")
        || text::contains(lower, "not found") || text::contains(lower, "unknown identifier")
        || text::contains(lower, "undeclared type") || text::contains(lower, "reference to unknown")
        || text::contains(lower, "cannot find") {
        FailureType::ProposedSelfReferential
    } else if text::contains(lower, "syntax error") || text::contains(lower, "parse error")
        || text::contains(lower, "unexpected") || text::contains(lower, "lexeme") {
        FailureType::SyntaxError
    } else {
        FailureType::ProposedError
    }
}

/// Classify an error message of Frama-C.
pub fn classify_failure(error: &str) -> (r: FailureType)
    ensures
        r == failure_of(lowercased(error@)),
        vstd::utf8::is_ascii_chars(error@) ==> r == failure_of(ascii_lowercased(error@)),
{
    classify_lowered(to_lowercase(error).as_str())
}

/// The pattern of a hash label as a word of its own.
pub const HASH_LABEL_PATTERN: &'static str = "\\b(re|en|as|li|la|lv|at|an)_[0-9a-f]{8}\\b";

/// The kind of a proof goal of the given name, and its hash label: a runtime-error
/// obligation by the words in its name, else a goal of an injected clause by its
/// hash label, else an assertion of the source, else a goal of a specification.
pub open spec fn goal_kind(name: Seq<char>, label: Option<Seq<char>>) -> (
    Seq<char>,
    Option<Seq<char>>,
) {
    let lower = ascii_lowercased(name);
    if text::has_text(lower, "signed_overflow"@) || text::has_text(lower, "unsigned_overflow"@)
        || text::has_text(lower, "integer_overflow"@) || text::has_text(lower, "downcast"@) {
        ("rte_overflow"@, None)
    } else if text::has_text(lower, "index_in_bound"@) || text::has_text(lower, "index_bound"@)
        || text::has_text(lower, "array_bound"@) {
        ("rte_bound"@, None)
    } else if text::has_text(lower, "division_by_zero"@) || text::has_text(lower, "div_by_zero"@)
        || text::has_text(lower, "modulo"@) {
        ("rte_division"@, None)
    } else if text::has_text(lower, "mem_access"@) || text::has_text(lower, "initialization"@)
        || text::has_text(lower, "dangling"@) || text::has_text(lower, "pointer_validity"@) {
        ("rte_pointer"@, None)
    } else if text::has_text(lower, "shift"@) {
        ("rte_shift"@, None)
    } else if label is Some {
        ("spec"@, label)
    } else if text::has_text(lower, "assertion"@) || text::has_text(lower, "user assert"@) {
        ("user_assert"@, None)
    } else {
        ("spec"@, None)
    }
}

/// A kind with an optional label says what `s` says.
pub open spec fn kind_is(
    r: (String, Option<String>),
    s: (Seq<char>, Option<Seq<char>>),
) -> bool {
    &&& r.0@ == s.0
    &&& match s.1 {
        Some(l) => r.1 matches Some(x) && x@ == l,
        None => r.1 is None,
    }
}

/// The kind of a proof goal of the given name, in which the given hash label was
/// found.
pub fn classify_goal_name(name: &str, label: Option<String>) -> (r: (String, Option<String>))
    ensures
        kind_is(
            r,
            goal_kind(
                name@,
                (match label {
                    Some(l) => Some(l@),
                    None => None,
                }),
            ),
        ),
{
    let low = to_ascii_lowercase(name);
    let lower = low.as_str();
    if text::contains(lower, "signed_overflow") || text::contains(lower, "unsigned_overflow")
        || text::contains(lower, "integer_overflow") || text::contains(lower, "downcast") {
        ("rte_overflow".to_owned(), None)
    } else if text::contains(lower, "index_in_bound") || text::contains(lower, "index_bound")
        || text::contains(lower, "array_bound") {
        ("rte_bound".to_owned(), None)
    } else if text::contains(lower, "division_by_zero") || text::contains(lower, "div_by_zero")
        || text::contains(lower, "modulo") {
        ("rte_division".to_owned(), None)
    } else if text::contains(lower, "mem_access") || text::contains(lower, "initialization")
        || text::contains(lower, "dangling") || text::contains(lower, "pointer_validity") {
        ("rte_pointer".to_owned(), None)
    } else if text::contains(lower, "shift") {
        ("rte_shift".to_owned(), None)
    } else {
        match label {
            Some(l) => ("spec".to_owned(), Some(l)),
            None => if text::contains(lower, "assertion") || text::contains(lower, "user assert") {
                ("user_assert".to_owned(), None)
            } else {
                ("spec".to_owned(), None)
            },
        }
    }
}

/// The kind of a proof goal, by the name that Frama-C gives it, and the hash label
/// in that name.
pub fn classify_wp_goal(goal: &Json) -> (r: (String, Option<String>))
    ensures
        kind_is(
            r,
            goal_kind(
                goal@.text_or_empty("name"@),
                regex_found(HASH_LABEL_PATTERN@, goal@.text_or_empty("name"@)),
            ),
        ),
{
    let name = goal.get_str_or_empty("name");
    let label = regex_find(HASH_LABEL_PATTERN, name.as_str());
    classify_goal_name(name.as_str(), label)
}

} // verus!
