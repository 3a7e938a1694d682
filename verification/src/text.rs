//! Text as sequences of characters: the scanning, trimming and formatting that
//! the rest of the library is written in.

use vstd::prelude::*;
use vstd::string::*;

verus! {

/// `String::push` appends one character.
pub assume_specification[ String::push ](s: &mut String, c: char)
    ensures
        final(s)@ == old(s)@.push(c),
;

/// The characters with Unicode's `White_Space` property.
pub open spec fn is_white_space(c: char) -> bool {
    ||| '\t' <= c <= '\r'
    ||| c == ' '
    ||| c == '\u{85}'
    ||| c == '\u{A0}'
    ||| c == '\u{1680}'
    ||| '\u{2000}' <= c <= '\u{200A}'
    ||| c == '\u{2028}'
    ||| c == '\u{2029}'
    ||| c == '\u{202F}'
    ||| c == '\u{205F}'
    ||| c == '\u{3000}'
}

/// Whether `c` is white space.
pub fn white_space(c: char) -> (r: bool)
    ensures
        r == is_white_space(c),
{
    ('\t' <= c && c <= '\r') || c == ' ' || c == '\u{85}' || c == '\u{A0}' || c == '\u{1680}'
        || ('\u{2000}' <= c && c <= '\u{200A}') || c == '\u{2028}' || c == '\u{2029}'
        || c == '\u{202F}' || c == '\u{205F}' || c == '\u{3000}'
}

/// The characters of `s`, in order.
pub fn chars_of(s: &str) -> (r: Vec<char>)
    ensures
        r@ == s@,
{
    let mut r: Vec<char> = Vec::new();
    for c in it: s.chars()
        invariant
            r@ == it.seq().take(it.index()),
            it.seq() == s@,
    {
        r.push(c);
        assert(r@ =~= it.seq().take(it.index() + 1));
    }
    assert(s@.take(s@.len() as int) =~= s@);
    r
}

/// The text made of the characters of `v` from `from` up to `to`.
pub fn text_of(v: &Vec<char>, from: usize, to: usize) -> (r: String)
    requires
        from <= to <= v@.len(),
    ensures
        r@ == v@.subrange(from as int, to as int),
{
    let mut r = String::new();
    let mut i: usize = from;
    while i < to
        invariant
            from <= i <= to <= v@.len(),
            r@ == v@.subrange(from as int, i as int),
        decreases to - i,
    {
        r.push(v[i]);
        i = i + 1;
        assert(r@ =~= v@.subrange(from as int, i as int));
    }
    r
}

/// Whether the two texts are the same.
pub fn same_text(a: &str, b: &str) -> (r: bool)
    ensures
        r == (a@ == b@),
{
    a.to_owned() == b.to_owned()
}

/// `p` stands in `s` from position `i` on.
pub open spec fn occurs_at(s: Seq<char>, p: Seq<char>, i: int) -> bool {
    0 <= i && i + p.len() <= s.len() && s.subrange(i, i + p.len()) == p
}

/// `p` stands somewhere in `s`.
pub open spec fn has_text(s: Seq<char>, p: Seq<char>) -> bool {
    exists|i: int| #[trigger] occurs_at(s, p, i)
}

/// `s` begins with `p`.
pub open spec fn begins_with(s: Seq<char>, p: Seq<char>) -> bool {
    occurs_at(s, p, 0)
}

/// `s` without its first `n` characters.
pub open spec fn after(s: Seq<char>, n: int) -> Seq<char> {
    s.subrange(n, s.len() as int)
}

/// Whether `p` stands in `v` from position `i` on.
pub fn stands_at(v: &Vec<char>, p: &Vec<char>, i: usize) -> (r: bool)
    requires
        i <= v@.len(),
    ensures
        r == occurs_at(v@, p@, i as int),
{
    if v.len() - i < p.len() {
        return false;
    }
    let n: usize = v.len();
    let mut k: usize = 0;
    while k < p.len()
        invariant
            n == v@.len(),
            i + p@.len() <= n,
            k <= p@.len(),
            forall|j: int| 0 <= j < k ==> v@[i + j] == p@[j],
        decreases p@.len() - k,
    {
        if v[i + k] != p[k] {
            assert(v@.subrange(i as int, i + p@.len())[k as int] != p@[k as int]);
            return false;
        }
        k = k + 1;
    }
    assert(v@.subrange(i as int, i + p@.len()) =~= p@);
    true
}

/// Whether `p` stands somewhere in `s`.
pub fn contains(s: &str, p: &str) -> (r: bool)
    ensures
        r == has_text(s@, p@),
{
    let v = chars_of(s);
    let q = chars_of(p);
    let mut i: usize = 0;
    while i <= v.len()
        invariant
            i <= v@.len() + 1,
            v@ == s@,
            q@ == p@,
            forall|j: int| 0 <= j < i ==> !#[trigger] occurs_at(s@, p@, j),
        decreases v@.len() + 1 - i,
    {
        if stands_at(&v, &q, i) {
            return true;
        }
        if i == v.len() {
            return false;
        }
        i = i + 1;
    }
    false
}

/// Whether `s` begins with `p`.
pub fn starts_with(s: &str, p: &str) -> (r: bool)
    ensures
        r == begins_with(s@, p@),
{
    let v = chars_of(s);
    let q = chars_of(p);
    stands_at(&v, &q, 0)
}

/// `s` without its leading `p`, where it begins with `p`.
pub fn strip_prefix(s: &str, p: &str) -> (r: Option<String>)
    ensures
        match r {
            Some(t) => begins_with(s@, p@) && t@ == after(s@, p@.len() as int),
            None => !begins_with(s@, p@),
        },
{
    let v = chars_of(s);
    let q = chars_of(p);
    if stands_at(&v, &q, 0) {
        Some(text_of(&v, q.len(), v.len()))
    } else {
        None
    }
}

/// `s` without its leading white space.
pub open spec fn trim_start(s: Seq<char>) -> Seq<char>
    decreases s.len(),
{
    if s.len() > 0 && is_white_space(s[0]) {
        trim_start(s.drop_first())
    } else {
        s
    }
}

/// `s` without its trailing white space.
pub open spec fn trim_end(s: Seq<char>) -> Seq<char>
    decreases s.len(),
{
    if s.len() > 0 && is_white_space(s.last()) {
        trim_end(s.drop_last())
    } else {
        s
    }
}

/// `s` without the white space at its two ends.
pub open spec fn trimmed(s: Seq<char>) -> Seq<char> {
    trim_end(trim_start(s))
}

/// What is left without leading white space does not begin with any.
pub proof fn lemma_trim_start(s: Seq<char>)
    ensures
        trim_start(s).len() == 0 || !is_white_space(trim_start(s)[0]),
    decreases s.len(),
{
    if s.len() > 0 && is_white_space(s[0]) {
        lemma_trim_start(s.drop_first());
    }
}

proof fn lemma_trim_end(s: Seq<char>)
    ensures
        trim_end(trim_end(s)) == trim_end(s),
        trim_end(s).len() > 0 ==> trim_end(s)[0] == s[0],
    decreases s.len(),
{
    if s.len() > 0 && is_white_space(s.last()) {
        lemma_trim_end(s.drop_last());
    }
}

/// Trimming twice is the same as trimming once.
pub proof fn lemma_trimmed(s: Seq<char>)
    ensures
        trimmed(trimmed(s)) == trimmed(s),
{
    lemma_trim_start(s);
    lemma_trim_end(trim_start(s));
    assert(trim_start(trimmed(s)) == trimmed(s));
}

/// `s` without the occurrences of `c` at its end.
pub open spec fn without_trailing(s: Seq<char>, c: char) -> Seq<char>
    decreases s.len(),
{
    if s.len() > 0 && s.last() == c {
        without_trailing(s.drop_last(), c)
    } else {
        s
    }
}

/// `s` without the white space at its two ends.
pub fn trim(s: &str) -> (r: String)
    ensures
        r@ == trimmed(s@),
{
    let v = chars_of(s);
    let mut i: usize = 0;
    proof {
        assert(after(s@, 0) =~= s@);
    }
    while i < v.len() && white_space(v[i])
        invariant
            i <= v@.len(),
            v@ == s@,
            trim_start(s@) == trim_start(after(s@, i as int)),
        decreases v@.len() - i,
    {
        proof {
            assert(after(s@, i as int).drop_first() =~= after(s@, i + 1));
        }
        i = i + 1;
    }
    let ghost t = after(s@, i as int);
    assert(trim_start(t) == t);
    let mut j: usize = v.len();
    proof {
        assert(s@.subrange(i as int, j as int) =~= t);
    }
    while i < j && white_space(v[j - 1])
        invariant
            i <= j <= v@.len(),
            v@ == s@,
            t == after(s@, i as int),
            trim_end(t) == trim_end(s@.subrange(i as int, j as int)),
        decreases j - i,
    {
        proof {
            assert(s@.subrange(i as int, j as int).drop_last() =~= s@.subrange(i as int, j - 1));
        }
        j = j - 1;
    }
    text_of(&v, i, j)
}

/// `s` without the occurrences of `c` at its end.
pub fn trim_end_matches(s: &str, c: char) -> (r: String)
    ensures
        r@ == without_trailing(s@, c),
{
    let v = chars_of(s);
    let mut j: usize = v.len();
    proof {
        assert(s@.subrange(0, j as int) =~= s@);
    }
    while 0 < j && v[j - 1] == c
        invariant
            j <= v@.len(),
            v@ == s@,
            without_trailing(s@, c) == without_trailing(s@.subrange(0, j as int), c),
        decreases j,
    {
        proof {
            assert(s@.subrange(0, j as int).drop_last() =~= s@.subrange(0, j - 1));
        }
        j = j - 1;
    }
    text_of(&v, 0, j)
}

/// `s` with `to` in place of each `from`.
pub open spec fn with_char_replaced(s: Seq<char>, from: char, to: char) -> Seq<char> {
    s.map_values(|c: char| if c == from { to } else { c })
}

/// `s` with `to` in place of each `from`.
pub fn replace_char(s: &str, from: char, to: char) -> (r: String)
    ensures
        r@ == with_char_replaced(s@, from, to),
{
    let v = chars_of(s);
    let mut r = String::new();
    let mut i: usize = 0;
    while i < v.len()
        invariant
            i <= v@.len(),
            v@ == s@,
            r@ =~= with_char_replaced(s@, from, to).take(i as int),
        decreases v@.len() - i,
    {
        r.push(if v[i] == from { to } else { v[i] });
        i = i + 1;
    }
    r
}

/// The decimal digit of value `d`.
pub open spec fn digit(d: nat) -> char {
    ('0' as u32 + d) as char
}

/// `n` in decimal.
pub open spec fn decimal(n: nat) -> Seq<char>
    decreases n,
{
    if n < 10 {
        seq![digit(n)]
    } else {
        decimal(n / 10).push(digit(n % 10))
    }
}

/// `n` in decimal, with a leading `-` where it is negative.
pub open spec fn signed_decimal(n: int) -> Seq<char> {
    if n < 0 {
        seq!['-'] + decimal((-n) as nat)
    } else {
        decimal(n as nat)
    }
}

fn digit_char(d: u64) -> (c: char)
    requires
        d < 10,
    ensures
        c == digit(d as nat),
{
    (48 + d as u8) as char
}

/// `n` in decimal.
pub fn decimal_text(n: u64) -> (r: String)
    ensures
        r@ == decimal(n as nat),
    decreases n,
{
    if n < 10 {
        let mut r = String::new();
        r.push(digit_char(n));
        assert(r@ =~= seq![digit(n as nat)]);
        r
    } else {
        let mut r = decimal_text(n / 10);
        r.push(digit_char(n % 10));
        r
    }
}

/// `n` in decimal, with a leading `-` where it is negative.
pub fn signed_decimal_text(n: i64) -> (r: String)
    ensures
        r@ == signed_decimal(n as int),
{
    if n < 0 {
        let magnitude: u64 = (-(n as i128)) as u64;
        let mut r = String::new();
        r.push('-');
        let d = decimal_text(magnitude);
        r.append(d.as_str());
        assert(r@ =~= seq!['-'] + decimal((-n) as nat));
        r
    } else {
        decimal_text(n as u64)
    }
}

/// The texts of `parts`, one after the other, with `sep` between neighbours.
pub open spec fn joined(parts: Seq<Seq<char>>, sep: Seq<char>) -> Seq<char>
    decreases parts.len(),
{
    if parts.len() == 0 {
        Seq::empty()
    } else if parts.len() == 1 {
        parts[0]
    } else {
        joined(parts.drop_last(), sep) + sep + parts.last()
    }
}

/// The contents of a list of texts.
pub open spec fn texts(v: Seq<String>) -> Seq<Seq<char>> {
    v.map_values(|s: String| s@)
}

/// The texts of `parts`, one after the other, with `sep` between neighbours.
pub fn join(parts: &Vec<String>, sep: &str) -> (r: String)
    ensures
        r@ == joined(texts(parts@), sep@),
{
    let mut r = String::new();
    let mut i: usize = 0;
    assert(texts(parts@).take(0) =~= Seq::<Seq<char>>::empty());
    while i < parts.len()
        invariant
            i <= parts@.len(),
            r@ == joined(texts(parts@).take(i as int), sep@),
        decreases parts@.len() - i,
    {
        let ghost now = texts(parts@).take(i as int);
        let ghost next = texts(parts@).take(i + 1);
        assert(next.drop_last() =~= now);
        if i > 0 {
            r.append(sep);
        }
        r.append(parts[i].as_str());
        assert(i == 0 ==> r@ =~= parts@[0]@);
        i = i + 1;
    }
    assert(texts(parts@).take(i as int) =~= texts(parts@));
    r
}

/// `a` stands before `b` in the order of texts, or is `b`: the first characters
/// in which they differ decide, and a text stands before its continuations.
pub open spec fn text_le(a: Seq<char>, b: Seq<char>) -> bool
    decreases a.len(),
{
    if a.len() == 0 {
        true
    } else if b.len() == 0 {
        false
    } else if a[0] != b[0] {
        a[0] < b[0]
    } else {
        text_le(a.drop_first(), b.drop_first())
    }
}

/// The order of texts is a total order.
pub proof fn text_order_is_total(a: Seq<char>, b: Seq<char>, c: Seq<char>)
    ensures
        text_le(a, a),
        text_le(a, b) || text_le(b, a),
        text_le(a, b) && text_le(b, a) ==> a == b,
        text_le(a, b) && text_le(b, c) ==> text_le(a, c),
    decreases a.len(),
{
    if a.len() > 0 {
        if b.len() > 0 && c.len() > 0 {
            text_order_is_total(a.drop_first(), b.drop_first(), c.drop_first());
            assert(seq![a[0]] + a.drop_first() =~= a);
            assert(seq![b[0]] + b.drop_first() =~= b);
        } else if b.len() > 0 {
            text_order_is_total(a.drop_first(), b.drop_first(), c);
            assert(seq![a[0]] + a.drop_first() =~= a);
            assert(seq![b[0]] + b.drop_first() =~= b);
        } else {
            text_order_is_total(a.drop_first(), b, c);
        }
    } else {
        assert(b.len() == 0 ==> a =~= b);
    }
}

/// Whether `a` stands before `b` in the order of texts, or is `b`.
pub fn in_order(a: &str, b: &str) -> (r: bool)
    ensures
        r == text_le(a@, b@),
{
    let v = chars_of(a);
    let w = chars_of(b);
    let mut i: usize = 0;
    proof {
        assert(after(a@, 0) =~= a@);
        assert(after(b@, 0) =~= b@);
    }
    while i < v.len() && i < w.len() && v[i] == w[i]
        invariant
            v@ == a@,
            w@ == b@,
            i <= v@.len(),
            i <= w@.len(),
            text_le(a@, b@) == text_le(after(a@, i as int), after(b@, i as int)),
        decreases v@.len() - i,
    {
        proof {
            assert(after(a@, i as int).drop_first() =~= after(a@, i + 1));
            assert(after(b@, i as int).drop_first() =~= after(b@, i + 1));
        }
        i = i + 1;
    }
    if i == v.len() {
        true
    } else if i == w.len() {
        false
    } else {
        v[i] < w[i]
    }
}

/// The texts stand in order.
pub open spec fn ordered(s: Seq<Seq<char>>) -> bool {
    forall|i: int, j: int|
        #![trigger s[i], s[j]]
        0 <= i <= j < s.len() ==> text_le(s[i], s[j])
}

/// Between a text that it does not precede and one that it does, `x` keeps a list
/// in order.
pub proof fn lemma_ordered_insert(s: Seq<Seq<char>>, i: int, x: Seq<char>)
    requires
        ordered(s),
        0 <= i <= s.len(),
        i > 0 ==> text_le(s[i - 1], x),
        i < s.len() ==> text_le(x, s[i]),
    ensures
        ordered(s.insert(i, x)),
        s.insert(i, x).to_multiset() == s.to_multiset().insert(x),
{
    let r = s.insert(i, x);
    assert forall|a: int, b: int|
        #![trigger r[a], r[b]]
        0 <= a <= b < r.len() implies text_le(r[a], r[b]) by {
        text_order_is_total(x, x, x);
        if a < i && b == i {
            text_order_is_total(s[a], s[i - 1], x);
        } else if a == i && b > i {
            text_order_is_total(x, s[i], s[b - 1]);
        }
    }
    vstd::seq_lib::to_multiset_insert(s, i, x);
}

/// Puts the texts in order.
pub fn sort(v: &mut Vec<String>)
    ensures
        ordered(texts(final(v)@)),
        texts(final(v)@).to_multiset() == texts(old(v)@).to_multiset(),
{
    let ghost before = v@;
    let mut r: Vec<String> = Vec::new();
    let mut n: usize = 0;
    proof {
        assert(texts(r@) =~= texts(before).take(0));
    }
    while n < v.len()
        invariant
            n <= v@.len(),
            v@ == before,
            r@.len() == n,
            ordered(texts(r@)),
            texts(r@).to_multiset() == texts(before).take(n as int).to_multiset(),
        decreases v@.len() - n,
    {
        let x = v[n].clone();
        let mut i: usize = r.len();
        while i > 0 && !in_order(r[i - 1].as_str(), x.as_str())
            invariant
                i <= r@.len(),
                forall|j: int| i <= j < r@.len() ==> !text_le((#[trigger] r@[j])@, x@),
            decreases i,
        {
            i = i - 1;
        }
        proof {
            let s = texts(r@);
            if i < r@.len() {
                text_order_is_total(x@, s[i as int], x@);
                assert(!text_le(r@[i as int]@, x@));
            }
            lemma_ordered_insert(s, i as int, x@);
            assert(texts(r@.insert(i as int, x)) =~= s.insert(i as int, x@));
            let t = texts(before);
            assert(t.take(n + 1) =~= t.take(n as int).push(x@));
            vstd::seq_lib::to_multiset_build(t.take(n as int), x@);
        }
        r.insert(i, x);
        n = n + 1;
    }
    proof {
        assert(texts(before).take(n as int) =~= texts(before));
    }
    *v = r;
}

/// The position of the first line feed at or behind `k`, or the end.
pub open spec fn line_end(s: Seq<char>, k: int) -> int
    decreases s.len() - k,
{
    if k < 0 || k >= s.len() {
        s.len() as int
    } else if s[k] == '\n' {
        k
    } else {
        line_end(s, k + 1)
    }
}

pub proof fn lemma_line_end(s: Seq<char>, k: int)
    requires
        0 <= k <= s.len(),
    ensures
        k <= line_end(s, k) <= s.len(),
    decreases s.len() - k,
{
    if k < s.len() && s[k] != '\n' {
        lemma_line_end(s, k + 1);
    }
}

/// The lines of `s` from position `k` on: what stands between line feeds, without
/// a carriage return right before one. A line feed at the end starts no line.
pub open spec fn lines_from(s: Seq<char>, k: int) -> Seq<Seq<char>>
    decreases s.len() + 1 - k,
{
    if k < 0 || k >= s.len() {
        Seq::empty()
    } else {
        proof {
            lemma_line_end(s, k);
        }
        let e = line_end(s, k);
        let line = s.subrange(k, e);
        seq![
            if e < s.len() && line.len() > 0 && line.last() == '\r' {
                line.drop_last()
            } else {
                line
            },
        ] + lines_from(s, e + 1)
    }
}

/// The lines of `s`.
pub open spec fn lines_of(s: Seq<char>) -> Seq<Seq<char>> {
    lines_from(s, 0)
}

/// The lines of `s`.
pub fn lines(s: &str) -> (r: Vec<String>)
    ensures
        texts(r@) == lines_of(s@),
{
    let v = chars_of(s);
    let mut r: Vec<String> = Vec::new();
    let mut k: usize = 0;
    proof {
        assert(texts(r@) + lines_from(s@, 0) =~= lines_of(s@));
    }
    while k < v.len()
        invariant
            v@ == s@,
            k <= v@.len(),
            texts(r@) + lines_from(s@, k as int) == lines_of(s@),
        decreases v@.len() - k,
    {
        let n: usize = v.len();
        let mut e: usize = k;
        while e < v.len() && v[e] != '\n'
            invariant
                v@ == s@,
                n == v@.len(),
                k <= e <= n,
                line_end(s@, k as int) == line_end(s@, e as int),
            decreases v@.len() - e,
        {
            e = e + 1;
        }
        assert(line_end(s@, k as int) == e);
        let ghost before = texts(r@);
        let ghost line = s@.subrange(k as int, e as int);
        let to: usize = if e < n && e > k && v[e - 1] == '\r' {
            e - 1
        } else {
            e
        };
        let one = text_of(&v, k, to);
        let ghost found = one@;
        proof {
            assert(e > k ==> line.last() == s@[e - 1]);
            if e < n && e > k && s@[e - 1] == '\r' {
                assert(found =~= line.drop_last());
            } else {
                assert(found =~= line);
            }
            assert(texts(r@.push(one)) =~= before.push(found));
            assert(before + (seq![found] + lines_from(s@, e + 1)) =~= before.push(found)
                + lines_from(s@, e + 1));
        }
        r.push(one);
        k = if e < n {
            e + 1
        } else {
            e
        };
        proof {
            if e == n {
                assert(lines_from(s@, e + 1) =~= Seq::<Seq<char>>::empty());
                assert(lines_from(s@, e as int) =~= Seq::<Seq<char>>::empty());
            }
        }
    }
    proof {
        assert(lines_from(s@, k as int) =~= Seq::<Seq<char>>::empty());
        assert(texts(r@) + Seq::<Seq<char>>::empty() =~= texts(r@));
    }
    r
}

/// The place of the first `c` at or after `k`, or the length where there is none.
pub open spec fn place_of(s: Seq<char>, c: char, k: int) -> int
    decreases s.len() - k,
{
    if k >= s.len() || s[k] == c {
        k
    } else {
        place_of(s, c, k + 1)
    }
}

/// The place of the first `c` is not past the end, holds `c` where it is not the
/// end, and none stands before it.
pub proof fn lemma_place_of(s: Seq<char>, c: char, k: int)
    requires
        0 <= k <= s.len(),
    ensures
        k <= place_of(s, c, k) <= s.len(),
        place_of(s, c, k) < s.len() ==> s[place_of(s, c, k)] == c,
        forall|j: int| k <= j < place_of(s, c, k) ==> #[trigger] s[j] != c,
    decreases s.len() - k,
{
    if k < s.len() && s[k] != c {
        lemma_place_of(s, c, k + 1);
    }
}

/// What stands before and behind the first `c`, where there is one.
pub open spec fn split_at_first(s: Seq<char>, c: char) -> Option<(Seq<char>, Seq<char>)> {
    let i = place_of(s, c, 0);
    if i < s.len() {
        Some((s.take(i), s.skip(i + 1)))
    } else {
        None
    }
}

/// Cuts `s` at the first `c`, where there is one.
pub fn split_once(s: &str, c: char) -> (r: Option<(String, String)>)
    ensures
        match split_at_first(s@, c) {
            Some(p) => r matches Some(q) && q.0@ == p.0 && q.1@ == p.1,
            None => r is None,
        },
{
    let v = chars_of(s);
    let mut i: usize = 0;
    while i < v.len() && v[i] != c
        invariant
            v@ == s@,
            i <= v@.len(),
            place_of(s@, c, 0) == place_of(s@, c, i as int),
        decreases v@.len() - i,
    {
        i = i + 1;
    }
    if i < v.len() {
        let before = text_of(&v, 0, i);
        let behind = text_of(&v, i + 1, v.len());
        assert(before@ =~= s@.take(i as int));
        assert(behind@ =~= s@.skip(i + 1));
        Some((before, behind))
    } else {
        None
    }
}

/// The character stands in the text.
pub fn has_char(s: &str, c: char) -> (r: bool)
    ensures
        r == s@.contains(c),
{
    let v = chars_of(s);
    let mut i: usize = 0;
    while i < v.len()
        invariant
            v@ == s@,
            i <= v@.len(),
            forall|j: int| 0 <= j < i ==> #[trigger] s@[j] != c,
        decreases v@.len() - i,
    {
        if v[i] == c {
            assert(s@[i as int] == c);
            return true;
        }
        i = i + 1;
    }
    false
}

/// A text that holds `c` can be cut at it, and no other.
pub proof fn lemma_split_where_contained(s: Seq<char>, c: char)
    ensures
        split_at_first(s, c) is Some <==> s.contains(c),
{
    lemma_place_of(s, c, 0);
    if s.contains(c) {
        let j = choose|j: int| 0 <= j < s.len() && s[j] == c;
        assert(s[j] == c);
    }
}

/// `s` with every `p` in it, from the left, replaced by `q`.
pub open spec fn replaced(s: Seq<char>, p: Seq<char>, q: Seq<char>) -> Seq<char>
    decreases s.len(),
{
    if p.len() == 0 || s.len() < p.len() {
        s
    } else if begins_with(s, p) {
        q + replaced(s.skip(p.len() as int), p, q)
    } else {
        seq![s[0]] + replaced(s.drop_first(), p, q)
    }
}

/// Replaces every `p` in `s`, from the left, by `q`.
pub fn replace(s: &str, p: &str, q: &str) -> (r: String)
    requires
        p@.len() > 0,
    ensures
        r@ == replaced(s@, p@, q@),
{
    let v = chars_of(s);
    let w = chars_of(p);
    let mut r = String::new();
    let mut i: usize = 0;
    assert(s@.skip(0) =~= s@);
    assert(r@ + replaced(s@, p@, q@) =~= replaced(s@, p@, q@));
    while w.len() <= v.len() - i
        invariant
            v@ == s@,
            w@ == p@,
            p@.len() > 0,
            i <= v@.len(),
            replaced(s@, p@, q@) == r@ + replaced(s@.skip(i as int), p@, q@),
        decreases v@.len() - i,
    {
        let ghost rest = s@.skip(i as int);
        assert(rest.subrange(0, p@.len() as int) =~= s@.subrange(i as int, i + p@.len()));
        if stands_at(&v, &w, i) {
            proof {
                assert(begins_with(rest, p@));
                assert(rest.skip(p@.len() as int) =~= s@.skip(i + p@.len()));
                let after = replaced(s@.skip(i + p@.len()), p@, q@);
                assert(r@ + (q@ + after) =~= (r@ + q@) + after);
            }
            r.append(q);
            i = i + w.len();
        } else {
            proof {
                assert(!begins_with(rest, p@));
                assert(rest[0] == s@[i as int]);
                assert(rest.drop_first() =~= s@.skip(i + 1));
                let after = replaced(s@.skip(i + 1), p@, q@);
                assert(r@ + (seq![rest[0]] + after) =~= r@.push(rest[0]) + after);
            }
            r.push(v[i]);
            i = i + 1;
        }
    }
    let end = text_of(&v, i, v.len());
    assert(end@ =~= s@.skip(i as int));
    r.append(end.as_str());
    r
}

/// The view of a text that may be there.
pub open spec fn opt_text(s: Option<&str>) -> Option<Seq<char>> {
    match s {
        Some(t) => Some(t@),
        None => None,
    }
}

/// The view of a text that may be there.
pub open spec fn opt_string(s: Option<String>) -> Option<Seq<char>> {
    match s {
        Some(t) => Some(t@),
        None => None,
    }
}

/// The text that may be there, as a slice.
pub fn opt_str(s: &Option<String>) -> (r: Option<&str>)
    ensures
        opt_text(r) == opt_string(*s),
{
    match s {
        Some(t) => Some(t.as_str()),
        None => None,
    }
}

// ── Laws ────────────────────────────────────────────────────────────────

/// Nothing but white space.
pub open spec fn is_blank(s: Seq<char>) -> bool {
    forall|i: int| 0 <= i < s.len() ==> is_white_space(#[trigger] s[i])
}

/// Trimming takes white space off the two ends, and nothing else: what is left has
/// none there, and with what was taken off it is the text.
pub proof fn trimming_takes_white_space_only(s: Seq<char>)
    ensures
        trimmed(s).len() > 0 ==> !is_white_space(trimmed(s)[0]) && !is_white_space(
            trimmed(s).last(),
        ),
        exists|a: Seq<char>, b: Seq<char>|
            #![trigger is_blank(a), is_blank(b)]
            is_blank(a) && is_blank(b) && s == a + trimmed(s) + b,
{
    let t = trim_start(s);
    let a = lemma_trimmed_front(s);
    let b = lemma_trimmed_back(t);
    lemma_trim_start(s);
    lemma_trim_end(t);
    assert(s =~= a + trimmed(s) + b);
}

proof fn lemma_trimmed_front(s: Seq<char>) -> (a: Seq<char>)
    ensures
        is_blank(a),
        s == a + trim_start(s),
    decreases s.len(),
{
    if s.len() > 0 && is_white_space(s[0]) {
        let rest = lemma_trimmed_front(s.drop_first());
        let a = seq![s[0]] + rest;
        assert forall|i: int| 0 <= i < a.len() implies is_white_space(#[trigger] a[i]) by {
            if i > 0 {
                assert(a[i] == rest[i - 1]);
            }
        }
        assert(s =~= seq![s[0]] + s.drop_first());
        assert(seq![s[0]] + (rest + trim_start(s)) =~= a + trim_start(s));
        a
    } else {
        assert(s =~= Seq::<char>::empty() + trim_start(s));
        Seq::empty()
    }
}

proof fn lemma_trimmed_back(s: Seq<char>) -> (b: Seq<char>)
    ensures
        is_blank(b),
        s == trim_end(s) + b,
        trim_end(s).len() > 0 ==> !is_white_space(trim_end(s).last()),
    decreases s.len(),
{
    if s.len() > 0 && is_white_space(s.last()) {
        let rest = lemma_trimmed_back(s.drop_last());
        let b = rest.push(s.last());
        assert forall|i: int| 0 <= i < b.len() implies is_white_space(#[trigger] b[i]) by {
            if i < rest.len() {
                assert(b[i] == rest[i]);
            }
        }
        assert(s =~= s.drop_last().push(s.last()));
        assert((trim_end(s) + rest).push(s.last()) =~= trim_end(s) + b);
        b
    } else {
        assert(s =~= trim_end(s) + Seq::<char>::empty());
        Seq::empty()
    }
}

/// Texts are ordered by the first character in which they differ; a text comes before
/// those that it begins.
pub proof fn first_difference_orders_texts(
    front: Seq<char>,
    a: char,
    b: char,
    s: Seq<char>,
    t: Seq<char>,
)
    ensures
        text_le(front, front + s),
        s.len() > 0 ==> !text_le(front + s, front),
        a < b ==> text_le(front + seq![a] + s, front + seq![b] + t) && !text_le(
            front + seq![b] + t,
            front + seq![a] + s,
        ),
    decreases front.len(),
{
    let x = front + seq![a] + s;
    let y = front + seq![b] + t;
    if front.len() > 0 {
        let rest = front.drop_first();
        first_difference_orders_texts(rest, a, b, s, t);
        assert((front + s).drop_first() =~= rest + s);
        assert(x.drop_first() =~= rest + seq![a] + s);
        assert(y.drop_first() =~= rest + seq![b] + t);
        assert(x[0] == front[0] && y[0] == front[0] && (front + s)[0] == front[0]);
    } else {
        assert(x[0] == a && y[0] == b);
        assert(front + s =~= s);
    }
}

} // verus!
