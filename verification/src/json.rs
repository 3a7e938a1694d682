//! JSON values: the library's own type, its mathematical view, and the passage
//! to and from JSON text.
//!
//! Parsing and printing are `serde_json`'s. Everything else (looking up a
//! field, reading a number, walking a tree) is done here, on [`Json`].

use vstd::prelude::*;

use crate::text;
use crate::text::same_text;

verus! {

/// `serde_json::Number`, a JSON number.
#[verifier::external_type_specification]
#[verifier::external_body]
pub struct ExNumber(serde_json::Number);

/// `serde_json::Value`, a JSON value.
#[verifier::external_type_specification]
#[verifier::external_body]
pub struct ExValue(serde_json::Value);

/// The number that a `serde_json::Number` holds.
pub uninterp spec fn number_contents(n: serde_json::Number) -> NumberView;

/// The value that a `serde_json::Value` holds.
pub uninterp spec fn value_contents(v: serde_json::Value) -> JsonView;

/// What `serde_json::from_str::<serde_json::Value>` makes of a text: the value
/// that it denotes, or the text of the error.
pub uninterp spec fn json_parsed(text: Seq<char>) -> Result<JsonView, Seq<char>>;

/// The compact text of a value, as `serde_json` prints it.
pub uninterp spec fn json_text(v: JsonView) -> Seq<char>;

/// The indented text of a value, as `serde_json` prints it.
pub uninterp spec fn json_pretty_text(v: JsonView) -> Seq<char>;

/// `serde_json::Number::as_u64` gives a number that fits in a `u64`, and
/// nothing for any other.
pub assume_specification[ serde_json::Number::as_u64 ](n: &serde_json::Number) -> (r: Option<u64>)
    ensures
        match r {
            Some(u) => number_contents(*n) == NumberView::Int(u as int),
            None => number_contents(*n).unsigned() is None,
        },
;

/// `serde_json::Number::as_i64` gives a number that fits in an `i64`, and
/// nothing for any other.
pub assume_specification[ serde_json::Number::as_i64 ](n: &serde_json::Number) -> (r: Option<i64>)
    ensures
        match r {
            Some(i) => number_contents(*n) == NumberView::Int(i as int),
            None => number_contents(*n).signed() is None,
        },
;

/// The derived `serde_json::Number::clone` copies the number.
pub assume_specification[ <serde_json::Number as Clone>::clone ](n: &serde_json::Number) -> (r:
    serde_json::Number)
    ensures
        r == *n,
;

/// One level of a `serde_json::Value`.
pub enum ValueNode {
    Null,
    Bool(bool),
    Number(serde_json::Number),
    Text(String),
    List(Vec<serde_json::Value>),
    Record(Vec<(String, serde_json::Value)>),
}

/// The fields that a list of `serde_json` values with their names stands for.
pub open spec fn fields_contents(fields: Seq<(String, serde_json::Value)>) -> Seq<
    (Seq<char>, JsonView),
> {
    fields.map_values(|f: (String, serde_json::Value)| (f.0@, value_contents(f.1)))
}

/// The value that one level of a `serde_json::Value` stands for.
pub open spec fn node_contents(n: ValueNode) -> JsonView {
    match n {
        ValueNode::Null => JsonView::Null,
        ValueNode::Bool(b) => JsonView::Bool(b),
        ValueNode::Number(x) => JsonView::Number(number_contents(x)),
        ValueNode::Text(s) => JsonView::Text(s@),
        ValueNode::List(items) => JsonView::List(
            items@.map_values(|v: serde_json::Value| value_contents(v)),
        ),
        ValueNode::Record(fields) => JsonView::Record(fields_contents(fields@)),
    }
}

/// Takes a `serde_json::Value` apart, one level deep. The fields of an object
/// come in their order, no two of one name, as `serde_json::Map` holds them.
#[verifier::external_body]
fn open_value(v: serde_json::Value) -> (r: ValueNode)
    ensures
        node_contents(r) == value_contents(v),
        match r {
            ValueNode::Record(fields) => distinct_keys(fields_contents(fields@)),
            _ => true,
        },
{
    match v {
        serde_json::Value::Null => ValueNode::Null,
        serde_json::Value::Bool(b) => ValueNode::Bool(b),
        serde_json::Value::Number(n) => ValueNode::Number(n),
        serde_json::Value::String(s) => ValueNode::Text(s),
        serde_json::Value::Array(items) => ValueNode::List(items),
        serde_json::Value::Object(map) => ValueNode::Record(map.into_iter().collect()),
    }
}

/// Puts a `serde_json::Value` together from one level of it: the fields of an
/// object are collected into a `serde_json::Map`, which keeps their order.
#[verifier::external_body]
fn close_value(n: ValueNode) -> (r: serde_json::Value)
    requires
        match n {
            ValueNode::Record(fields) => distinct_keys(fields_contents(fields@)),
            _ => true,
        },
    ensures
        value_contents(r) == node_contents(n),
{
    match n {
        ValueNode::Null => serde_json::Value::Null,
        ValueNode::Bool(b) => serde_json::Value::Bool(b),
        ValueNode::Number(x) => serde_json::Value::Number(x),
        ValueNode::Text(s) => serde_json::Value::String(s),
        ValueNode::List(items) => serde_json::Value::Array(items),
        ValueNode::Record(fields) => serde_json::Value::Object(fields.into_iter().collect()),
    }
}

/// `serde_json::Number::from` on a `u64` holds that number.
#[verifier::external_body]
fn number_of_unsigned(n: u64) -> (r: serde_json::Number)
    ensures
        number_contents(r) == NumberView::Int(n as int),
{
    serde_json::Number::from(n)
}

/// `serde_json::Number::from` on an `i64` holds that number.
#[verifier::external_body]
fn number_of_signed(n: i64) -> (r: serde_json::Number)
    ensures
        number_contents(r) == NumberView::Int(n as int),
{
    serde_json::Number::from(n)
}

/// `serde_json::from_str` reads one JSON value from a text; its result, the
/// text of an error included, depends on the text alone.
#[verifier::external_body]
fn parse_value(text: &str) -> (r: Result<serde_json::Value, String>)
    ensures
        match r {
            Ok(v) => json_parsed(text@) == Ok::<JsonView, Seq<char>>(value_contents(v)),
            Err(e) => json_parsed(text@) == Err::<JsonView, Seq<char>>(e@),
        },
{
    serde_json::from_str::<serde_json::Value>(text).map_err(|e| e.to_string())
}

/// The `Display` of `serde_json::Value` prints the value compactly. Read back,
/// the text gives the value again, where every number in it is whole and it is
/// nested no deeper than the reader goes (its limit of 128 admits 127 levels).
#[verifier::external_body]
fn print_value(v: &serde_json::Value) -> (r: String)
    ensures
        r@ == json_text(value_contents(*v)),
        value_contents(*v).prints_back() ==> reads_as(r@, value_contents(*v)),
{
    v.to_string()
}

/// The alternate `Display` of `serde_json::Value`, which is what
/// `serde_json::to_string_pretty` writes, prints the value with indentation.
/// Read back, the text gives the value again, within the same limits as the
/// compact text.
#[verifier::external_body]
fn print_value_pretty(v: &serde_json::Value) -> (r: String)
    ensures
        r@ == json_pretty_text(value_contents(*v)),
        value_contents(*v).prints_back() ==> reads_as(r@, value_contents(*v)),
{
    format!("{v:#}")
}

/// What a JSON number is: a whole number or, for any other, the text that
/// stands for it.
pub enum NumberView {
    Int(int),
    Float(Seq<char>),
}

/// What a JSON value is. A record lists its fields in order.
pub enum JsonView {
    Null,
    Bool(bool),
    Number(NumberView),
    Text(Seq<char>),
    List(Seq<JsonView>),
    Record(Seq<(Seq<char>, JsonView)>),
}

/// The value of the first field named `key`.
pub open spec fn lookup(fields: Seq<(Seq<char>, JsonView)>, key: Seq<char>) -> Option<JsonView>
    decreases fields.len(),
{
    if fields.len() == 0 {
        None
    } else if fields[0].0 == key {
        Some(fields[0].1)
    } else {
        lookup(fields.drop_first(), key)
    }
}

/// `fields` with the value of `key` set: in its place where it is there, else
/// at the end.
pub open spec fn with_field(
    fields: Seq<(Seq<char>, JsonView)>,
    key: Seq<char>,
    value: JsonView,
) -> Seq<(Seq<char>, JsonView)>
    decreases fields.len(),
{
    if fields.len() == 0 {
        seq![(key, value)]
    } else if fields[0].0 == key {
        fields.update(0, (key, value))
    } else {
        seq![fields[0]] + with_field(fields.drop_first(), key, value)
    }
}

/// The text is read as the value `v`.
pub open spec fn reads_as(text: Seq<char>, v: JsonView) -> bool {
    json_parsed(text) == Ok::<JsonView, Seq<char>>(v)
}

/// No two fields have the same name.
pub open spec fn distinct_keys(fields: Seq<(Seq<char>, JsonView)>) -> bool {
    forall|i: int, j: int|
        #![trigger fields[i], fields[j]]
        0 <= i < j < fields.len() ==> fields[i].0 != fields[j].0
}

impl NumberView {
    /// The number, where it is a whole number that fits in an `i64`.
    pub open spec fn signed(self) -> Option<int> {
        match self {
            NumberView::Int(n) => if i64::MIN <= n <= i64::MAX {
                Some(n)
            } else {
                None
            },
            _ => None,
        }
    }

    /// The number, where it is a whole number that fits in a `u64`.
    pub open spec fn unsigned(self) -> Option<nat> {
        match self {
            NumberView::Int(n) => if 0 <= n <= u64::MAX {
                Some(n as nat)
            } else {
                None
            },
            _ => None,
        }
    }
}

/// The whole number `n` as a value.
pub open spec fn whole(n: int) -> JsonView {
    JsonView::Number(NumberView::Int(n))
}

/// The record without fields.
pub open spec fn no_fields() -> JsonView {
    JsonView::Record(Seq::empty())
}

/// The list of texts as a value.
pub open spec fn text_list(l: Seq<Seq<char>>) -> JsonView {
    JsonView::List(l.map_values(|s: Seq<char>| JsonView::Text(s)))
}

impl JsonView {
    /// The record with the field `key` set. Any other value stays as it is.
    pub open spec fn with(self, key: Seq<char>, value: JsonView) -> JsonView {
        match self {
            JsonView::Record(fields) => JsonView::Record(with_field(fields, key, value)),
            _ => self,
        }
    }

    /// The field `key`, where this is a record that has it.
    pub open spec fn field(self, key: Seq<char>) -> Option<JsonView> {
        match self {
            JsonView::Record(fields) => lookup(fields, key),
            _ => None,
        }
    }

    /// The field `key`, or null where there is none.
    pub open spec fn at(self, key: Seq<char>) -> JsonView {
        match self.field(key) {
            Some(v) => v,
            None => JsonView::Null,
        }
    }

    pub open spec fn text(self) -> Option<Seq<char>> {
        match self {
            JsonView::Text(s) => Some(s),
            _ => None,
        }
    }

    pub open spec fn truth(self) -> Option<bool> {
        match self {
            JsonView::Bool(b) => Some(b),
            _ => None,
        }
    }

    pub open spec fn list(self) -> Option<Seq<JsonView>> {
        match self {
            JsonView::List(s) => Some(s),
            _ => None,
        }
    }

    /// The number, where it is a whole number that fits in an `i64`.
    pub open spec fn signed(self) -> Option<int> {
        match self {
            JsonView::Number(n) => n.signed(),
            _ => None,
        }
    }

    /// The number, where it is a whole number that fits in a `u64`.
    pub open spec fn unsigned(self) -> Option<nat> {
        match self {
            JsonView::Number(n) => n.unsigned(),
            _ => None,
        }
    }

    /// The text of the field `key`, where it is a text.
    pub open spec fn text_field(self, key: Seq<char>) -> Option<Seq<char>> {
        self.at(key).text()
    }

    /// The text of the field `key`, or the empty text.
    pub open spec fn text_or_empty(self, key: Seq<char>) -> Seq<char> {
        match self.text_field(key) {
            Some(s) => s,
            None => Seq::empty(),
        }
    }

    /// The value is what `serde_json` reads from the text that it prints: its
    /// numbers are whole, and it is nested no deeper than the reader goes.
    pub open spec fn prints_back(self) -> bool {
        self.exact() && self.depth() <= 127
    }

    /// How many lists and records the value is nested in, itself counted.
    pub open spec fn depth(self) -> nat
        decreases self,
    {
        match self {
            JsonView::List(items) => 1 + list_depth(items),
            JsonView::Record(fields) => 1 + record_depth(fields),
            _ => 0,
        }
    }

    /// Every number in the value is a whole number in the range of `i64` and
    /// `u64`, and no record in it has two fields of one name.
    pub open spec fn exact(self) -> bool
        decreases self,
    {
        match self {
            JsonView::Number(NumberView::Int(n)) => i64::MIN <= n <= u64::MAX,
            JsonView::Number(NumberView::Float(_)) => false,
            JsonView::List(items) => forall|i: int|
                0 <= i < items.len() ==> (#[trigger] items[i]).exact(),
            JsonView::Record(fields) => {
                &&& distinct_keys(fields)
                &&& forall|i: int| 0 <= i < fields.len() ==> (#[trigger] fields[i]).1.exact()
            },
            _ => true,
        }
    }
}

pub open spec fn list_depth(items: Seq<JsonView>) -> nat
    decreases items,
{
    if items.len() == 0 {
        0
    } else {
        let rest = list_depth(items.drop_last());
        let last = items.last().depth();
        if last > rest {
            last
        } else {
            rest
        }
    }
}

pub open spec fn record_depth(fields: Seq<(Seq<char>, JsonView)>) -> nat
    decreases fields,
{
    if fields.len() == 0 {
        0
    } else {
        let rest = record_depth(fields.drop_last());
        let last = fields.last().1.depth();
        if last > rest {
            last
        } else {
            rest
        }
    }
}

/// A record is nested no deeper than its deepest field.
pub proof fn lemma_record_depth(fields: Seq<(Seq<char>, JsonView)>, n: nat)
    requires
        forall|i: int| 0 <= i < fields.len() ==> (#[trigger] fields[i]).1.depth() <= n,
    ensures
        record_depth(fields) <= n,
    decreases fields.len(),
{
    if fields.len() > 0 {
        assert forall|i: int| 0 <= i < fields.drop_last().len() implies (
        #[trigger] fields.drop_last()[i]).1.depth() <= n by {
            assert(fields.drop_last()[i] == fields[i]);
        }
        lemma_record_depth(fields.drop_last(), n);
        assert(fields.last() == fields[fields.len() - 1]);
    }
}

/// A JSON value.
#[derive(Debug)]
pub enum Json {
    Null,
    Bool(bool),
    Number(JsonNumber),
    Text(String),
    List(Vec<Json>),
    Record(JsonObject),
}

/// A JSON number: a whole number, or a `serde_json` number that is none.
#[derive(Debug)]
pub enum JsonNumber {
    Unsigned(u64),
    Signed(i64),
    Other(serde_json::Number),
}

/// A field of a JSON object.
#[derive(Debug)]
pub struct JsonMember {
    pub key: String,
    pub value: Json,
}

/// A JSON object: fields in the order in which they were first set, no two of
/// one name.
#[derive(Debug)]
pub struct JsonObject {
    entries: Vec<JsonMember>,
}

impl View for JsonNumber {
    type V = NumberView;

    open spec fn view(&self) -> NumberView {
        match self {
            JsonNumber::Unsigned(n) => NumberView::Int(*n as int),
            JsonNumber::Signed(n) => NumberView::Int(*n as int),
            JsonNumber::Other(n) => number_contents(*n),
        }
    }
}

impl View for Json {
    type V = JsonView;

    open spec fn view(&self) -> JsonView
        decreases self,
    {
        match self {
            Json::Null => JsonView::Null,
            Json::Bool(b) => JsonView::Bool(*b),
            Json::Number(n) => JsonView::Number(n@),
            Json::Text(s) => JsonView::Text(s@),
            Json::List(items) => JsonView::List(
                Seq::new(
                    items@.len(),
                    |i: int|
                        if 0 <= i < items@.len() {
                            items@[i].view()
                        } else {
                            JsonView::Null
                        },
                ),
            ),
            Json::Record(o) => JsonView::Record(o.view()),
        }
    }
}

impl View for JsonObject {
    type V = Seq<(Seq<char>, JsonView)>;

    closed spec fn view(&self) -> Seq<(Seq<char>, JsonView)>
        decreases self,
    {
        Seq::new(
            self.entries@.len(),
            |i: int|
                if 0 <= i < self.entries@.len() {
                    (self.entries@[i].key@, self.entries@[i].value.view())
                } else {
                    (Seq::empty(), JsonView::Null)
                },
        )
    }
}


impl JsonObject {
    #[verifier::type_invariant]
    spec fn valid(self) -> bool {
        distinct_keys(self@)
    }

    /// The object without fields.
    pub fn new() -> (r: Self)
        ensures
            r@ == Seq::<(Seq<char>, JsonView)>::empty(),
    {
        let r = JsonObject { entries: Vec::new() };
        assert(r@ =~= Seq::<(Seq<char>, JsonView)>::empty());
        r
    }

    /// How many fields there are.
    pub fn len(&self) -> (r: usize)
        ensures
            r == self@.len(),
    {
        self.entries.len()
    }

    /// The name of field `i`.
    pub fn key(&self, i: usize) -> (r: &String)
        requires
            i < self@.len(),
        ensures
            r@ == self@[i as int].0,
    {
        &self.entries[i].key
    }

    /// The value of field `i`.
    pub fn value(&self, i: usize) -> (r: &Json)
        requires
            i < self@.len(),
        ensures
            r@ == self@[i as int].1,
    {
        &self.entries[i].value
    }

    /// The value of the field `key`.
    pub fn get(&self, key: &str) -> (r: Option<&Json>)
        ensures
            match r {
                Some(v) => lookup(self@, key@) == Some(v@),
                None => lookup(self@, key@) is None,
            },
    {
        let mut i: usize = 0;
        proof {
            assert(self@.subrange(0, self@.len() as int) =~= self@);
        }
        while i < self.entries.len()
            invariant
                i <= self.entries@.len(),
                self@.len() == self.entries@.len(),
                lookup(self@, key@) == lookup(self@.subrange(i as int, self@.len() as int), key@),
            decreases self.entries@.len() - i,
        {
            let ghost rest = self@.subrange(i as int, self@.len() as int);
            if same_text(self.entries[i].key.as_str(), key) {
                assert(rest[0] == self@[i as int]);
                return Some(&self.entries[i].value);
            }
            assert(rest[0] == self@[i as int]);
            assert(rest.drop_first() =~= self@.subrange(i + 1, self@.len() as int));
            i = i + 1;
        }
        None
    }

    /// Whether there is a field `key`.
    pub fn contains_key(&self, key: &str) -> (r: bool)
        ensures
            r == (lookup(self@, key@) is Some),
    {
        self.get(key).is_some()
    }

    /// Sets the field `key`: in its place where it is there, else at the end.
    pub fn insert(&mut self, key: String, value: Json)
        ensures
            final(self)@ == with_field(old(self)@, key@, value@),
    {
        proof {
            use_type_invariant(&*self);
        }
        let ghost before = self@;
        let ghost value_view = value@;
        let ghost key_view = key@;
        let mut entries: Vec<JsonMember> = Vec::new();
        std::mem::swap(&mut entries, &mut self.entries);
        let ghost listed = entries@;
        let mut i: usize = 0;
        while i < entries.len() && !same_text(entries[i].key.as_str(), key.as_str())
            invariant
                i <= entries@.len(),
                forall|j: int| 0 <= j < i ==> (#[trigger] entries@[j]).key@ != key@,
            decreases entries@.len() - i,
        {
            i = i + 1;
        }
        proof {
            assert forall|j: int| 0 <= j < i implies (#[trigger] before[j]).0 != key_view by {
                assert(entries@[j].key@ != key_view);
            }
            lemma_with_field(before, key_view, value_view, i as int);
        }
        if i < entries.len() {
            entries.set(i, JsonMember { key, value });
        } else {
            entries.push(JsonMember { key, value });
        }
        proof {
            let after = JsonObject { entries };
            assert(after@ =~= with_field(before, key_view, value_view));
        }
        self.entries = entries;
    }
}

/// Where the first `i` fields are not named `key`, and field `i` is (or `i` is
/// the number of fields), setting `key` sets field `i`.
proof fn lemma_with_field(
    fields: Seq<(Seq<char>, JsonView)>,
    key: Seq<char>,
    value: JsonView,
    i: int,
)
    requires
        0 <= i <= fields.len(),
        forall|j: int| 0 <= j < i ==> (#[trigger] fields[j]).0 != key,
        i < fields.len() ==> fields[i].0 == key,
        distinct_keys(fields),
    ensures
        with_field(fields, key, value) == (if i < fields.len() {
            fields.update(i, (key, value))
        } else {
            fields.push((key, value))
        }),
        distinct_keys(with_field(fields, key, value)),
    decreases fields.len(),
{
    if fields.len() > 0 && i > 0 {
        let rest = fields.drop_first();
        assert forall|j: int| 0 <= j < i - 1 implies (#[trigger] rest[j]).0 != key by {
            assert(rest[j] == fields[j + 1]);
        }
        lemma_with_field(rest, key, value, i - 1);
        assert(fields[0].0 != key);
        if i < fields.len() {
            assert(seq![fields[0]] + rest.update(i - 1, (key, value)) =~= fields.update(
                i,
                (key, value),
            ));
        } else {
            assert(seq![fields[0]] + rest.push((key, value)) =~= fields.push((key, value)));
        }
    } else if fields.len() == 0 {
        assert(with_field(fields, key, value) =~= fields.push((key, value)));
    }
    let after = with_field(fields, key, value);
    assert forall|a: int, b: int|
        #![trigger after[a], after[b]]
        0 <= a < b < after.len() implies after[a].0 != after[b].0 by {
        if a < fields.len() && b < fields.len() {
            assert(fields[a].0 != fields[b].0);
        }
    }
}

/// Setting a field makes it what a lookup finds, and changes no other.
pub proof fn field_set_is_field_found(
    fields: Seq<(Seq<char>, JsonView)>,
    key: Seq<char>,
    value: JsonView,
    other: Seq<char>,
)
    ensures
        lookup(with_field(fields, key, value), key) == Some(value),
        other != key ==> lookup(with_field(fields, key, value), other) == lookup(fields, other),
    decreases fields.len(),
{
    let after = with_field(fields, key, value);
    if fields.len() == 0 {
        assert(after.drop_first() =~= fields);
    } else if fields[0].0 == key {
        assert(after.drop_first() =~= fields.drop_first());
    } else {
        field_set_is_field_found(fields.drop_first(), key, value, other);
        assert(after.drop_first() =~= with_field(fields.drop_first(), key, value));
    }
}

/// A record with a field set has that field, and the others as before.
pub proof fn set_field_reads_back(v: JsonView, key: Seq<char>, value: JsonView)
    requires
        v is Record,
    ensures
        v.with(key, value) is Record,
        v.with(key, value).field(key) == Some(value),
        v.with(key, value).at(key) == value,
        forall|other: Seq<char>|
            other != key ==> #[trigger] v.with(key, value).field(other) == v.field(other),
        forall|other: Seq<char>|
            other != key ==> #[trigger] v.with(key, value).at(other) == v.at(other),
{
    let fields = v->Record_0;
    assert forall|other: Seq<char>| other != key implies #[trigger] v.with(key, value).field(other)
        == v.field(other) by {
        field_set_is_field_found(fields, key, value, other);
    }
    assert forall|other: Seq<char>| other != key implies #[trigger] v.with(key, value).at(other)
        == v.at(other) by {
        assert(v.with(key, value).field(other) == v.field(other));
    }
    field_set_is_field_found(fields, key, value, key);
}

impl Clone for JsonNumber {
    fn clone(&self) -> (r: Self)
        ensures
            r@ == self@,
    {
        match self {
            JsonNumber::Unsigned(n) => JsonNumber::Unsigned(*n),
            JsonNumber::Signed(n) => JsonNumber::Signed(*n),
            JsonNumber::Other(n) => JsonNumber::Other(n.clone()),
        }
    }
}

impl Clone for Json {
    fn clone(&self) -> (r: Self)
        ensures
            r@ == self@,
        decreases self,
    {
        match self {
            Json::Null => Json::Null,
            Json::Bool(b) => Json::Bool(*b),
            Json::Number(n) => Json::Number(n.clone()),
            Json::Text(s) => Json::Text(s.clone()),
            Json::List(items) => {
                let copy = clone_list(items);
                proof {
                    lemma_list_view(*items);
                    lemma_list_view(copy);
                }
                Json::List(copy)
            },
            Json::Record(o) => Json::Record(o.clone()),
        }
    }
}

impl Clone for JsonObject {
    fn clone(&self) -> (r: Self)
        ensures
            r@ == self@,
        decreases self,
    {
        proof {
            use_type_invariant(self);
        }
        let mut entries: Vec<JsonMember> = Vec::new();
        let mut i: usize = 0;
        while i < self.entries.len()
            invariant
                i <= self.entries@.len(),
                entries@.len() == i,
                forall|j: int|
                    0 <= j < i ==> (#[trigger] entries@[j]).key@ == self.entries@[j].key@
                        && entries@[j].value@ == self.entries@[j].value@,
            decreases self.entries@.len() - i,
        {
            let m = &self.entries[i];
            assert(decreases_to!(self => m.value));
            entries.push(JsonMember { key: m.key.clone(), value: m.value.clone() });
            i = i + 1;
        }
        proof {
            let after = JsonObject { entries };
            assert(after@ =~= self@);
        }
        JsonObject { entries }
    }
}

/// The views of a list of JSON values.
pub open spec fn json_views(items: Seq<Json>) -> Seq<JsonView> {
    items.map_values(|j: Json| j@)
}

/// The view of a list is the list of the views.
pub proof fn lemma_list_view(items: Vec<Json>)
    ensures
        Json::List(items)@ == JsonView::List(json_views(items@)),
{
    assert(Json::List(items)@->List_0 =~= json_views(items@));
}

/// The texts in a list, in order. What is no text is passed over.
pub open spec fn texts_in(items: Seq<JsonView>) -> Seq<Seq<char>>
    decreases items.len(),
{
    if items.len() == 0 {
        Seq::empty()
    } else {
        match items.last().text() {
            Some(s) => texts_in(items.drop_last()).push(s),
            None => texts_in(items.drop_last()),
        }
    }
}

/// The texts in a list, in order. What is no text is passed over.
pub fn texts_of(items: &Vec<Json>) -> (r: Vec<String>)
    ensures
        text::texts(r@) == texts_in(json_views(items@)),
{
    let ghost views = json_views(items@);
    let mut r: Vec<String> = Vec::new();
    let mut i: usize = 0;
    proof {
        assert(text::texts(r@) =~= texts_in(views.take(0)));
    }
    while i < items.len()
        invariant
            i <= items@.len(),
            views == json_views(items@),
            text::texts(r@) == texts_in(views.take(i as int)),
        decreases items@.len() - i,
    {
        proof {
            assert(views.take(i + 1).drop_last() =~= views.take(i as int));
            assert(views.take(i + 1).last() == items@[i as int]@);
        }
        match items[i].as_str() {
            Some(s) => {
                let t = s.clone();
                assert(text::texts(r@.push(t)) =~= text::texts(r@).push(t@));
                r.push(t);
            },
            None => {},
        }
        i = i + 1;
    }
    assert(views.take(i as int) =~= views);
    r
}

/// A list of the same values.
pub fn clone_list(items: &Vec<Json>) -> (r: Vec<Json>)
    ensures
        json_views(r@) == json_views(items@),
    decreases items,
{
    let mut r: Vec<Json> = Vec::new();
    let mut i: usize = 0;
    while i < items.len()
        invariant
            i <= items@.len(),
            json_views(r@) =~= json_views(items@).take(i as int),
        decreases items@.len() - i,
    {
        assert(decreases_to!(items => items@[i as int]));
        let item = items[i].clone();
        assert(json_views(r@.push(item)) =~= json_views(r@).push(item@));
        r.push(item);
        i = i + 1;
    }
    r
}


impl Json {
    /// The JSON value that a `serde_json::Value` holds.
    pub fn from_value(v: serde_json::Value) -> (r: Json)
        ensures
            r@ == value_contents(v),
        decreases value_contents(v),
    {
        match open_value(v) {
            ValueNode::Null => Json::Null,
            ValueNode::Bool(b) => Json::Bool(b),
            ValueNode::Number(n) => Json::Number(
                match n.as_u64() {
                    Some(u) => JsonNumber::Unsigned(u),
                    None => match n.as_i64() {
                        Some(i) => JsonNumber::Signed(i),
                        None => JsonNumber::Other(n),
                    },
                },
            ),
            ValueNode::Text(s) => Json::Text(s),
            ValueNode::List(values) => {
                let mut values = values;
                let mut items: Vec<Json> = Vec::new();
                let ghost contents = values@.map_values(
                    |x: serde_json::Value| value_contents(x),
                );
                while values.len() > 0
                    invariant
                        value_contents(v) == JsonView::List(contents),
                        items@.len() + values@.len() == contents.len(),
                        forall|j: int|
                            0 <= j < values@.len() ==> value_contents(#[trigger] values@[j])
                                == contents[j],
                        forall|j: int|
                            0 <= j < items@.len() ==> (#[trigger] items@[j])@
                                == contents[contents.len() - 1 - j],
                    decreases values@.len(),
                {
                    match values.pop() {
                        Some(x) => {
                            proof {
                                let whole_list = value_contents(v)->List_0;
                                assert(decreases_to!(value_contents(v) => value_contents(v)->List_0));
                                assert(decreases_to!(whole_list => whole_list[values@.len() as int]));
                            }
                            items.push(Json::from_value(x));
                        },
                        None => {},
                    }
                }
                reverse(&mut items);
                proof {
                    lemma_list_view(items);
                    assert(json_views(items@) =~= contents);
                }
                Json::List(items)
            },
            ValueNode::Record(fields) => {
                let mut fields = fields;
                let mut entries: Vec<JsonMember> = Vec::new();
                let ghost contents = fields_contents(fields@);
                while fields.len() > 0
                    invariant
                        value_contents(v) == JsonView::Record(contents),
                        entries@.len() + fields@.len() == contents.len(),
                        forall|j: int|
                            0 <= j < fields@.len() ==> contents[j] == (
                                (#[trigger] fields@[j]).0@,
                                value_contents(fields@[j].1),
                            ),
                        forall|j: int|
                            0 <= j < entries@.len() ==> contents[contents.len() - 1 - j] == (
                                (#[trigger] entries@[j]).key@,
                                entries@[j].value@,
                            ),
                    decreases fields@.len(),
                {
                    match fields.pop() {
                        Some(f) => {
                            let (key, x) = f;
                            proof {
                                let all_fields = value_contents(v)->Record_0;
                                let field = all_fields[fields@.len() as int];
                                assert(decreases_to!(
                                    value_contents(v) => value_contents(v)->Record_0
                                ));
                                assert(decreases_to!(
                                    all_fields => all_fields[fields@.len() as int]
                                ));
                                assert(decreases_to!(field => field.1));
                            }
                            entries.push(JsonMember { key, value: Json::from_value(x) });
                        },
                        None => {},
                    }
                }
                reverse(&mut entries);
                proof {
                    let o = JsonObject { entries };
                    assert(o@ =~= contents);
                }
                Json::Record(JsonObject { entries })
            },
        }
    }

    /// The `serde_json::Value` that holds this value.
    pub fn to_value(&self) -> (r: serde_json::Value)
        ensures
            value_contents(r) == self@,
        decreases self,
    {
        match self {
            Json::Null => close_value(ValueNode::Null),
            Json::Bool(b) => close_value(ValueNode::Bool(*b)),
            Json::Number(n) => close_value(
                ValueNode::Number(
                    match n {
                        JsonNumber::Unsigned(u) => number_of_unsigned(*u),
                        JsonNumber::Signed(i) => number_of_signed(*i),
                        JsonNumber::Other(x) => x.clone(),
                    },
                ),
            ),
            Json::Text(s) => close_value(ValueNode::Text(s.clone())),
            Json::List(items) => {
                let mut values: Vec<serde_json::Value> = Vec::new();
                let mut i: usize = 0;
                while i < items.len()
                    invariant
                        *self == Json::List(*items),
                        i <= items@.len(),
                        values@.len() == i,
                        forall|j: int|
                            0 <= j < i ==> value_contents(#[trigger] values@[j]) == items@[j]@,
                    decreases items@.len() - i,
                {
                    assert(decreases_to!(self => self->List_0));
                    assert(decreases_to!(items@ => items@[i as int]));
                    values.push(items[i].to_value());
                    i = i + 1;
                }
                proof {
                    assert(values@.map_values(|x: serde_json::Value| value_contents(x))
                        =~= self@->List_0);
                }
                close_value(ValueNode::List(values))
            },
            Json::Record(o) => {
                proof {
                    use_type_invariant(o);
                }
                let mut fields: Vec<(String, serde_json::Value)> = Vec::new();
                let mut i: usize = 0;
                while i < o.entries.len()
                    invariant
                        *self == Json::Record(*o),
                        i <= o.entries@.len(),
                        fields@.len() == i,
                        forall|j: int|
                            0 <= j < i ==> ((#[trigger] fields@[j]).0@, value_contents(
                                fields@[j].1,
                            )) == o@[j],
                    decreases o.entries@.len() - i,
                {
                    let m = &o.entries[i];
                    assert(decreases_to!(self => self->Record_0));
                    assert(decreases_to!(o => o.entries@));
                    assert(decreases_to!(o.entries@ => o.entries@[i as int]));
                    assert(decreases_to!(m => m.value));
                    fields.push((m.key.clone(), m.value.to_value()));
                    i = i + 1;
                }
                proof {
                    assert(fields_contents(fields@) =~= o@);
                }
                close_value(ValueNode::Record(fields))
            },
        }
    }

    /// Reads a JSON value from a text, or gives the text of the error.
    pub fn parse(text: &str) -> (r: Result<Json, String>)
        ensures
            match r {
                Ok(j) => json_parsed(text@) == Ok::<JsonView, Seq<char>>(j@),
                Err(e) => json_parsed(text@) == Err::<JsonView, Seq<char>>(e@),
            },
    {
        match parse_value(text) {
            Ok(v) => Ok(Json::from_value(v)),
            Err(e) => Err(e),
        }
    }

    /// The compact text of the value. Read back, it gives the value again,
    /// where every number is whole and the nesting is within the reader's limit.
    pub fn to_text(&self) -> (r: String)
        ensures
            r@ == json_text(self@),
            self@.prints_back() ==> reads_as(r@, self@),
    {
        print_value(&self.to_value())
    }

    /// The indented text of the value. Read back, it gives the value again,
    /// where every number is whole and the nesting is within the reader's limit.
    pub fn to_pretty_text(&self) -> (r: String)
        ensures
            r@ == json_pretty_text(self@),
            self@.prints_back() ==> reads_as(r@, self@),
    {
        print_value_pretty(&self.to_value())
    }

    /// The text `s` as a value.
    pub fn text(s: &str) -> (r: Json)
        ensures
            r@ == JsonView::Text(s@),
    {
        Json::Text(s.to_owned())
    }

    /// The number `n` as a value.
    pub fn unsigned(n: u64) -> (r: Json)
        ensures
            r@ == whole(n as int),
    {
        Json::Number(JsonNumber::Unsigned(n))
    }

    /// The number `n` as a value.
    pub fn signed(n: i64) -> (r: Json)
        ensures
            r@ == whole(n as int),
    {
        Json::Number(JsonNumber::Signed(n))
    }

    /// The list of `items` as a value.
    pub fn list(items: Vec<Json>) -> (r: Json)
        ensures
            r@ == JsonView::List(json_views(items@)),
    {
        proof {
            lemma_list_view(items);
        }
        Json::List(items)
    }

    /// The list of `items` as a value.
    pub fn texts(items: &[String]) -> (r: Json)
        ensures
            r@ == text_list(text::texts(items@)),
    {
        let mut r: Vec<Json> = Vec::new();
        let mut i: usize = 0;
        while i < items.len()
            invariant
                i <= items@.len(),
                r@.len() == i,
                forall|j: int|
                    0 <= j < i ==> (#[trigger] r@[j])@ == JsonView::Text(items@[j]@),
            decreases items@.len() - i,
        {
            r.push(Json::text(items[i].as_str()));
            i = i + 1;
        }
        proof {
            assert(JsonView::List(json_views(r@))->List_0 =~= text_list(text::texts(items@))->List_0);
        }
        Json::list(r)
    }

    /// The object without fields.
    pub fn object() -> (r: Json)
        ensures
            r@ == no_fields(),
    {
        Json::Record(JsonObject::new())
    }

    /// The object with the field `key` set. Any other value stays as it is.
    pub fn with(self, key: &str, value: Json) -> (r: Json)
        ensures
            r@ == self@.with(key@, value@),
    {
        match self {
            Json::Record(fields) => {
                let mut fields = fields;
                fields.insert(key.to_owned(), value);
                Json::Record(fields)
            },
            other => other,
        }
    }

    /// The field `key`, where this is an object that has it.
    pub fn get(&self, key: &str) -> (r: Option<&Json>)
        ensures
            match r {
                Some(v) => self@.field(key@) == Some(v@),
                None => self@.field(key@) is None,
            },
    {
        match self {
            Json::Record(o) => o.get(key),
            _ => None,
        }
    }

    /// The text, where this is one.
    pub fn as_str(&self) -> (r: Option<&String>)
        ensures
            match r {
                Some(s) => self@.text() == Some(s@),
                None => self@.text() is None,
            },
    {
        match self {
            Json::Text(s) => Some(s),
            _ => None,
        }
    }

    /// The items, where this is a list.
    pub fn as_array(&self) -> (r: Option<&Vec<Json>>)
        ensures
            match r {
                Some(v) => self@.list() == Some(json_views(v@)),
                None => self@.list() is None,
            },
    {
        match self {
            Json::List(items) => {
                proof {
                    lemma_list_view(*items);
                }
                Some(items)
            },
            _ => None,
        }
    }

    /// The truth value, where this is one.
    pub fn as_bool(&self) -> (r: Option<bool>)
        ensures
            r == self@.truth(),
    {
        match self {
            Json::Bool(b) => Some(*b),
            _ => None,
        }
    }

    /// The number, where it is whole and fits in an `i64`.
    pub fn as_i64(&self) -> (r: Option<i64>)
        ensures
            match r {
                Some(n) => self@.signed() == Some(n as int),
                None => self@.signed() is None,
            },
    {
        match self {
            Json::Number(JsonNumber::Unsigned(n)) => if *n <= i64::MAX as u64 {
                Some(*n as i64)
            } else {
                None
            },
            Json::Number(JsonNumber::Signed(n)) => Some(*n),
            Json::Number(JsonNumber::Other(n)) => n.as_i64(),
            _ => None,
        }
    }

    /// The number, where it is whole and fits in a `u64`.
    pub fn as_u64(&self) -> (r: Option<u64>)
        ensures
            match r {
                Some(n) => self@.unsigned() == Some(n as nat),
                None => self@.unsigned() is None,
            },
    {
        match self {
            Json::Number(JsonNumber::Unsigned(n)) => Some(*n),
            Json::Number(JsonNumber::Signed(n)) => if *n >= 0 {
                Some(*n as u64)
            } else {
                None
            },
            Json::Number(JsonNumber::Other(n)) => n.as_u64(),
            _ => None,
        }
    }

    /// Whether this is null.
    pub fn is_null(&self) -> (r: bool)
        ensures
            r == (self@ is Null),
    {
        match self {
            Json::Null => true,
            _ => false,
        }
    }

    /// The text of the field `key`, where it is a text.
    pub fn get_str(&self, key: &str) -> (r: Option<&String>)
        ensures
            match r {
                Some(s) => self@.text_field(key@) == Some(s@),
                None => self@.text_field(key@) is None,
            },
    {
        match self.get(key) {
            Some(v) => v.as_str(),
            None => None,
        }
    }

    /// The text of the field `key`, or the empty text.
    pub fn get_str_or_empty(&self, key: &str) -> (r: String)
        ensures
            r@ == self@.text_or_empty(key@),
    {
        match self.get_str(key) {
            Some(s) => s.clone(),
            None => String::new(),
        }
    }

    /// The items of the field `key`, where it is a list.
    pub fn get_array(&self, key: &str) -> (r: Option<&Vec<Json>>)
        ensures
            match r {
                Some(v) => self@.at(key@).list() == Some(json_views(v@)),
                None => self@.at(key@).list() is None,
            },
    {
        match self.get(key) {
            Some(v) => v.as_array(),
            None => None,
        }
    }
}

/// Turns `v` round.
fn reverse<T>(v: &mut Vec<T>)
    ensures
        final(v)@ == old(v)@.reverse(),
{
    let mut r: Vec<T> = Vec::new();
    let ghost before = v@;
    while v.len() > 0
        invariant
            v@.len() + r@.len() == before.len(),
            v@ =~= before.take(v@.len() as int),
            forall|j: int|
                0 <= j < r@.len() ==> #[trigger] r@[j] == before[before.len() - 1 - j],
        decreases v@.len(),
    {
        match v.pop() {
            Some(x) => {
                r.push(x);
            },
            None => {},
        }
    }
    assert(r@ =~= before.reverse());
    *v = r;
}

} // verus!
