//! Parameters that clients send in two forms.
//!
//! Clients sometimes send an array or an object as a text that holds its JSON.
//! Both forms are accepted here, and what is neither is refused with a clear
//! message.

use vstd::prelude::*;
use vstd::string::*;

use crate::error::{McpError, McpErrorKind};
use crate::json;
use crate::json::{Json, JsonView};
use crate::text;

verus! {

/// What `serde_json::from_str::<Vec<String>>` makes of a text: the list of texts
/// that it denotes, or the text of the error.
pub uninterp spec fn string_list_parsed(text: Seq<char>) -> Result<Seq<Seq<char>>, Seq<char>>;

/// All values are texts.
pub open spec fn all_texts(items: Seq<JsonView>) -> bool {
    forall|i: int| 0 <= i < items.len() ==> (#[trigger] items[i]).text() is Some
}

/// The texts in a list of values that are all texts.
pub open spec fn texts_only(items: Seq<JsonView>) -> Seq<Seq<char>> {
    items.map_values(|v: JsonView| v->Text_0)
}

/// `serde_json::from_str::<Vec<String>>` reads a JSON array of strings, and fails
/// on any other text.
#[verifier::external_body]
fn parse_string_list(s: &str) -> (r: Result<Vec<String>, String>)
    ensures
        match r {
            Ok(l) => {
                &&& string_list_parsed(s@) == Ok::<Seq<Seq<char>>, Seq<char>>(text::texts(l@))
                &&& json::reads_as(s@, json::text_list(text::texts(l@)))
            },
            Err(e) => {
                &&& string_list_parsed(s@) == Err::<Seq<Seq<char>>, Seq<char>>(e@)
                &&& !(json::json_parsed(s@) matches Ok(JsonView::List(items)) && all_texts(items))
            },
        },
{
    serde_json::from_str::<Vec<String>>(s).map_err(|e| e.to_string())
}

/// The list of texts that a parameter stands for, or why it stands for none.
pub open spec fn string_vec(v: JsonView) -> Result<Seq<Seq<char>>, Seq<char>> {
    match v {
        JsonView::List(items) => if all_texts(items) {
            Ok(texts_only(items))
        } else {
            Err("array element is not a string"@)
        },
        JsonView::Text(s) => match string_list_parsed(s) {
            Ok(l) => Ok(l),
            Err(m) => Err("string is not a valid JSON array: "@ + m),
        },
        _ => Err("expected array or JSON string"@),
    }
}

/// An error about the parameters of a call.
pub fn invalid_params(message: String) -> (r: McpError)
    ensures
        r.kind == McpErrorKind::InvalidParams,
        r.message == message,
{
    McpError { kind: McpErrorKind::InvalidParams, message }
}

/// Parse a parameter that is a list of texts, or a text that holds the JSON of
/// one.
pub fn parse_string_vec(value: &Json) -> (r: Result<Vec<String>, McpError>)
    ensures
        match string_vec(value@) {
            Ok(l) => r matches Ok(x) && text::texts(x@) == l,
            Err(m) => r matches Err(e) && e.kind == McpErrorKind::InvalidParams && e.message@ == m,
        },
{
    match value {
        Json::List(items) => {
            let ghost views = json::json_views(items@);
            proof {
                json::lemma_list_view(*items);
            }
            let mut r: Vec<String> = Vec::new();
            let mut i: usize = 0;
            while i < items.len()
                invariant
                    i <= items@.len(),
                    views == json::json_views(items@),
                    value@ == JsonView::List(views),
                    forall|j: int| 0 <= j < i ==> (#[trigger] views[j]).text() is Some,
                    text::texts(r@) =~= texts_only(views).take(i as int),
                decreases items@.len() - i,
            {
                assert(views[i as int] == items@[i as int]@);
                match items[i].as_str() {
                    Some(s) => {
                        let t = s.clone();
                        assert(text::texts(r@.push(t)) =~= text::texts(r@).push(t@));
                        r.push(t);
                    },
                    None => {
                        return Err(invalid_params("array element is not a string".to_owned()));
                    },
                }
                i = i + 1;
            }
            Ok(r)
        },
        Json::Text(s) => match parse_string_list(s.as_str()) {
            Ok(l) => Ok(l),
            Err(e) => Err(
                invalid_params("string is not a valid JSON array: ".to_owned().concat(e.as_str())),
            ),
        },
        _ => Err(invalid_params("expected array or JSON string".to_owned())),
    }
}

/// The object that a parameter stands for, or why it stands for none.
pub open spec fn json_object(v: JsonView) -> Result<JsonView, Seq<char>> {
    match v {
        JsonView::Record(_) => Ok(v),
        JsonView::Text(s) => match json::json_parsed(s) {
            Ok(x) => if x is Record {
                Ok(x)
            } else {
                Err("parsed JSON is not an object"@)
            },
            Err(m) => Err("string is not valid JSON: "@ + m),
        },
        _ => Err("expected object or JSON string"@),
    }
}

/// Parse a parameter that is an object, or a text that holds the JSON of one.
pub fn parse_json_object(value: &Json) -> (r: Result<Json, McpError>)
    ensures
        match json_object(value@) {
            Ok(v) => r matches Ok(x) && x@ == v,
            Err(m) => r matches Err(e) && e.kind == McpErrorKind::InvalidParams && e.message@ == m,
        },
{
    match value {
        Json::Record(_) => Ok(value.clone()),
        Json::Text(s) => match Json::parse(s.as_str()) {
            Ok(parsed) => {
                let is_object = match &parsed {
                    Json::Record(_) => true,
                    _ => false,
                };
                if is_object {
                    Ok(parsed)
                } else {
                    Err(invalid_params("parsed JSON is not an object".to_owned()))
                }
            },
            Err(e) => Err(
                invalid_params("string is not valid JSON: ".to_owned().concat(e.as_str())),
            ),
        },
        _ => Err(invalid_params("expected object or JSON string".to_owned())),
    }
}

/// The list that an optional field stands for, or why it stands for none. An
/// absent or null field, and a blank text, stand for no list at all.
pub open spec fn vec_field(v: Option<JsonView>) -> Result<Option<Seq<JsonView>>, Seq<char>> {
    match v {
        None | Some(JsonView::Null) => Ok(None),
        Some(JsonView::List(items)) => Ok(Some(items)),
        Some(JsonView::Text(s)) => if text::trimmed(s).len() == 0 {
            Ok(None)
        } else {
            match json::json_parsed(s) {
                Ok(JsonView::List(items)) => Ok(Some(items)),
                Ok(_) => Err("field passed as string but parsed JSON is not an array"@),
                Err(m) => Err("field passed as string but not valid JSON array: "@ + m),
            }
        },
        Some(JsonView::Record(_)) => Err("expected array or stringified JSON array, got object"@),
        Some(JsonView::Number(_)) => Err("expected array or stringified JSON array, got number"@),
        Some(JsonView::Bool(_)) => Err("expected array or stringified JSON array, got bool"@),
    }
}

/// Read an optional field that is a list, or a text that holds the JSON of one.
pub fn vec_or_string(value: Option<Json>) -> (r: Result<Option<Vec<Json>>, String>)
    ensures
        match vec_field(
            (match value {
                Some(j) => Some(j@),
                None => None,
            }),
        ) {
            Ok(Some(l)) => r matches Ok(Some(x)) && json::json_views(x@) == l,
            Ok(None) => r matches Ok(None),
            Err(m) => r matches Err(e) && e@ == m,
        },
{
    match value {
        None => Ok(None),
        Some(Json::Null) => Ok(None),
        Some(Json::List(items)) => {
            proof {
                json::lemma_list_view(items);
            }
            Ok(Some(items))
        },
        Some(Json::Text(s)) => if text::trim(s.as_str()).as_str().is_empty() {
            Ok(None)
        } else {
            match Json::parse(s.as_str()) {
                Ok(Json::List(items)) => {
                    proof {
                        json::lemma_list_view(items);
                    }
                    Ok(Some(items))
                },
                Ok(_) => Err("field passed as string but parsed JSON is not an array".to_owned()),
                Err(e) => Err(
                    "field passed as string but not valid JSON array: ".to_owned().concat(
                        e.as_str(),
                    ),
                ),
            }
        },
        Some(Json::Record(_)) => Err(
            "expected array or stringified JSON array, got object".to_owned(),
        ),
        Some(Json::Number(_)) => Err(
            "expected array or stringified JSON array, got number".to_owned(),
        ),
        Some(Json::Bool(_)) => Err("expected array or stringified JSON array, got bool".to_owned()),
    }
}

/// The value that an optional field stands for, or why it stands for none. A text
/// stands for the JSON that it holds; a blank one for nothing.
pub open spec fn value_field(v: Option<JsonView>) -> Result<Option<JsonView>, Seq<char>> {
    match v {
        None | Some(JsonView::Null) => Ok(None),
        Some(JsonView::Text(s)) => if text::trimmed(s).len() == 0 {
            Ok(None)
        } else {
            match json::json_parsed(s) {
                Ok(x) => Ok(Some(x)),
                Err(m) => Err("field passed as string but not valid JSON: "@ + m),
            }
        },
        Some(x) => Ok(Some(x)),
    }
}

/// Read an optional field that is a value, or a text that holds its JSON.
pub fn value_or_string(value: Option<Json>) -> (r: Result<Option<Json>, String>)
    ensures
        match value_field(
            (match value {
                Some(j) => Some(j@),
                None => None,
            }),
        ) {
            Ok(Some(v)) => r matches Ok(Some(x)) && x@ == v,
            Ok(None) => r matches Ok(None),
            Err(m) => r matches Err(e) && e@ == m,
        },
{
    match value {
        None => Ok(None),
        Some(Json::Null) => Ok(None),
        Some(Json::Text(s)) => if text::trim(s.as_str()).as_str().is_empty() {
            Ok(None)
        } else {
            match Json::parse(s.as_str()) {
                Ok(v) => Ok(Some(v)),
                Err(e) => Err(
                    "field passed as string but not valid JSON: ".to_owned().concat(e.as_str()),
                ),
            }
        },
        Some(j) => Ok(Some(j)),
    }
}

/// A list of texts is accepted in both forms alike: as the list, and as the text
/// that its JSON prints to.
pub proof fn stringified_list_is_the_list(l: Seq<Seq<char>>, printed: Seq<char>)
    requires
        json::reads_as(printed, json::text_list(l)),
        text::trimmed(printed).len() > 0,
    ensures
        vec_field(Some(JsonView::Text(printed))) == vec_field(Some(json::text_list(l))),
{
}

/// A list of texts is taken as it is, in its order; a list that holds anything else,
/// and what is neither a list nor a text, is refused.
pub proof fn lists_of_texts_are_taken_as_they_are(v: JsonView, l: Seq<Seq<char>>)
    ensures
        string_vec(JsonView::List(l.map_values(|s: Seq<char>| JsonView::Text(s)))) == Ok::<
            Seq<Seq<char>>,
            Seq<char>,
        >(l),
        v matches JsonView::List(items) ==> (string_vec(v) is Ok <==> forall|i: int|
            0 <= i < items.len() ==> (#[trigger] items[i]) is Text),
        !(v is List) && !(v is Text) ==> string_vec(v) is Err,
{
    let items = l.map_values(|s: Seq<char>| JsonView::Text(s));
    assert(all_texts(items));
    assert(texts_only(items) =~= l);
    match v {
        JsonView::List(own) => {
            if all_texts(own) {
                assert forall|i: int| 0 <= i < own.len() implies (#[trigger] own[i]) is Text by {
                    assert(own[i].text() is Some);
                }
            }
        },
        _ => {},
    }
}

/// An object is taken as it is, and a text that is the JSON of an object as that
/// object; nothing else is taken.
pub proof fn objects_are_taken_in_either_form(v: JsonView, printed: Seq<char>)
    ensures
        v is Record ==> json_object(v) == Ok::<JsonView, Seq<char>>(v),
        v is Record && json::reads_as(printed, v) ==> json_object(JsonView::Text(printed)) == Ok::<
            JsonView,
            Seq<char>,
        >(v),
        !(v is Record) && json::reads_as(printed, v) ==> json_object(JsonView::Text(printed))
            is Err,
        !(v is Record) && !(v is Text) ==> json_object(v) is Err,
{
}

/// A field that is absent, null or blank stands for nothing; a list for itself; a
/// text for the list whose JSON it is. Nothing else is taken for a list, but any value
/// for a value.
pub proof fn fields_are_taken_in_either_form(v: JsonView, printed: Seq<char>)
    requires
        json::reads_as(printed, v),
        text::trimmed(printed).len() > 0,
    ensures
        vec_field(None) == Ok::<Option<Seq<JsonView>>, Seq<char>>(None),
        vec_field(Some(JsonView::Null)) == Ok::<Option<Seq<JsonView>>, Seq<char>>(None),
        vec_field(Some(JsonView::Text(Seq::empty()))) == Ok::<Option<Seq<JsonView>>, Seq<char>>(
            None,
        ),
        v matches JsonView::List(items) ==> vec_field(Some(v)) == Ok::<
            Option<Seq<JsonView>>,
            Seq<char>,
        >(Some(items)) && vec_field(Some(JsonView::Text(printed))) == vec_field(Some(v)),
        !(v is List) ==> vec_field(Some(JsonView::Text(printed))) is Err,
        v is Record || v is Number || v is Bool ==> vec_field(Some(v)) is Err,
        value_field(None) == Ok::<Option<JsonView>, Seq<char>>(None),
        value_field(Some(JsonView::Null)) == Ok::<Option<JsonView>, Seq<char>>(None),
        value_field(Some(JsonView::Text(printed))) == Ok::<Option<JsonView>, Seq<char>>(Some(v)),
        !(v is Text) && !(v is Null) ==> value_field(Some(v)) == Ok::<
            Option<JsonView>,
            Seq<char>,
        >(Some(v)),
{
}

} // verus!
