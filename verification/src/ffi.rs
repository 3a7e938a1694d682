//! The texts that are handed across the boundary to C and OCaml.

use vstd::prelude::*;
use vstd::string::*;

use crate::text;

verus! {

/// Adds two numbers whose sum fits.
pub fn rust_add(a: i32, b: i32) -> (r: i32)
    requires
        i32::MIN <= a + b <= i32::MAX,
    ensures
        r == a + b,
{
    a + b
}

/// A text that came from C, or another where it was no UTF-8.
pub open spec fn text_or(s: Option<Seq<char>>, other: Seq<char>) -> Seq<char> {
    match s {
        Some(t) => t,
        None => other,
    }
}

fn or_else(s: Option<&str>, other: &str) -> (r: String)
    ensures
        r@ == text_or(text::opt_text(s), other@),
{
    match s {
        Some(t) => t.to_owned(),
        None => other.to_owned(),
    }
}

/// The greeting for a name; `???` stands for a name that could not be read.
pub fn rust_greet(name: Option<&str>) -> (r: String)
    ensures
        r@ == "Hello from Rust, "@ + text_or(text::opt_text(name), "???"@) + "!"@,
{
    "Hello from Rust, ".to_owned().concat(or_else(name, "???").as_str()).concat("!")
}

/// What is said of a function that was analysed; `unknown` stands for a name that
/// could not be read.
pub fn rust_analyze(func_name: Option<&str>) -> (r: String)
    ensures
        r@ == "{\"function\": \""@ + text_or(text::opt_text(func_name), "unknown"@)
            + "\", \"status\": \"analyzed\", \"engine\": \"rust\"}"@,
{
    "{\"function\": \"".to_owned().concat(or_else(func_name, "unknown").as_str()).concat(
        "\", \"status\": \"analyzed\", \"engine\": \"rust\"}",
    )
}

/// What is said of the program, by what the callbacks gave: a count of -1 and an
/// empty list stand for callbacks that are not registered or gave nothing.
pub fn rust_query_ast(count: Option<i32>, names_json: Option<&str>) -> (r: String)
    ensures
        r@ == "{\"source\": \"rust_via_ocaml_callback\", \"function_count\": "@
            + text::signed_decimal(
            (match count {
                Some(n) => n as int,
                None => -1,
            }),
        ) + ", \"function_names\": "@ + text_or(text::opt_text(names_json), "[]"@) + "}"@,
{
    let n: i64 = match count {
        Some(k) => k as i64,
        None => -1,
    };
    "{\"source\": \"rust_via_ocaml_callback\", \"function_count\": ".to_owned().concat(
        text::signed_decimal_text(n).as_str(),
    ).concat(", \"function_names\": ").concat(or_else(names_json, "[]").as_str()).concat("}")
}

} // verus!
