//! The encoder: JSON text for a mapping, substituted into a template.

use crate::env_map::EnvMap;
use crate::text::{
    contains, is_first_occurrence, lemma_replace_first_at, replace_first, replace_first_in,
};
use std::collections::BTreeMap;
use vstd::prelude::*;

verus! {

/// The error type of `serde_json`, carried through unread.
#[verifier::external_type_specification]
#[verifier::external_body]
pub struct ExJsonError(serde_json::Error);

/// What `serde_json::to_string` returns for a map from strings to strings
/// that holds the bindings of `vars` and is walked in the order of the names:
/// the text of a JSON object, or `None` for a reported error.
pub uninterp spec fn json_object_text(vars: Map<Seq<char>, Seq<char>>) -> Option<Seq<char>>;

/// What `serde_json::to_string` returns for the string `text`: a JSON string
/// literal, or `None` for a reported error.
pub uninterp spec fn json_string_text(text: Seq<char>) -> Option<Seq<char>>;

/// Calls `serde_json::to_string` on the bindings of `vars`, handed over as a
/// `BTreeMap` so that the members come out in the order of their names and
/// the outcome depends on the mapping alone. The contract claims no more than
/// that: the outcome is `json_object_text` of the mapping.
#[verifier::external_body]
fn object_to_json(vars: &EnvMap) -> (result: Result<String, serde_json::Error>)
    ensures
        match result {
            Ok(text) => json_object_text(vars@) == Some(text@),
            Err(_) => json_object_text(vars@) is None,
        },
{
    let members: BTreeMap<&str, &str> = vars.entries.iter().map(
        |entry| (entry.0.as_str(), entry.1.as_str()),
    ).collect();
    serde_json::to_string(&members)
}

/// Calls `serde_json::to_string` on a string. The contract claims no more
/// than that the outcome is a function of the string: `json_string_text` of
/// it.
#[verifier::external_body]
fn string_to_json(text: &str) -> (result: Result<String, serde_json::Error>)
    ensures
        match result {
            Ok(literal) => json_string_text(text@) == Some(literal@),
            Err(_) => json_string_text(text@) is None,
        },
{
    serde_json::to_string(text)
}

/// Why encoding failed.
#[derive(Clone, Copy, Debug, PartialEq, Eq)]
pub enum EncodeError {
    /// The mapping could not be written as a JSON object.
    Json,
    /// The JSON object could not be written as a JSON string literal.
    EscapedString,
}

impl EncodeError {
    /// The diagnostic for this error.
    pub open spec fn message_text(self) -> Seq<char> {
        match self {
            EncodeError::Json => "Unable to generate json"@,
            EncodeError::EscapedString => "Unable to generate escape string"@,
        }
    }

    /// The diagnostic for this error.
    pub fn message(&self) -> (text: &'static str)
        ensures
            text@ == self.message_text(),
    {
        match self {
            EncodeError::Json => "Unable to generate json",
            EncodeError::EscapedString => "Unable to generate escape string",
        }
    }
}

/// The placeholder of a format template: an opening brace directly followed
/// by a closing brace.
pub open spec fn placeholder() -> Seq<char> {
    seq!['{', '}']
}

/// The text to substitute: the JSON object for `vars`, or with `escape` the
/// JSON string literal that holds the object's text.
pub open spec fn payload(
    vars: Map<Seq<char>, Seq<char>>,
    escape: bool,
) -> Result<Seq<char>, EncodeError> {
    match json_object_text(vars) {
        None => Err(EncodeError::Json),
        Some(object) => if escape {
            match json_string_text(object) {
                None => Err(EncodeError::EscapedString),
                Some(literal) => Ok(literal),
            }
        } else {
            Ok(object)
        },
    }
}

/// The rendered output: `format` with its first placeholder replaced by the
/// payload.
pub open spec fn encoded(
    vars: Map<Seq<char>, Seq<char>>,
    escape: bool,
    format: Seq<char>,
) -> Result<Seq<char>, EncodeError> {
    match payload(vars, escape) {
        Ok(text) => Ok(replace_first(format, placeholder(), text)),
        Err(error) => Err(error),
    }
}

/// With the bare placeholder as template, the rendered output is the payload
/// itself. Without escaping that is the serializer's object text for the
/// mapping, and nothing else.
pub proof fn lemma_encoded_bare_placeholder(vars: Map<Seq<char>, Seq<char>>, escape: bool)
    ensures
        encoded(vars, escape, placeholder()) == payload(vars, escape),
        encoded(vars, false, placeholder()) == match json_object_text(vars) {
            Some(object) => Ok::<Seq<char>, EncodeError>(object),
            None => Err(EncodeError::Json),
        },
{
    let hole = placeholder();
    assert(hole.subrange(0, 2) =~= hole);
    if let Ok(text) = payload(vars, escape) {
        lemma_replace_first_at(hole, hole, text, 0);
    }
    if let Ok(text) = payload(vars, false) {
        lemma_replace_first_at(hole, hole, text, 0);
    }
}

/// With the bare placeholder as template, the escaped output is the JSON
/// string literal of the output without escaping.
pub proof fn lemma_encoded_escaped_is_literal(vars: Map<Seq<char>, Seq<char>>)
    ensures
        encoded(vars, true, placeholder()) == match encoded(vars, false, placeholder()) {
            Ok(plain) => match json_string_text(plain) {
                Some(literal) => Ok::<Seq<char>, EncodeError>(literal),
                None => Err(EncodeError::EscapedString),
            },
            Err(error) => Err(error),
        },
{
    lemma_encoded_bare_placeholder(vars, true);
    lemma_encoded_bare_placeholder(vars, false);
}

/// A template without a placeholder is rendered unchanged: the payload is
/// dropped, though an encoding error is still reported.
pub proof fn lemma_encoded_without_placeholder(
    vars: Map<Seq<char>, Seq<char>>,
    escape: bool,
    format: Seq<char>,
)
    requires
        !contains(format, placeholder()),
    ensures
        encoded(vars, escape, format) == match payload(vars, escape) {
            Ok(_) => Ok(format),
            Err(error) => Err(error),
        },
{
}

/// Exactly the first placeholder of a template is replaced: the text before
/// it and everything after it, further placeholders included, is kept.
pub proof fn lemma_encoded_first_placeholder(
    vars: Map<Seq<char>, Seq<char>>,
    escape: bool,
    format: Seq<char>,
    at: int,
)
    requires
        is_first_occurrence(format, placeholder(), at),
    ensures
        encoded(vars, escape, format) == match payload(vars, escape) {
            Ok(text) => Ok(
                format.subrange(0, at) + text + format.subrange(at + 2, format.len() as int),
            ),
            Err(error) => Err(error),
        },
{
}

/// Substitutes `payload` for the first placeholder of `format`. A template
/// without a placeholder is returned as it is.
pub fn format_output(format: &str, payload: &str) -> (out: String)
    ensures
        out@ == replace_first(format@, placeholder(), payload@),
{
    proof {
        reveal_strlit("{}");
        assert("{}"@ =~= placeholder());
    }
    replace_first_in(format, "{}", payload)
}

/// The JSON text for `vars`: a JSON object, or with `escape_string` the JSON
/// string literal that holds the object's text.
pub fn encode_payload(vars: &EnvMap, escape_string: bool) -> (out: Result<String, EncodeError>)
    ensures
        match out {
            Ok(text) => payload(vars@, escape_string) == Ok::<Seq<char>, EncodeError>(text@),
            Err(error) => payload(vars@, escape_string) == Err::<Seq<char>, EncodeError>(error),
        },
{
    match object_to_json(vars) {
        Err(_) => Err(EncodeError::Json),
        Ok(object) => {
            if escape_string {
                match string_to_json(object.as_str()) {
                    Err(_) => Err(EncodeError::EscapedString),
                    Ok(literal) => Ok(literal),
                }
            } else {
                Ok(object)
            }
        },
    }
}

/// Encodes `vars` as JSON and substitutes the text for the first placeholder
/// of `format`.
pub fn encode_vars(
    vars: &EnvMap,
    escape_string: bool,
    format: &str,
) -> (out: Result<String, EncodeError>)
    ensures
        match out {
            Ok(text) => encoded(vars@, escape_string, format@) == Ok::<Seq<char>, EncodeError>(
                text@,
            ),
            Err(error) => encoded(vars@, escape_string, format@) == Err::<Seq<char>, EncodeError>(
                error,
            ),
        },
{
    match encode_payload(vars, escape_string) {
        Ok(text) => Ok(format_output(format, text.as_str())),
        Err(error) => Err(error),
    }
}

} // verus!
