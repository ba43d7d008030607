//! Messages exchanged with the editor: compile requests, diagnostics and
//! their placement in the source, and explanations of compiler messages.
use vstd::prelude::*;
use crate::text::{first_match, find_chars};
use crate::util::{owned, push_str, chars_of};

verus! {

pub struct CompileRequest {
    pub source: String,
}

pub struct Diagnostic {
    pub line: usize,
    pub column: usize,
    pub message: String,
    pub sanskrit_message: Option<String>,
    pub severity: String,
}

pub struct ExplainRequest {
    pub message: String,
}

pub struct ExplainResponse {
    pub explanation: String,
    pub sanskrit_hint: String,
    pub suggestion: Option<String>,
}

/// The lowercase form of a text, as `str::to_lowercase` computes it from the
/// Unicode case tables.
pub uninterp spec fn lowercase_of(s: Seq<char>) -> Seq<char>;

/// `str::to_lowercase`: the result is named, not spelled out.
#[verifier::external_body]
fn to_lowercase(s: &str) -> (r: String)
    ensures
        r@ == lowercase_of(s@),
{
    s.to_lowercase()
}

pub open spec fn has(s: Seq<char>, pat: Seq<char>) -> bool {
    first_match(s, pat) is Some
}

/// The explanation of a compiler message, chosen by the first topic that
/// its lowercase form mentions: explanation, hint in Sanskrit, suggestion.
pub open spec fn explanation_of(message: Seq<char>, lowered: Seq<char>) -> (Seq<char>, Seq<char>, Option<Seq<char>>) {
    if has(lowered, "borrow check"@) {
        ("The borrow checker found a violation of ownership rules. Each value in Vyākṛti has a single owner, and you cannot read or write a value that has been moved or mutably borrowed elsewhere."@, "स्वामित्व-नियमः भङ्गः — एकस्य मूल्यस्य एकः स्वामी भवति।"@,
            Some("Use `ref` (सन्दर्भः) to borrow instead of moving. Ensure no mutable borrow is active when reading."@))
    } else if has(lowered, "exhaustiveness"@) || has(lowered, "match"@) || has(lowered, "समीक्षा"@) {
        ("A match expression does not cover all variants of the enum. Vyākṛti requires exhaustive pattern matching on enums."@,
            "समीक्षा-अपूर्णता — सर्वे रूपभेदाः आच्छादिताः न सन्ति।"@,
            Some("Add missing arms for all enum variants, or add a wildcard `_` pattern."@))
    } else if has(lowered, "parse error"@) || has(lowered, "।"@) {
        ("The parser expected a statement terminator '।' (danda) to mark the end of every statement."@,
            "वाक्य-समाप्तिः — प्रत्येकं वाक्यम् '।' इत्यनेन समाप्यते।"@,
            Some("Add `।` (danda) at the end of the statement."@))
    } else if has(lowered, "undefined"@) || has(lowered, "not found"@) || has(lowered, "link"@) {
        ("A referenced function or variable could not be resolved. The name may be misspelled or the symbol was not defined in the current scope."@,
            "अपरिचितः नाम — नाम दोषयुक्तं वा अनुपस्थितं वा।"@,
            Some("Check spelling and ensure the identifier is defined before use."@))
    } else if has(lowered, "stack underflow"@) || has(lowered, "vm error"@) {
        ("The VM encountered a runtime error, usually from operating on the wrong type of value or stack corruption."@,
            "रनटाइम-दोषः — मूल्य-प्रकारः अयुक्तः वा राशिः दूषितः वा।"@,
            Some("Check that all operations receive the expected types (int + int, bool in conditions, etc.)."@))
    } else if has(lowered, "type"@) || has(lowered, "प्रकार"@) {
        ("A type mismatch was detected. Vyākṛti expects type annotations to match the actual values used."@,
            "प्रकार-असङ्गतिः — प्रकार-निर्देशः मूल्येन सह न मिलति।"@,
            Some("Verify the declared type matches the assigned value's actual type."@))
    } else {
        ("Vyākṛti compiler diagnostic: "@ + message, "व्याकृति-संकलक-निदानम्।"@, None)
    }
}

fn contains_text(hay: &Vec<char>, pat: &str) -> (r: bool)
    ensures
        r == has(hay@, pat@),
{
    let p = chars_of(pat);
    find_chars(hay, &p).is_some()
}

fn response(explanation: &str, hint: &str, suggestion: &str) -> (r: ExplainResponse)
    ensures
        r.explanation@ == explanation@,
        r.sanskrit_hint@ == hint@,
        r.suggestion matches Some(x) && x@ == suggestion@,
{
    ExplainResponse { explanation: owned(explanation), sanskrit_hint: owned(hint), suggestion: Some(owned(suggestion)) }
}

/// The explanation of a message given its lowercase form.
pub fn explain_lowered(message: &str, lowered: &str) -> (r: ExplainResponse)
    ensures
        (r.explanation@, r.sanskrit_hint@, match r.suggestion { Some(x) => Some(x@), None => None }) == explanation_of(message@, lowered@),
{
    let l = chars_of(lowered);
    if contains_text(&l, "borrow check") {
        response("The borrow checker found a violation of ownership rules. Each value in Vyākṛti has a single owner, and you cannot read or write a value that has been moved or mutably borrowed elsewhere.",
            "स्वामित्व-नियमः भङ्गः — एकस्य मूल्यस्य एकः स्वामी भवति।",
            "Use `ref` (सन्दर्भः) to borrow instead of moving. Ensure no mutable borrow is active when reading.")
    } else if contains_text(&l, "exhaustiveness") || contains_text(&l, "match") || contains_text(&l, "समीक्षा") {
        response("A match expression does not cover all variants of the enum. Vyākṛti requires exhaustive pattern matching on enums.",
            "समीक्षा-अपूर्णता — सर्वे रूपभेदाः आच्छादिताः न सन्ति।",
            "Add missing arms for all enum variants, or add a wildcard `_` pattern.")
    } else if contains_text(&l, "parse error") || contains_text(&l, "।") {
        response("The parser expected a statement terminator '।' (danda) to mark the end of every statement.",
            "वाक्य-समाप्तिः — प्रत्येकं वाक्यम् '।' इत्यनेन समाप्यते।",
            "Add `।` (danda) at the end of the statement.")
    } else if contains_text(&l, "undefined") || contains_text(&l, "not found") || contains_text(&l, "link") {
        response("A referenced function or variable could not be resolved. The name may be misspelled or the symbol was not defined in the current scope.",
            "अपरिचितः नाम — नाम दोषयुक्तं वा अनुपस्थितं वा।",
            "Check spelling and ensure the identifier is defined before use.")
    } else if contains_text(&l, "stack underflow") || contains_text(&l, "vm error") {
        response("The VM encountered a runtime error, usually from operating on the wrong type of value or stack corruption.",
            "रनटाइम-दोषः — मूल्य-प्रकारः अयुक्तः वा राशिः दूषितः वा।",
            "Check that all operations receive the expected types (int + int, bool in conditions, etc.).")
    } else if contains_text(&l, "type") || contains_text(&l, "प्रकार") {
        response("A type mismatch was detected. Vyākṛti expects type annotations to match the actual values used.",
            "प्रकार-असङ्गतिः — प्रकार-निर्देशः मूल्येन सह न मिलति।",
            "Verify the declared type matches the assigned value's actual type.")
    } else {
        let mut e = owned("Vyākṛti compiler diagnostic: ");
        push_str(&mut e, message);
        ExplainResponse { explanation: e, sanskrit_hint: owned("व्याकृति-संकलक-निदानम्।"), suggestion: None }
    }
}

/// The explanation of a compiler message, matched on its lowercase form.
pub fn explain(message: &str) -> (r: ExplainResponse)
    ensures
        (r.explanation@, r.sanskrit_hint@, match r.suggestion { Some(x) => Some(x@), None => None })
            == explanation_of(message@, lowercase_of(message@)),
{
    let lowered = to_lowercase(message);
    explain_lowered(message, lowered.as_str())
}

} // verus!
