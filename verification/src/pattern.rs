//! The regular expressions that find declarations in project files and C# sources, and what the
//! `regex` crate is relied on for.
//!
//! Each search compiles its pattern anew: a project is scanned once, and only a handful of its
//! files.

use regex::Regex;
use vstd::prelude::*;
use crate::syntax;
use crate::syntax::{AddCall, OpenApiCall};
use crate::text;

verus! {

/// Matches `<TargetFramework>net9.0</TargetFramework>`.
pub const TARGET_FRAMEWORK: &'static str = r"<TargetFramework>(.*?)</TargetFramework>";

/// Matches any `builder.Add*("name")` or `builder.Add*<Type>("name")` call. Captures the `Add*`
/// suffix (1), the last part of the generic type argument where there is one (2) and the resource
/// name (3).
pub const ADD_RESOURCE: &'static str = r#"builder\s*\.\s*Add([A-Za-z][A-Za-z0-9]*)\s*(?:<\s*(?:[A-Za-z0-9_.]+\.)?([A-Za-z0-9_]+)\s*>)?\s*\(\s*"([^"]+)""#;

/// Matches `AddOpenApi()`, `AddOpenApi("document")` and `AddOpenApiDefaults(...)`. Captures the
/// document name where there is one (1).
pub const ADD_OPENAPI: &'static str = r#"AddOpenApi(?:Defaults)?\s*\(\s*(?:"([^"]*)")?"#;

/// Matches `MapOpenApi()`, `MapOpenApi("document")` and `MapOpenApi("/path/{documentName}/...")`.
/// Captures the document name or path where there is one (1).
pub const MAP_OPENAPI: &'static str = r#"MapOpenApi\s*\(\s*(?:"([^"]*)")?"#;

/// Matches `AddSwaggerGen(`.
pub const ADD_SWAGGER: &'static str = r"AddSwaggerGen\s*\(";

/// One match: for the whole match and then for each group of the pattern, the byte offset at which
/// it starts and its text, or `None` for a group that took no part in the match.
pub type Capture = Vec<Option<(usize, String)>>;

/// The view of a [`Capture`].
pub type CaptureView = Seq<Option<(usize, Seq<char>)>>;

/// The matches that `regex::Regex::captures_iter` yields for the pattern `pattern` in `text`.
pub uninterp spec fn all_captures(pattern: Seq<char>, text: Seq<char>) -> Seq<
    Seq<Option<(usize, Seq<char>)>>,
>;

/// At position `i` of `source` stands `name`, then white space up to an opening parenthesis at
/// position `j`.
pub open spec fn call_at(name: Seq<char>, source: Seq<char>, i: int, j: int) -> bool {
    &&& text::occurs_at(name, source, i)
    &&& i + name.len() <= j < source.len()
    &&& forall|k: int| i + name.len() <= k < j ==> syntax::is_white_space(#[trigger] source[k])
    &&& source[j] == '('
}

/// `source` calls something whose name ends with `name`.
pub open spec fn calls(source: Seq<char>, name: Seq<char>) -> bool {
    exists|i: int, j: int| call_at(name, source, i, j)
}

/// At position `i` of `csproj` stands a `<TargetFramework>` tag, at position `j` a closing one, and
/// no line break between them.
pub open spec fn framework_element(csproj: Seq<char>, i: int, j: int) -> bool {
    let content = i + "<TargetFramework>"@.len();
    &&& text::occurs_at("<TargetFramework>"@, csproj, i)
    &&& content <= j
    &&& text::occurs_at("</TargetFramework>"@, csproj, j)
    &&& forall|k: int| content <= k < j ==> #[trigger] csproj[k] != '\n'
}

/// Of the elements that `framework_element` admits, the one from `i` to `j` starts leftmost, and of
/// those that start there it is the shortest.
pub open spec fn first_framework_element(csproj: Seq<char>, i: int, j: int) -> bool {
    &&& framework_element(csproj, i, j)
    &&& forall|j2: int| #[trigger] framework_element(csproj, i, j2) ==> j <= j2
    &&& forall|i2: int, j2: int| #[trigger] framework_element(csproj, i2, j2) ==> i <= i2
}

/// The content of the first `<TargetFramework>` element of `csproj`, where there is one.
pub open spec fn framework_content(csproj: Seq<char>) -> Option<Seq<char>> {
    if exists|i: int, j: int| first_framework_element(csproj, i, j) {
        let (i, j) = choose|i: int, j: int| first_framework_element(csproj, i, j);
        Some(csproj.subrange(i + "<TargetFramework>"@.len(), j))
    } else {
        None
    }
}

/// The text of group `g` of `capture`, where the group took part in the match.
pub open spec fn group_text(capture: CaptureView, g: int) -> Option<Seq<char>> {
    if 0 <= g < capture.len() && capture[g] is Some {
        Some((capture[g]->0).1)
    } else {
        None
    }
}

/// The text of group `g` of `capture`; empty where the group took no part in the match.
pub open spec fn text_or_empty(capture: CaptureView, g: int) -> Seq<char> {
    match group_text(capture, g) {
        Some(found) => found,
        None => Seq::empty(),
    }
}

/// The byte offset at which `capture` starts; 0 where it lacks the whole match.
pub open spec fn start_of(capture: CaptureView) -> usize {
    if capture.len() > 0 && capture[0] is Some {
        (capture[0]->0).0
    } else {
        0
    }
}

/// The byte offset at which `capture` ends.
pub open spec fn end_of(capture: CaptureView) -> int {
    start_of(capture) + vstd::utf8::encode_utf8((capture[0]->0).1).len()
}

/// The whole match is there, and it and every group that took part stand where `capture` says.
pub open spec fn located(capture: CaptureView, source: Seq<char>) -> bool {
    &&& capture.len() > 0
    &&& capture[0] is Some
    &&& forall|g: int|
        0 <= g < capture.len() && (#[trigger] capture[g]) is Some ==> syntax::stands_at_offset(
            (capture[g]->0).1,
            source,
            (capture[g]->0).0,
        )
}

/// No match starts before an earlier one ends.
pub open spec fn in_order(captures: Seq<CaptureView>) -> bool {
    forall|k: int, l: int|
        0 <= k < l < captures.len() ==> end_of(#[trigger] captures[k]) <= start_of(
            #[trigger] captures[l],
        )
}

/// Some match starts at or before the byte offset `offset` and ends after it.
pub open spec fn covered(captures: Seq<CaptureView>, offset: int) -> bool {
    exists|k: int|
        0 <= k < captures.len() && start_of(#[trigger] captures[k]) <= offset < end_of(captures[k])
}

/// `capture` holds `call`: its whole text, its suffix, its type where it has one, its name.
pub open spec fn holds_add(capture: CaptureView, call: AddCall) -> bool {
    &&& capture.len() == 4
    &&& group_text(capture, 0) == Some(call.text())
    &&& group_text(capture, 1) == Some(call.suffix)
    &&& group_text(capture, 2) == (match call.argument {
        Some(argument) => Some(argument.name),
        None => None,
    })
    &&& group_text(capture, 3) == Some(call.name)
}

/// `capture` holds `call`: its whole text, and its argument where it has one.
pub open spec fn holds_openapi(capture: CaptureView, call: OpenApiCall) -> bool {
    &&& capture.len() == 2
    &&& group_text(capture, 0) == Some(call.text())
    &&& group_text(capture, 1) == call.argument
}

/// `capture` is a call in `source` that adds a resource.
pub open spec fn is_add(capture: CaptureView, source: Seq<char>) -> bool {
    exists|call: AddCall|
        #[trigger] call.stands_at(source, start_of(capture)) && holds_add(capture, call)
}

/// `capture` is a call in `source` that registers an OpenAPI document.
pub open spec fn is_registration(capture: CaptureView, source: Seq<char>) -> bool {
    exists|call: OpenApiCall|
        #[trigger] call.registers_at(source, start_of(capture)) && holds_openapi(capture, call)
}

/// `capture` is a call in `source` that maps OpenAPI documents.
pub open spec fn is_mapping(capture: CaptureView, source: Seq<char>) -> bool {
    exists|call: OpenApiCall|
        #[trigger] call.maps_at(source, start_of(capture)) && holds_openapi(capture, call)
}

/// `captures` are the calls in `source` that add a resource, and pass none over.
pub open spec fn are_adds(captures: Seq<CaptureView>, source: Seq<char>) -> bool {
    &&& forall|k: int| 0 <= k < captures.len() ==> is_add(#[trigger] captures[k], source)
    &&& forall|call: AddCall, offset: usize| #[trigger]
        call.stands_at(source, offset) ==> covered(captures, offset as int)
}

/// `captures` are the calls in `source` that register an OpenAPI document, and pass none over.
pub open spec fn are_registrations(captures: Seq<CaptureView>, source: Seq<char>) -> bool {
    &&& forall|k: int| 0 <= k < captures.len() ==> is_registration(#[trigger] captures[k], source)
    &&& forall|call: OpenApiCall, offset: usize| #[trigger]
        call.registers_at(source, offset) ==> covered(captures, offset as int)
}

/// `captures` are the calls in `source` that map OpenAPI documents, and pass none over.
pub open spec fn are_mappings(captures: Seq<CaptureView>, source: Seq<char>) -> bool {
    &&& forall|k: int| 0 <= k < captures.len() ==> is_mapping(#[trigger] captures[k], source)
    &&& forall|call: OpenApiCall, offset: usize| #[trigger]
        call.maps_at(source, offset) ==> covered(captures, offset as int)
}

/// `after` is `before` with every offset further on by `n`.
pub open spec fn moved_capture(before: CaptureView, after: CaptureView, n: nat) -> bool {
    &&& before.len() == after.len()
    &&& forall|g: int|
        0 <= g < before.len() ==> match (#[trigger] before[g], #[trigger] after[g]) {
            (Some(from), Some(to)) => to.0 == from.0 + n && to.1 == from.1,
            (None, None) => true,
            _ => false,
        }
}

/// `after` are the matches of `before`, further on by `n`.
pub open spec fn moved(before: Seq<CaptureView>, after: Seq<CaptureView>, n: nat) -> bool {
    &&& before.len() == after.len()
    &&& forall|k: int|
        0 <= k < before.len() ==> moved_capture(#[trigger] before[k], #[trigger] after[k], n)
}

/// `regex::Regex::is_match` tells whether the pattern matches anywhere in the text. Of the two
/// patterns that are looked for in this way it is relied on that [`ADD_SWAGGER`] matches where
/// `AddSwaggerGen` stands before white space and an opening parenthesis, and [`MAP_OPENAPI`], whose
/// other parts are optional, where `MapOpenApi` does. `regex::Regex::new` accepts both patterns.
#[verifier::external_body]
pub(crate) fn is_match(pattern: &str, source: &str) -> (found: bool)
    requires
        pattern@ == ADD_SWAGGER@ || pattern@ == MAP_OPENAPI@,
    ensures
        pattern@ == ADD_SWAGGER@ ==> found == calls(source@, "AddSwaggerGen"@),
        pattern@ == MAP_OPENAPI@ ==> found == calls(source@, "MapOpenApi"@),
{
    Regex::new(pattern).unwrap().is_match(source)
}

/// `regex::Regex::captures` gives the groups of the leftmost match, or `None` where there is no
/// match. It is used with [`TARGET_FRAMEWORK`], whose `.*?` takes as few characters as it can, and
/// no line break: group 1 is the content of the first element. `regex::Regex::new` accepts the
/// pattern.
#[verifier::external_body]
pub(crate) fn captures(pattern: &str, source: &str) -> (r: Option<Capture>)
    requires
        pattern@ == TARGET_FRAMEWORK@,
    ensures
        match r.deep_view() {
            Some(groups) => group_text(groups, 1) is Some && group_text(groups, 1)
                == framework_content(source@),
            None => framework_content(source@) is None,
        },
{
    Regex::new(pattern).unwrap().captures(source).map(
        |groups| groups.iter().map(|g| g.map(|m| (m.start(), m.as_str().to_string()))).collect(),
    )
}

/// `regex::Regex::captures_iter` yields the groups of all successive matches that do not overlap.
/// What these are is named by [`all_captures`]. Of every match it is relied on that group 0 is the
/// whole match, that offsets lie on character boundaries and that a group's text is what stands
/// there. Each pattern begins with a letter and looks at nothing outside a match, so line breaks
/// before a text only move its matches. A match is a call of the pattern's form, its groups are the
/// parts of that call, and, each search being for the leftmost match from the end of the last one
/// on, there is no such call that does not start within a match; a quoted argument is taken where
/// there is one. `regex::Regex::new` accepts the three patterns.
#[verifier::external_body]
pub(crate) fn captures_iter(pattern: &str, source: &str) -> (r: Vec<Capture>)
    requires
        pattern@ == ADD_RESOURCE@ || pattern@ == ADD_OPENAPI@ || pattern@ == MAP_OPENAPI@,
    ensures
        r.deep_view() == all_captures(pattern@, source@),
        forall|k: int| 0 <= k < r.len() ==> located(#[trigger] r.deep_view()[k], source@),
        in_order(r.deep_view()),
        ({
            let rest = text::without_leading(source@, '\n');
            moved(
                all_captures(pattern@, rest),
                r.deep_view(),
                (source@.len() - rest.len()) as nat,
            )
        }),
        pattern@ == ADD_OPENAPI@ ==> (r.len() > 0) == (calls(source@, "AddOpenApi"@) || calls(
            source@,
            "AddOpenApiDefaults"@,
        )),
        pattern@ == MAP_OPENAPI@ ==> (r.len() > 0) == calls(source@, "MapOpenApi"@),
        pattern@ == ADD_OPENAPI@ ==> are_registrations(r.deep_view(), source@),
        pattern@ == MAP_OPENAPI@ ==> are_mappings(r.deep_view(), source@),
        pattern@ == ADD_RESOURCE@ ==> are_adds(r.deep_view(), source@),
{
    Regex::new(pattern).unwrap().captures_iter(source).map(
        |groups| groups.iter().map(|g| g.map(|m| (m.start(), m.as_str().to_string()))).collect(),
    ).collect()
}

/// The text of group `g` of `capture`, where the group took part in the match.
pub fn group(capture: &Capture, g: usize) -> (r: Option<String>)
    ensures
        r.deep_view() == group_text(capture.deep_view(), g as int),
{
    if g < capture.len() {
        match &capture[g] {
            Some(found) => Some(found.1.clone()),
            None => None,
        }
    } else {
        None
    }
}

/// The text of group `g` of `capture`; empty where the group took no part in the match.
pub fn group_or_empty(capture: &Capture, g: usize) -> (r: String)
    ensures
        r@ == text_or_empty(capture.deep_view(), g as int),
{
    match group(capture, g) {
        Some(found) => found,
        None => String::new(),
    }
}

/// The byte offset at which `capture` starts; 0 where it lacks the whole match.
pub fn start(capture: &Capture) -> (r: usize)
    ensures
        r == start_of(capture.deep_view()),
{
    if capture.len() > 0 {
        match &capture[0] {
            Some(found) => found.0,
            None => 0,
        }
    } else {
        0
    }
}

/// The patterns, letter by letter, on which what is relied on rests.
pub proof fn patterns_are_these()
    ensures
        TARGET_FRAMEWORK@ == r"<TargetFramework>(.*?)</TargetFramework>"@,
        ADD_RESOURCE@
            == r#"builder\s*\.\s*Add([A-Za-z][A-Za-z0-9]*)\s*(?:<\s*(?:[A-Za-z0-9_.]+\.)?([A-Za-z0-9_]+)\s*>)?\s*\(\s*"([^"]+)""#@,
        ADD_OPENAPI@ == r#"AddOpenApi(?:Defaults)?\s*\(\s*(?:"([^"]*)")?"#@,
        MAP_OPENAPI@ == r#"MapOpenApi\s*\(\s*(?:"([^"]*)")?"#@,
        ADD_SWAGGER@ == r"AddSwaggerGen\s*\("@,
{
}

/// A group that took part in a match is read as it stands, and one that did not as nothing; the
/// match starts where its whole text does.
pub proof fn groups_are_read_as_they_stand(capture: CaptureView, g: int)
    requires
        0 <= g < capture.len(),
    ensures
        match capture[g] {
            Some(found) => {
                &&& group_text(capture, g) == Some(found.1)
                &&& text_or_empty(capture, g) == found.1
                &&& g == 0 ==> start_of(capture) == found.0
            },
            None => group_text(capture, g) is None && text_or_empty(capture, g).len() == 0,
        },
{
}

} // verus!
