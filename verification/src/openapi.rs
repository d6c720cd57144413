//! The OpenAPI documents that the source of an ASP.NET project registers.

use crate::model::{EntryPoint, EntryPointView};
use crate::names;
use crate::pattern;
use crate::pattern::{Capture, CaptureView};
use crate::syntax;
use crate::syntax::OpenApiCall;
use crate::text;
use vstd::prelude::*;
use vstd::utf8;

verus! {

/// The document that an argument of `AddOpenApi` names, or `v1` where it names none.
pub open spec fn named_document(argument: Option<Seq<char>>) -> Seq<char> {
    match argument {
        Some(name) => if name.len() > 0 {
            name
        } else {
            "v1"@
        },
        None => "v1"@,
    }
}

/// The document that a match of [`pattern::ADD_OPENAPI`] registers.
pub open spec fn document_name(registration: CaptureView) -> Seq<char> {
    named_document(pattern::group_text(registration, 1))
}

/// The documents that a list of `AddOpenApi` calls registers, call by call.
pub open spec fn document_names(registrations: Seq<CaptureView>) -> Seq<Seq<char>> {
    registrations.map_values(|registration: CaptureView| document_name(registration))
}

/// The path template that an argument of `MapOpenApi` is: one has a brace in it.
pub open spec fn template_in(argument: Option<Seq<char>>) -> Option<Seq<char>> {
    match argument {
        Some(argument) => if argument.contains('{') {
            Some(argument)
        } else {
            None
        },
        None => None,
    }
}

/// The path template that a match of [`pattern::MAP_OPENAPI`] gives.
pub open spec fn path_template(mapping: CaptureView) -> Option<Seq<char>> {
    template_in(pattern::group_text(mapping, 1))
}

/// The first path template that a list of `MapOpenApi` calls gives.
pub open spec fn first_template(mappings: Seq<CaptureView>) -> Option<Seq<char>>
    decreases mappings.len(),
{
    if mappings.len() == 0 {
        None
    } else if path_template(mappings[0]) is Some {
        path_template(mappings[0])
    } else {
        first_template(mappings.drop_first())
    }
}

/// The path at which `document` is served.
pub open spec fn document_path(template: Option<Seq<char>>, document: Seq<char>) -> Seq<char> {
    match template {
        Some(template) => text::replaced(template, "{documentName}"@, document),
        None => "/openapi/"@ + document + ".json"@,
    }
}

/// What is said of `document`, with a remark where nothing maps its route.
pub open spec fn document_description(mapped: bool, document: Seq<char>) -> Seq<char> {
    let named = "OpenAPI spec for document \""@ + document;
    if mapped {
        named + "\""@
    } else {
        named + "\" (MapOpenApi not detected — may be dev-only)"@
    }
}

/// An entry point for the OpenAPI document of `resource` at `spec_path`.
pub open spec fn oas_entry(
    resource: Seq<char>,
    spec_path: Seq<char>,
    description: Seq<char>,
    rel_path: Seq<char>,
) -> EntryPointView {
    EntryPointView {
        label: resource + ": "@ + spec_path,
        path: rel_path,
        line: None,
        method: Some("OAS"@),
        description: Some(description),
        detection_source: Some("regex"@),
    }
}

/// The entry points for the documents that `registrations` register, one for each name, in the
/// order of the names. Where the documents are mapped, the first path template of `mappings` holds
/// for all of them.
pub open spec fn document_entries(
    registrations: Seq<CaptureView>,
    mapped: bool,
    mappings: Seq<CaptureView>,
    resource: Seq<char>,
    rel_path: Seq<char>,
) -> Seq<EntryPointView> {
    let template = if mapped {
        first_template(mappings)
    } else {
        None
    };
    names::sorted(document_names(registrations)).map_values(
        |document: Seq<char>|
            oas_entry(
                resource,
                document_path(template, document),
                document_description(mapped, document),
                rel_path,
            ),
    )
}

/// The entry point for the document that Swashbuckle serves.
pub open spec fn swagger_entry(resource: Seq<char>, rel_path: Seq<char>) -> EntryPointView {
    oas_entry(resource, "/swagger/v1/swagger.json"@, "OpenAPI spec (Swashbuckle)"@, rel_path)
}

/// The OpenAPI entry points of `source`: Swashbuckle's alone where it is registered, else one for
/// each document that an `AddOpenApi` call registers.
pub open spec fn source_entries(
    source: Seq<char>,
    resource: Seq<char>,
    rel_path: Seq<char>,
) -> Seq<EntryPointView> {
    if pattern::calls(source, "AddSwaggerGen"@) {
        seq![swagger_entry(resource, rel_path)]
    } else {
        document_entries(
            pattern::all_captures(pattern::ADD_OPENAPI@, source),
            pattern::calls(source, "MapOpenApi"@),
            pattern::all_captures(pattern::MAP_OPENAPI@, source),
            resource,
            rel_path,
        )
    }
}

/// The path template that holds for the documents of `source`, where they are mapped.
pub open spec fn source_template(source: Seq<char>) -> Option<Seq<char>> {
    if pattern::calls(source, "MapOpenApi"@) {
        first_template(pattern::all_captures(pattern::MAP_OPENAPI@, source))
    } else {
        None
    }
}

/// The entry point for `document`, which `source` registers.
pub open spec fn document_entry(
    document: Seq<char>,
    source: Seq<char>,
    resource: Seq<char>,
    rel_path: Seq<char>,
) -> EntryPointView {
    oas_entry(
        resource,
        document_path(source_template(source), document),
        document_description(pattern::calls(source, "MapOpenApi"@), document),
        rel_path,
    )
}

/// Some call in `source` registers the document of `entry`.
pub open spec fn is_registered(
    entry: EntryPointView,
    source: Seq<char>,
    resource: Seq<char>,
    rel_path: Seq<char>,
) -> bool {
    exists|call: OpenApiCall, offset: usize| #[trigger]
        call.registers_at(source, offset) && entry == document_entry(
            named_document(call.argument),
            source,
            resource,
            rel_path,
        )
}

/// The byte offset `offset` of `source` lies in the middle of a call that registers a document.
pub open spec fn is_within_registration(offset: usize, source: Seq<char>) -> bool {
    exists|call: OpenApiCall, start: usize| #[trigger]
        call.registers_at(source, start) && syntax::spans(call.text(), source, start, offset)
}

/// The byte offset `offset` of `source` lies in the middle of a call that maps documents.
pub open spec fn is_within_mapping(offset: usize, source: Seq<char>) -> bool {
    exists|call: OpenApiCall, start: usize| #[trigger]
        call.maps_at(source, start) && syntax::spans(call.text(), source, start, offset)
}

/// `entries` are for what the calls in `source` register: each of them is for the document of some
/// call, and each call has one of them for its document, unless it starts in the middle of another.
pub open spec fn are_registered(
    entries: Seq<EntryPointView>,
    source: Seq<char>,
    resource: Seq<char>,
    rel_path: Seq<char>,
) -> bool {
    &&& forall|k: int|
        0 <= k < entries.len() ==> is_registered(#[trigger] entries[k], source, resource, rel_path)
    &&& forall|call: OpenApiCall, offset: usize| #[trigger]
        call.registers_at(source, offset) ==> entries.contains(
            document_entry(named_document(call.argument), source, resource, rel_path),
        ) || is_within_registration(offset, source)
}

/// A call that maps documents stands in `source` at the byte offset `offset`, not in the middle of
/// another, and gives a path template.
pub open spec fn template_at(call: OpenApiCall, source: Seq<char>, offset: usize) -> bool {
    &&& call.maps_at(source, offset)
    &&& template_in(call.argument) is Some
    &&& !is_within_mapping(offset, source)
}

/// `template` is the path template of the first call in `source` that maps documents and gives one.
/// There is none only where no call gives one, but for calls in the middle of others.
pub open spec fn is_first_template(template: Option<Seq<char>>, source: Seq<char>) -> bool {
    match template {
        Some(template) => exists|call: OpenApiCall, offset: usize|
            {
                &&& #[trigger] call.maps_at(source, offset)
                &&& template_in(call.argument) == Some(template)
                &&& forall|other: OpenApiCall, start: usize| #[trigger]
                    template_at(other, source, start) ==> offset <= start
            },
        None => forall|call: OpenApiCall, offset: usize| !#[trigger]
            template_at(call, source, offset),
    }
}

/// Where `source` does not register Swashbuckle, `entries` are for the documents that its calls
/// register, at paths after the first path template that its calls give.
pub open spec fn are_documents_of(
    entries: Seq<EntryPointView>,
    source: Seq<char>,
    resource: Seq<char>,
    rel_path: Seq<char>,
) -> bool {
    !pattern::calls(source, "AddSwaggerGen"@) ==> are_registered(
        entries,
        source,
        resource,
        rel_path,
    ) && is_first_template(source_template(source), source)
}

/// The document that an `AddOpenApi` call registers.
pub fn registered_document(registration: &Capture) -> (r: String)
    ensures
        r@ == document_name(registration.deep_view()),
{
    match pattern::group(registration, 1) {
        Some(name) => if name.as_str().is_empty() {
            "v1".to_string()
        } else {
            name
        },
        None => "v1".to_string(),
    }
}

/// The documents that `registrations` register, in the order of their names, each once.
pub fn registered_documents(registrations: &Vec<Capture>) -> (r: Vec<String>)
    ensures
        r.deep_view() == names::sorted(document_names(registrations.deep_view())),
{
    let mut documents: Vec<String> = Vec::new();
    let ghost all = document_names(registrations.deep_view());
    let mut i: usize = 0;
    while i < registrations.len()
        invariant
            i <= registrations.len(),
            all == document_names(registrations.deep_view()),
            documents.deep_view() == all.take(i as int),
        decreases registrations.len() - i,
    {
        let ghost before = documents.deep_view();
        let document: String = registered_document(&registrations[i]);
        assert(registrations.deep_view()[i as int] == registrations[i as int].deep_view());
        documents.push(document);
        assert(documents.deep_view() =~= before.push(document@));
        i += 1;
    }
    assert(all.take(i as int) =~= all);
    names::sorted_names(documents)
}

/// The path template that a `MapOpenApi` call gives.
pub fn template_of(mapping: &Capture) -> (r: Option<String>)
    ensures
        r.deep_view() == path_template(mapping.deep_view()),
{
    match pattern::group(mapping, 1) {
        Some(argument) => if text::has_char(argument.as_str(), '{') {
            Some(argument)
        } else {
            None
        },
        None => None,
    }
}

/// The first path template that a list of `MapOpenApi` calls gives.
pub fn find_template(mappings: &Vec<Capture>) -> (r: Option<String>)
    ensures
        r.deep_view() == first_template(mappings.deep_view()),
{
    let ghost all = mappings.deep_view();
    let mut i: usize = 0;
    assert(all.skip(0) =~= all);
    while i < mappings.len()
        invariant
            i <= mappings.len(),
            all == mappings.deep_view(),
            first_template(all) == first_template(all.skip(i as int)),
        decreases mappings.len() - i,
    {
        assert(all[i as int] == mappings[i as int].deep_view());
        let template: Option<String> = template_of(&mappings[i]);
        if template.is_some() {
            return template;
        }
        assert(all.skip(i as int).drop_first() =~= all.skip(i + 1));
        i += 1;
    }
    None
}

/// The path at which `document` is served.
fn served_path(template: &Option<String>, document: &str) -> (r: String)
    ensures
        r@ == document_path(template.deep_view(), document@),
{
    match template {
        Some(template) => {
            proof {
                reveal_strlit("{documentName}");
            }
            text::replace(template.as_str(), "{documentName}", document)
        },
        None => {
            let mut path: String = "/openapi/".to_string();
            path.append(document);
            path.append(".json");
            path
        },
    }
}

/// What is said of `document`.
fn describe(mapped: bool, document: &str) -> (r: String)
    ensures
        r@ == document_description(mapped, document@),
{
    let mut description: String = "OpenAPI spec for document \"".to_string();
    description.append(document);
    if mapped {
        description.append("\"");
    } else {
        description.append("\" (MapOpenApi not detected — may be dev-only)");
    }
    description
}

/// An entry point for the OpenAPI document of `resource_name` at `spec_path`.
fn oas_entry_point(
    resource_name: &str,
    spec_path: &str,
    description: String,
    rel_path: &str,
) -> (r: EntryPoint)
    ensures
        r@ == oas_entry(resource_name@, spec_path@, description@, rel_path@),
{
    let mut label: String = resource_name.to_string();
    label.append(": ");
    label.append(spec_path);
    EntryPoint {
        label,
        path: rel_path.to_string(),
        line: None,
        method: Some("OAS".to_string()),
        description: Some(description),
        detection_source: Some("regex".to_string()),
    }
}

/// The entry points for the documents that `registrations` register, given whether the source maps
/// documents at all and how.
pub fn document_entry_points(
    registrations: &Vec<Capture>,
    mapped: bool,
    mappings: &Vec<Capture>,
    resource_name: &str,
    rel_path: &str,
) -> (r: Vec<EntryPoint>)
    ensures
        r.deep_view() == document_entries(
            registrations.deep_view(),
            mapped,
            mappings.deep_view(),
            resource_name@,
            rel_path@,
        ),
{
    let documents: Vec<String> = registered_documents(registrations);
    let template: Option<String> = if mapped {
        find_template(mappings)
    } else {
        None
    };
    let ghost all = document_entries(
        registrations.deep_view(),
        mapped,
        mappings.deep_view(),
        resource_name@,
        rel_path@,
    );
    let mut entries: Vec<EntryPoint> = Vec::new();
    let mut i: usize = 0;
    while i < documents.len()
        invariant
            i <= documents.len(),
            documents.deep_view() == names::sorted(document_names(registrations.deep_view())),
            template.deep_view() == (if mapped {
                first_template(mappings.deep_view())
            } else {
                None
            }),
            all == document_entries(
                registrations.deep_view(),
                mapped,
                mappings.deep_view(),
                resource_name@,
                rel_path@,
            ),
            entries.deep_view() == all.take(i as int),
        decreases documents.len() - i,
    {
        let document: &str = documents[i].as_str();
        assert(documents.deep_view()[i as int] == document@);
        let spec_path: String = served_path(&template, document);
        let ghost before = entries.deep_view();
        let entry: EntryPoint = oas_entry_point(
            resource_name,
            spec_path.as_str(),
            describe(mapped, document),
            rel_path,
        );
        entries.push(entry);
        assert(entries.deep_view() =~= before.push(entry@));
        assert(all[i as int] == entry@);
        i += 1;
    }
    assert(all.take(i as int) =~= all);
    entries
}

/// Scans a source file for OpenAPI registrations.
///
/// There is an entry point at all exactly where the source registers Swashbuckle or an OpenAPI
/// document. Where it does not register Swashbuckle, the entry points are for the documents that its
/// calls register, and the first path template that its calls give holds for all of them; no call is
/// passed over but one that starts in the middle of another.
pub fn extract_oas_entry_points_from_source(src: &str, resource_name: &str, rel_path: &str) -> (r:
    Vec<EntryPoint>)
    ensures
        r.deep_view() == source_entries(src@, resource_name@, rel_path@),
        r.len() > 0 <==> pattern::calls(src@, "AddSwaggerGen"@) || pattern::calls(
            src@,
            "AddOpenApi"@,
        ) || pattern::calls(src@, "AddOpenApiDefaults"@),
        are_documents_of(r.deep_view(), src@, resource_name@, rel_path@),
{
    if pattern::is_match(pattern::ADD_SWAGGER, src) {
        let mut entries: Vec<EntryPoint> = Vec::new();
        let entry: EntryPoint = oas_entry_point(
            resource_name,
            "/swagger/v1/swagger.json",
            "OpenAPI spec (Swashbuckle)".to_string(),
            rel_path,
        );
        entries.push(entry);
        assert(entries.deep_view() =~= seq![swagger_entry(resource_name@, rel_path@)]);
        return entries;
    }
    let registrations: Vec<Capture> = pattern::captures_iter(pattern::ADD_OPENAPI, src);
    let mapped: bool = pattern::is_match(pattern::MAP_OPENAPI, src);
    let mappings: Vec<Capture> = pattern::captures_iter(pattern::MAP_OPENAPI, src);
    let entries: Vec<EntryPoint> = document_entry_points(
        &registrations,
        mapped,
        &mappings,
        resource_name,
        rel_path,
    );
    proof {
        let documents = document_names(registrations.deep_view());
        names::sorted_holds_the_names_in_order(documents);
        let sorted = names::sorted(documents);
        if registrations.len() > 0 {
            assert(documents.contains(documents[0]));
            assert(sorted.contains(documents[0]));
        } else if sorted.len() > 0 {
            assert(sorted.contains(sorted[0]));
            assert(documents.contains(sorted[0]));
        }
        assert(entries.len() == entries.deep_view().len());
        registrations_are_registered(src@, resource_name@, rel_path@);
        first_template_is_found(src@);
    }
    entries
}

/// Every OpenAPI entry point is marked as such, lies in the scanned file and carries no line.
pub proof fn oas_entries_are_marked(
    source: Seq<char>,
    resource: Seq<char>,
    rel_path: Seq<char>,
    k: int,
)
    requires
        0 <= k < source_entries(source, resource, rel_path).len(),
    ensures
        ({
            let entry = source_entries(source, resource, rel_path)[k];
            &&& entry.method == Some("OAS"@)
            &&& entry.detection_source == Some("regex"@)
            &&& entry.path == rel_path
            &&& entry.line is None
        }),
{
}

/// Registering a document again, or registering the documents in another order, changes nothing.
pub proof fn entries_depend_on_the_documents_alone(
    registrations: Seq<CaptureView>,
    others: Seq<CaptureView>,
    mapped: bool,
    mappings: Seq<CaptureView>,
    resource: Seq<char>,
    rel_path: Seq<char>,
)
    requires
        names::same_names(document_names(registrations), document_names(others)),
    ensures
        document_entries(registrations, mapped, mappings, resource, rel_path) == document_entries(
            others,
            mapped,
            mappings,
            resource,
            rel_path,
        ),
{
    names::sorted_depends_on_the_names_alone(
        document_names(registrations),
        document_names(others),
    );
}

/// Each registered document has an entry point with its path and description, and each entry point
/// belongs to a registered document.
pub proof fn documents_and_entries_correspond(
    registrations: Seq<CaptureView>,
    mapped: bool,
    mappings: Seq<CaptureView>,
    resource: Seq<char>,
    rel_path: Seq<char>,
    entry: EntryPointView,
)
    ensures
        document_entries(registrations, mapped, mappings, resource, rel_path).contains(entry)
            <==> exists|k: int|
            0 <= k < registrations.len() && entry == oas_entry(
                resource,
                document_path(
                    if mapped {
                        first_template(mappings)
                    } else {
                        None
                    },
                    document_name(#[trigger] registrations[k]),
                ),
                document_description(mapped, document_name(registrations[k])),
                rel_path,
            ),
{
    let entries = document_entries(registrations, mapped, mappings, resource, rel_path);
    let documents = document_names(registrations);
    let sorted = names::sorted(documents);
    names::sorted_holds_the_names_in_order(documents);
    if entries.contains(entry) {
        let i = choose|i: int| 0 <= i < entries.len() && entries[i] == entry;
        assert(sorted.contains(sorted[i]));
        let k = choose|k: int| 0 <= k < documents.len() && documents[k] == sorted[i];
        assert(document_name(registrations[k]) == sorted[i]);
    }
    assert forall|k: int|
        0 <= k < registrations.len() && entry == oas_entry(
            resource,
            document_path(
                if mapped {
                    first_template(mappings)
                } else {
                    None
                },
                document_name(#[trigger] registrations[k]),
            ),
            document_description(mapped, document_name(registrations[k])),
            rel_path,
        ) implies entries.contains(entry) by {
        assert(documents[k] == document_name(registrations[k]));
        assert(documents.contains(documents[k]));
        let i = choose|i: int| 0 <= i < sorted.len() && sorted[i] == documents[k];
        assert(entries[i] == entry);
    }
}

/// Where the matches are the calls that register documents, the entry points are for what those
/// calls register.
proof fn registrations_are_registered(
    source: Seq<char>,
    resource: Seq<char>,
    rel_path: Seq<char>,
)
    requires
        !pattern::calls(source, "AddSwaggerGen"@),
        pattern::are_registrations(pattern::all_captures(pattern::ADD_OPENAPI@, source), source),
    ensures
        are_registered(
            source_entries(source, resource, rel_path),
            source,
            resource,
            rel_path,
        ),
{
    let registrations = pattern::all_captures(pattern::ADD_OPENAPI@, source);
    let mapped = pattern::calls(source, "MapOpenApi"@);
    let mappings = pattern::all_captures(pattern::MAP_OPENAPI@, source);
    let entries = source_entries(source, resource, rel_path);
    assert forall|i: int| 0 <= i < entries.len() implies is_registered(
        #[trigger] entries[i],
        source,
        resource,
        rel_path,
    ) by {
        documents_and_entries_correspond(
            registrations,
            mapped,
            mappings,
            resource,
            rel_path,
            entries[i],
        );
        assert(entries.contains(entries[i]));
        let k = choose|k: int|
            0 <= k < registrations.len() && entries[i] == oas_entry(
                resource,
                document_path(
                    if mapped {
                        first_template(mappings)
                    } else {
                        None
                    },
                    document_name(#[trigger] registrations[k]),
                ),
                document_description(mapped, document_name(registrations[k])),
                rel_path,
            );
        let start = pattern::start_of(registrations[k]);
        assert(pattern::is_registration(registrations[k], source));
        let call = choose|call: OpenApiCall| #[trigger]
            call.registers_at(source, start) && pattern::holds_openapi(registrations[k], call);
        assert(document_name(registrations[k]) == named_document(call.argument));
    }
    assert forall|call: OpenApiCall, offset: usize| #[trigger]
        call.registers_at(source, offset) implies entries.contains(
        document_entry(named_document(call.argument), source, resource, rel_path),
    ) || is_within_registration(offset, source) by {
        assert(pattern::covered(registrations, offset as int));
        let k = choose|k: int|
            0 <= k < registrations.len() && pattern::start_of(#[trigger] registrations[k]) <= offset
                < pattern::end_of(registrations[k]);
        let start = pattern::start_of(registrations[k]);
        assert(pattern::is_registration(registrations[k], source));
        let held = choose|held: OpenApiCall| #[trigger]
            held.registers_at(source, start) && pattern::holds_openapi(registrations[k], held);
        if start == offset {
            syntax::one_registration_at_a_place(held, call, source, offset);
            assert(document_name(registrations[k]) == named_document(call.argument));
            documents_and_entries_correspond(
                registrations,
                mapped,
                mappings,
                resource,
                rel_path,
                document_entry(named_document(call.argument), source, resource, rel_path),
            );
        } else {
            assert(syntax::spans(held.text(), source, start, offset));
        }
    }
}

/// The first path template is that of the first match that gives one.
pub proof fn first_template_comes_first(mappings: Seq<CaptureView>) -> (k: int)
    ensures
        0 <= k <= mappings.len(),
        forall|l: int| 0 <= l < k ==> path_template(#[trigger] mappings[l]) is None,
        match first_template(mappings) {
            Some(template) => k < mappings.len() && path_template(mappings[k]) == Some(template),
            None => k == mappings.len(),
        },
    decreases mappings.len(),
{
    if mappings.len() == 0 || path_template(mappings[0]) is Some {
        0
    } else {
        let rest = mappings.drop_first();
        let k = first_template_comes_first(rest);
        assert forall|l: int| 0 <= l < k + 1 implies path_template(#[trigger] mappings[l]) is None by {
            if l > 0 {
                assert(rest[l - 1] == mappings[l]);
            }
        }
        k + 1
    }
}

/// Where the matches are the calls that map documents, a call that gives a path template is one of
/// them, unless it stands in the middle of another.
proof fn template_is_matched(
    mappings: Seq<CaptureView>,
    source: Seq<char>,
    call: OpenApiCall,
    offset: usize,
) -> (k: int)
    requires
        pattern::are_mappings(mappings, source),
        template_at(call, source, offset),
    ensures
        0 <= k < mappings.len(),
        pattern::start_of(mappings[k]) == offset,
        path_template(mappings[k]) is Some,
{
    assert(call.maps_at(source, offset));
    assert(pattern::covered(mappings, offset as int));
    let k = choose|k: int|
        0 <= k < mappings.len() && pattern::start_of(#[trigger] mappings[k]) <= offset
            < pattern::end_of(mappings[k]);
    let start = pattern::start_of(mappings[k]);
    assert(pattern::is_mapping(mappings[k], source));
    let held = choose|held: OpenApiCall| #[trigger]
        held.maps_at(source, start) && pattern::holds_openapi(mappings[k], held);
    if start < offset {
        assert(syntax::spans(held.text(), source, start, offset));
        assert(is_within_mapping(offset, source));
    }
    syntax::one_mapping_at_a_place(held, call, source, offset);
    k
}

/// Where the matches are the calls that map documents, the path template is that of the first such
/// call that gives one.
proof fn first_template_is_found(source: Seq<char>)
    requires
        pattern::are_mappings(pattern::all_captures(pattern::MAP_OPENAPI@, source), source),
        pattern::in_order(pattern::all_captures(pattern::MAP_OPENAPI@, source)),
        pattern::all_captures(pattern::MAP_OPENAPI@, source).len() > 0 ==> pattern::calls(
            source,
            "MapOpenApi"@,
        ),
    ensures
        is_first_template(source_template(source), source),
{
    let mappings = pattern::all_captures(pattern::MAP_OPENAPI@, source);
    let k = first_template_comes_first(mappings);
    assert forall|other: OpenApiCall, start: usize| #[trigger]
        template_at(other, source, start) implies k < mappings.len() && pattern::start_of(
        mappings[k],
    ) <= start by {
        let l = template_is_matched(mappings, source, other, start);
        if k < l {
            assert(pattern::end_of(mappings[k]) <= pattern::start_of(mappings[l]));
        }
    }
    if k < mappings.len() {
        let offset = pattern::start_of(mappings[k]);
        assert(pattern::is_mapping(mappings[k], source));
        let call = choose|call: OpenApiCall| #[trigger]
            call.maps_at(source, offset) && pattern::holds_openapi(mappings[k], call);
        assert(template_in(call.argument) == path_template(mappings[k]));
    }
}

/// Without a path template, different documents are served at different paths.
pub proof fn default_paths_differ(a: Seq<char>, b: Seq<char>)
    requires
        a != b,
    ensures
        document_path(None, a) != document_path(None, b),
{
    let prefix = "/openapi/"@;
    let suffix = ".json"@;
    let left = document_path(None, a);
    let right = document_path(None, b);
    if left == right {
        assert(a =~= left.subrange(prefix.len() as int, left.len() - suffix.len()));
        assert(b =~= right.subrange(prefix.len() as int, right.len() - suffix.len()));
    }
}

/// A path template without a placeholder is the path of every document.
pub proof fn plain_template_is_the_path(template: Seq<char>, document: Seq<char>)
    requires
        !text::occurs_in("{documentName}"@, template),
    ensures
        document_path(Some(template), document) == template,
{
    text::nothing_to_replace(template, "{documentName}"@, document);
}

/// The first placeholder of a template is filled with the document, and so are those that follow
/// it.
pub proof fn placeholder_is_filled(
    template: Seq<char>,
    rest: Seq<char>,
    document: Seq<char>,
)
    requires
        forall|x: Seq<char>, y: Seq<char>| template != #[trigger] (x + "{documentName}"@ + y),
    ensures
        document_path(Some(template + "{documentName}"@ + rest), document) == template + document
            + document_path(Some(rest), document),
{
    let placeholder = "{documentName}"@;
    let whole = template + placeholder + rest;
    reveal_strlit("{documentName}");
    assert forall|i: int| 0 <= i < template.len() implies !text::occurs_at(
        placeholder,
        whole,
        i,
    ) by {
        if text::occurs_at(placeholder, whole, i) {
            if i + 14 <= template.len() {
                assert(template.subrange(i, i + 14) =~= whole.subrange(i, i + 14));
                text::occurrence_splits_the_text(placeholder, template);
                assert(text::occurs_at(placeholder, template, i));
            } else {
                let k = template.len() - i;
                assert(whole.subrange(i, i + 14)[k] == whole[template.len() as int]);
                assert(whole[template.len() as int] == placeholder[0]);
            }
        }
    }
    text::first_occurrence_is_replaced(template, placeholder, rest, document);
}

/// A template with one placeholder, and no other brace, is the path with the document in its place,
/// whatever document it is.
pub proof fn document_takes_the_place_of_the_placeholder(
    a: Seq<char>,
    b: Seq<char>,
    document: Seq<char>,
)
    requires
        forall|k: int| 0 <= k < a.len() ==> #[trigger] a[k] != '{',
        forall|k: int| 0 <= k < b.len() ==> #[trigger] b[k] != '{',
    ensures
        document_path(Some(a + "{documentName}"@ + b), document) == a + document + b,
{
    reveal_strlit("{documentName}");
    no_brace_no_placeholder(a);
    no_brace_no_placeholder(b);
    placeholder_is_filled(a, b, document);
    text::occurrence_splits_the_text("{documentName}"@, b);
    plain_template_is_the_path(b, document);
}

/// A text without an opening brace holds no placeholder.
proof fn no_brace_no_placeholder(s: Seq<char>)
    requires
        forall|k: int| 0 <= k < s.len() ==> #[trigger] s[k] != '{',
    ensures
        forall|x: Seq<char>, y: Seq<char>| s != #[trigger] (x + "{documentName}"@ + y),
{
    reveal_strlit("{documentName}");
    assert forall|x: Seq<char>, y: Seq<char>| s != #[trigger] (x + "{documentName}"@ + y) by {
        let other = x + "{documentName}"@ + y;
        assert(other[x.len() as int] == '{');
    }
}

/// Without a template, a document is served under `/openapi/`, with the ending `.json`.
pub proof fn default_path_is_under_openapi(document: Seq<char>)
    ensures
        document_path(None, document) == "/openapi/"@ + document + ".json"@,
{
}

/// A name right before an opening parenthesis is called; what is called is written, and a
/// parenthesis opens after it.
pub proof fn calls_are_written(name: Seq<char>, source: Seq<char>)
    ensures
        forall|a: Seq<char>, b: Seq<char>|
            source == #[trigger] (a + (name + "("@) + b) ==> pattern::calls(source, name),
        pattern::calls(source, name) ==> exists|a: Seq<char>, b: Seq<char>|
            source == #[trigger] (a + name + b) && b.contains('('),
{
    reveal_strlit("(");
    assert forall|a: Seq<char>, b: Seq<char>| source == #[trigger] (a + (name + "("@)
        + b) implies pattern::calls(source, name) by {
        let i = a.len() as int;
        let j = i + name.len();
        assert(source.subrange(i, j) =~= name);
        assert(source[j] == '(');
        assert(pattern::call_at(name, source, i, j));
    }
    if pattern::calls(source, name) {
        let (i, j) = choose|i: int, j: int| pattern::call_at(name, source, i, j);
        let a = source.take(i);
        let b = source.skip(i + name.len());
        assert(source =~= a + name + b);
        assert(b[j - i - name.len()] == '(');
    }
}

/// A name that is written nowhere is not called.
proof fn unwritten_is_not_called(name: Seq<char>, source: Seq<char>)
    requires
        forall|a: Seq<char>, b: Seq<char>| source != #[trigger] (a + name + b),
    ensures
        !pattern::calls(source, name),
{
    calls_are_written(name, source);
}

/// Where Swashbuckle is registered, its document is listed, and nothing else.
pub proof fn swashbuckle_is_listed_alone(
    a: Seq<char>,
    b: Seq<char>,
    resource: Seq<char>,
    rel_path: Seq<char>,
)
    ensures
        source_entries(a + "AddSwaggerGen("@ + b, resource, rel_path) == seq![
            EntryPointView {
                label: resource + ": /swagger/v1/swagger.json"@,
                path: rel_path,
                line: None,
                method: Some("OAS"@),
                description: Some("OpenAPI spec (Swashbuckle)"@),
                detection_source: Some("regex"@),
            },
        ],
{
    let source = a + "AddSwaggerGen("@ + b;
    reveal_strlit("AddSwaggerGen(");
    reveal_strlit("AddSwaggerGen");
    reveal_strlit("(");
    assert("AddSwaggerGen("@ =~= "AddSwaggerGen"@ + "("@);
    calls_are_written("AddSwaggerGen"@, source);
    reveal_strlit(": ");
    reveal_strlit("/swagger/v1/swagger.json");
    reveal_strlit(": /swagger/v1/swagger.json");
    assert(resource + ": "@ + "/swagger/v1/swagger.json"@ =~= resource
        + ": /swagger/v1/swagger.json"@);
}

/// A registration that stands somewhere has its document listed, that of its argument or else `v1`,
/// unless an `AddOpenApi` with exactly one quotation mark after it comes before, so that it may stand
/// in an argument.
pub proof fn standing_registration_is_listed(
    before: Seq<char>,
    call: OpenApiCall,
    rest: Seq<char>,
    entries: Seq<EntryPointView>,
    resource: Seq<char>,
    rel_path: Seq<char>,
)
    requires
        utf8::encode_utf8(before).len() <= usize::MAX,
        call.registers_at(before + rest, utf8::encode_utf8(before).len() as usize),
        rest.len() >= 2 && rest[0] == 'A' && rest[1] == 'd',
        are_documents_of(entries, before + rest, resource, rel_path),
        forall|x: Seq<char>, y: Seq<char>|
            before + rest != #[trigger] (x + "AddSwaggerGen"@ + y),
        forall|x: Seq<char>, u: Seq<char>, v: Seq<char>|
            !u.contains('"') && !v.contains('"') ==> before != #[trigger] (x + "AddOpenApi"@ + u
                + "\""@ + v),
    ensures
        entries.contains(
            document_entry(
                if call.argument is Some && (call.argument->0).len() > 0 {
                    call.argument->0
                } else {
                    "v1"@
                },
                before + rest,
                resource,
                rel_path,
            ),
        ),
{
    let source = before + rest;
    let offset = utf8::encode_utf8(before).len() as usize;
    unwritten_is_not_called("AddSwaggerGen"@, source);
    if is_within_registration(offset, source) {
        let (outer, start) = choose|outer: OpenApiCall, start: usize| #[trigger]
            outer.registers_at(source, start) && syntax::spans(outer.text(), source, start, offset);
        let (a, b) = syntax::span_is_written(outer.text(), source, start, before, rest, offset);
        let (u, v) = syntax::registration_within_starts_in_the_argument(a, outer, b, before, rest);
        assert(before != a + "AddOpenApi"@ + u + "\""@ + v);
    }
}

/// A document that `AddOpenApi("document")` registers is listed, wherever that is written.
pub proof fn named_registration_is_listed(
    before: Seq<char>,
    document: Seq<char>,
    after: Seq<char>,
    entries: Seq<EntryPointView>,
    resource: Seq<char>,
    rel_path: Seq<char>,
)
    requires
        document.len() > 0,
        !document.contains('"'),
        utf8::encode_utf8(before).len() <= usize::MAX,
        are_documents_of(
            entries,
            before + ("AddOpenApi(\""@ + document + "\""@ + after),
            resource,
            rel_path,
        ),
        forall|x: Seq<char>, y: Seq<char>|
            before + ("AddOpenApi(\""@ + document + "\""@ + after) != #[trigger] (x
                + "AddSwaggerGen"@ + y),
        forall|x: Seq<char>, u: Seq<char>, v: Seq<char>|
            !u.contains('"') && !v.contains('"') ==> before != #[trigger] (x + "AddOpenApi"@ + u
                + "\""@ + v),
    ensures
        entries.contains(
            document_entry(
                document,
                before + ("AddOpenApi(\""@ + document + "\""@ + after),
                resource,
                rel_path,
            ),
        ),
{
    let rest = "AddOpenApi(\""@ + document + "\""@ + after;
    let call = quoted_call_stands("AddOpenApi"@, before, document, after);
    assert("AddOpenApi(\""@ =~= "AddOpenApi"@ + "(\""@) by {
        reveal_strlit("AddOpenApi(\"");
        reveal_strlit("AddOpenApi");
        reveal_strlit("(\"");
    }
    assert(before + ("AddOpenApi"@ + "(\""@ + document + "\""@) + after =~= before + rest);
    reveal_strlit("AddOpenApi(\"");
    standing_registration_is_listed(before, call, rest, entries, resource, rel_path);
}

/// A call with a quoted argument stands where it is written.
proof fn quoted_call_stands(
    name: Seq<char>,
    before: Seq<char>,
    argument: Seq<char>,
    after: Seq<char>,
) -> (call: OpenApiCall)
    requires
        !argument.contains('"'),
        utf8::encode_utf8(before).len() <= usize::MAX,
    ensures
        call.name == name,
        call.argument == Some(argument),
        call.stands_at(
            before + (name + "(\""@ + argument + "\""@) + after,
            utf8::encode_utf8(before).len() as usize,
        ),
{
    let none = Seq::<char>::empty();
    let call = OpenApiCall {
        name,
        before_parenthesis: none,
        after_parenthesis: none,
        argument: Some(argument),
    };
    reveal_strlit("(");
    reveal_strlit("(\"");
    reveal_strlit("\"");
    assert(call.text() =~= name + "(\""@ + argument + "\""@);
    syntax::written_text_stands(before, call.text(), after);
    call
}

/// `AddOpenApi()` and `AddOpenApi("")` register the document `v1`, which is listed, wherever they
/// are written.
pub proof fn bare_registration_is_listed(
    before: Seq<char>,
    written: Seq<char>,
    after: Seq<char>,
    entries: Seq<EntryPointView>,
    resource: Seq<char>,
    rel_path: Seq<char>,
)
    requires
        written == "AddOpenApi()"@ || written == "AddOpenApi(\"\""@,
        utf8::encode_utf8(before).len() <= usize::MAX,
        are_documents_of(entries, before + (written + after), resource, rel_path),
        forall|x: Seq<char>, y: Seq<char>|
            before + (written + after) != #[trigger] (x + "AddSwaggerGen"@ + y),
        forall|x: Seq<char>, u: Seq<char>, v: Seq<char>|
            !u.contains('"') && !v.contains('"') ==> before != #[trigger] (x + "AddOpenApi"@ + u
                + "\""@ + v),
    ensures
        entries.contains(
            document_entry("v1"@, before + (written + after), resource, rel_path),
        ),
{
    let rest = written + after;
    let offset = utf8::encode_utf8(before).len() as usize;
    reveal_strlit("AddOpenApi");
    reveal_strlit("()");
    reveal_strlit("(\"");
    reveal_strlit("\"");
    reveal_strlit("AddOpenApi()");
    reveal_strlit("AddOpenApi(\"\"");
    if written == "AddOpenApi()"@ {
        assert(written =~= "AddOpenApi"@ + "()"@);
        let call = syntax::closed_call_has_no_argument(before, "AddOpenApi"@, after, offset);
        assert(before + written + after =~= before + rest);
        standing_registration_is_listed(before, call, rest, entries, resource, rel_path);
    } else {
        let none = Seq::<char>::empty();
        let call = quoted_call_stands("AddOpenApi"@, before, none, after);
        assert(written =~= "AddOpenApi"@ + "(\""@ + none + "\""@);
        assert(before + written + after =~= before + rest);
        standing_registration_is_listed(before, call, rest, entries, resource, rel_path);
    }
}

/// What is listed is registered: for the document `v1`, or for one whose name stands in the source
/// in quotation marks.
pub proof fn listed_document_is_written(
    source: Seq<char>,
    entries: Seq<EntryPointView>,
    resource: Seq<char>,
    rel_path: Seq<char>,
    k: int,
) -> (document: Seq<char>)
    requires
        are_documents_of(entries, source, resource, rel_path),
        forall|x: Seq<char>, y: Seq<char>| source != #[trigger] (x + "AddSwaggerGen"@ + y),
        0 <= k < entries.len(),
    ensures
        entries[k] == document_entry(document, source, resource, rel_path),
        document == "v1"@ || exists|a: Seq<char>, b: Seq<char>|
            source == #[trigger] (a + ("\""@ + (document + "\""@)) + b),
        exists|a: Seq<char>, b: Seq<char>| source == #[trigger] (a + "AddOpenApi"@ + b),
{
    unwritten_is_not_called("AddSwaggerGen"@, source);
    assert(is_registered(entries[k], source, resource, rel_path));
    let (call, offset) = choose|call: OpenApiCall, offset: usize| #[trigger]
        call.registers_at(source, offset) && entries[k] == document_entry(
            named_document(call.argument),
            source,
            resource,
            rel_path,
        );
    let (a, b) = syntax::standing_text_is_written(call.text(), source, offset);
    let more = call.before_parenthesis + ("("@ + (call.after_parenthesis + call.quoted()));
    let inner = call.name + (call.before_parenthesis + ("("@ + call.after_parenthesis));
    assert(source =~= (a + inner) + call.quoted() + b);
    reveal_strlit("AddOpenApi");
    reveal_strlit("AddOpenApiDefaults");
    assert(call.name =~= "AddOpenApi"@ + call.name.skip(10));
    assert(source =~= a + "AddOpenApi"@ + (call.name.skip(10) + more + b));
    named_document(call.argument)
}

/// Where neither Swashbuckle nor an OpenAPI document is registered, nothing is listed.
pub proof fn nothing_is_listed_unregistered(
    source: Seq<char>,
    entries: Seq<EntryPointView>,
    resource: Seq<char>,
    rel_path: Seq<char>,
)
    requires
        are_documents_of(entries, source, resource, rel_path),
        forall|x: Seq<char>, y: Seq<char>| source != #[trigger] (x + "AddSwaggerGen"@ + y),
        forall|x: Seq<char>, y: Seq<char>| source != #[trigger] (x + "AddOpenApi"@ + y),
    ensures
        entries.len() == 0,
{
    if entries.len() > 0 {
        let document = listed_document_is_written(source, entries, resource, rel_path, 0);
    }
}

/// Where documents are registered but not mapped, each is listed at its default path, with a remark.
pub proof fn unmapped_document_is_remarked_on(
    source: Seq<char>,
    document: Seq<char>,
    resource: Seq<char>,
    rel_path: Seq<char>,
)
    requires
        forall|x: Seq<char>, y: Seq<char>| source != #[trigger] (x + "MapOpenApi"@ + y),
    ensures
        document_entry(document, source, resource, rel_path) == (EntryPointView {
            label: resource + ": /openapi/"@ + document + ".json"@,
            path: rel_path,
            line: None,
            method: Some("OAS"@),
            description: Some(
                "OpenAPI spec for document \""@ + document
                    + "\" (MapOpenApi not detected — may be dev-only)"@,
            ),
            detection_source: Some("regex"@),
        }),
{
    unwritten_is_not_called("MapOpenApi"@, source);
    default_label(document, resource);
}

/// The label of a document at its default path.
proof fn default_label(document: Seq<char>, resource: Seq<char>)
    ensures
        resource + ": "@ + ("/openapi/"@ + document + ".json"@) == resource + ": /openapi/"@
            + document + ".json"@,
{
    reveal_strlit(": ");
    reveal_strlit("/openapi/");
    reveal_strlit(": /openapi/");
    assert(resource + ": "@ + ("/openapi/"@ + document + ".json"@) =~= resource + ": /openapi/"@
        + document + ".json"@);
}

/// A path template that holds for a source stands in it.
proof fn template_is_written(source: Seq<char>, template: Seq<char>)
    requires
        is_first_template(Some(template), source),
    ensures
        source.contains('{'),
{
    let (call, offset) = choose|call: OpenApiCall, offset: usize|
        {
            &&& #[trigger] call.maps_at(source, offset)
            &&& template_in(call.argument) == Some(template)
            &&& forall|other: OpenApiCall, start: usize| #[trigger]
                template_at(other, source, start) ==> offset <= start
        };
    let (a, b) = syntax::standing_text_is_written(call.text(), source, offset);
    let head = a + (call.name + (call.before_parenthesis + ("("@ + call.after_parenthesis)));
    reveal_strlit("\"");
    assert(source =~= head + ("\""@ + (template + "\""@)) + b);
    let k = choose|k: int| 0 <= k < template.len() && template[k] == '{';
    assert(source[head.len() + 1 + k] == '{');
}

/// Where documents are mapped and no brace stands in the source, each is listed at its default path,
/// without a remark.
pub proof fn mapped_document_has_its_default_path(
    a: Seq<char>,
    b: Seq<char>,
    document: Seq<char>,
    resource: Seq<char>,
    rel_path: Seq<char>,
)
    requires
        is_first_template(source_template(a + "MapOpenApi("@ + b), a + "MapOpenApi("@ + b),
        !(a + "MapOpenApi("@ + b).contains('{'),
    ensures
        document_entry(document, a + "MapOpenApi("@ + b, resource, rel_path) == (EntryPointView {
            label: resource + ": /openapi/"@ + document + ".json"@,
            path: rel_path,
            line: None,
            method: Some("OAS"@),
            description: Some("OpenAPI spec for document \""@ + document + "\""@),
            detection_source: Some("regex"@),
        }),
{
    let source = a + "MapOpenApi("@ + b;
    mapping_is_called(a, b);
    if source_template(source) is Some {
        template_is_written(source, source_template(source)->0);
    }
    default_label(document, resource);
}

/// A mapping that is written is called.
proof fn mapping_is_called(a: Seq<char>, b: Seq<char>)
    ensures
        pattern::calls(a + "MapOpenApi("@ + b, "MapOpenApi"@),
{
    reveal_strlit("MapOpenApi(");
    reveal_strlit("MapOpenApi");
    reveal_strlit("(");
    assert("MapOpenApi("@ =~= "MapOpenApi"@ + "("@);
    calls_are_written("MapOpenApi"@, a + "MapOpenApi("@ + b);
}

/// The template of the first mapping that gives one holds.
proof fn first_mapping_gives_the_template(
    before: Seq<char>,
    template: Seq<char>,
    after: Seq<char>,
)
    requires
        utf8::encode_utf8(before).len() <= usize::MAX,
        template.contains('{'),
        !template.contains('"'),
        forall|x: Seq<char>, u: Seq<char>, v: Seq<char>|
            !u.contains('"') && !v.contains('"') ==> before != #[trigger] (x + "MapOpenApi"@ + u
                + "\""@ + v),
        forall|x: Seq<char>, u: Seq<char>, t: Seq<char>, v: Seq<char>|
            !u.contains('"') && t.contains('{') ==> before != #[trigger] (x + "MapOpenApi"@ + u
                + "\""@ + t + "\""@ + v),
        ({
            let source = before + ("MapOpenApi"@ + "(\""@ + template + "\""@) + after;
            is_first_template(source_template(source), source)
        }),
    ensures
        source_template(before + ("MapOpenApi"@ + "(\""@ + template + "\""@) + after) == Some(
            template,
        ),
{
    let source = before + ("MapOpenApi"@ + "(\""@ + template + "\""@) + after;
    let offset = utf8::encode_utf8(before).len() as usize;
    let rest = "MapOpenApi"@ + "(\""@ + template + "\""@ + after;
    let call = quoted_call_stands("MapOpenApi"@, before, template, after);
    assert(source =~= before + rest);
    assert(rest[0] == 'M') by {
        reveal_strlit("MapOpenApi");
    }
    assert(call.maps_at(source, offset));
    assert(!is_within_mapping(offset, source)) by {
        if is_within_mapping(offset, source) {
            let (outer, start) = choose|outer: OpenApiCall, start: usize| #[trigger]
                outer.maps_at(source, start) && syntax::spans(outer.text(), source, start, offset);
            let (a, b) = syntax::span_is_written(outer.text(), source, start, before, rest, offset);
            let (u, v) = syntax::mapping_before_a_place(a, outer, b, before, rest);
            assert(before != a + "MapOpenApi"@ + u + "\""@ + v);
        }
    }
    assert(template_at(call, source, offset));
    if let Some(found) = source_template(source) {
        let (first, start) = choose|first: OpenApiCall, start: usize|
            {
                &&& #[trigger] first.maps_at(source, start)
                &&& template_in(first.argument) == Some(found)
                &&& forall|other: OpenApiCall, place: usize| #[trigger]
                    template_at(other, source, place) ==> start <= place
            };
        if start < offset {
            let (a, b) = syntax::standing_text_is_written(first.text(), source, start);
            assert(source =~= a + (first.text() + b));
            syntax::fewer_bytes_fewer_characters(a, first.text() + b, before, rest);
            let (u, v) = syntax::mapping_before_a_place(a, first, b, before, rest);
            assert(before != a + "MapOpenApi"@ + u + "\""@ + v || v.contains('"'));
            assert(before != a + "MapOpenApi"@ + u + "\""@ + found + "\""@ + v);
        }
        syntax::one_mapping_at_a_place(first, call, source, offset);
    }
}

/// Where the first mapping that gives a template gives one with one placeholder, every document is
/// listed at that path, with its name in place of the placeholder. A mapping comes before that one
/// with a template where `MapOpenApi` and a quoted brace do, and may have that one in its argument
/// where exactly one quotation mark stands between them.
pub proof fn template_gives_the_path(
    before: Seq<char>,
    a: Seq<char>,
    b: Seq<char>,
    after: Seq<char>,
    document: Seq<char>,
    resource: Seq<char>,
    rel_path: Seq<char>,
)
    requires
        utf8::encode_utf8(before).len() <= usize::MAX,
        forall|k: int| 0 <= k < a.len() ==> #[trigger] a[k] != '{' && a[k] != '"',
        forall|k: int| 0 <= k < b.len() ==> #[trigger] b[k] != '{' && b[k] != '"',
        forall|x: Seq<char>, u: Seq<char>, v: Seq<char>|
            !u.contains('"') && !v.contains('"') ==> before != #[trigger] (x + "MapOpenApi"@ + u
                + "\""@ + v),
        forall|x: Seq<char>, u: Seq<char>, t: Seq<char>, v: Seq<char>|
            !u.contains('"') && t.contains('{') ==> before != #[trigger] (x + "MapOpenApi"@ + u
                + "\""@ + t + "\""@ + v),
        ({
            let source = before + "MapOpenApi(\""@ + a + "{documentName}"@ + b + "\""@ + after;
            is_first_template(source_template(source), source)
        }),
    ensures
        document_entry(
            document,
            before + "MapOpenApi(\""@ + a + "{documentName}"@ + b + "\""@ + after,
            resource,
            rel_path,
        ) == (EntryPointView {
            label: resource + ": "@ + a + document + b,
            path: rel_path,
            line: None,
            method: Some("OAS"@),
            description: Some("OpenAPI spec for document \""@ + document + "\""@),
            detection_source: Some("regex"@),
        }),
{
    let template = a + "{documentName}"@ + b;
    let source = before + "MapOpenApi(\""@ + a + "{documentName}"@ + b + "\""@ + after;
    reveal_strlit("{documentName}");
    reveal_strlit("MapOpenApi(\"");
    reveal_strlit("MapOpenApi(");
    reveal_strlit("MapOpenApi");
    reveal_strlit("(\"");
    assert("MapOpenApi(\""@ =~= "MapOpenApi"@ + "(\""@);
    assert(source =~= before + ("MapOpenApi"@ + "(\""@ + template + "\""@) + after);
    assert("MapOpenApi(\""@ =~= "MapOpenApi("@ + seq!['"']);
    let tail = seq!['"'] + template + "\""@ + after;
    assert(source =~= before + "MapOpenApi("@ + tail);
    mapping_is_called(before, tail);
    assert(template[a.len() as int] == '{');
    assert(!template.contains('"')) by {
        if template.contains('"') {
            let k = choose|k: int| 0 <= k < template.len() && template[k] == '"';
            if k < a.len() {
                assert(a[k] == '"');
            } else if k >= a.len() + 14 {
                assert(b[k - a.len() - 14] == '"');
            }
        }
    }
    first_mapping_gives_the_template(before, template, after);
    document_takes_the_place_of_the_placeholder(a, b, document);
    assert(resource + ": "@ + (a + document + b) =~= resource + ": "@ + a + document + b);
}

/// Without Swashbuckle, the entry points are those of documents in ascending order, each once.
pub proof fn documents_are_listed_in_order(
    source: Seq<char>,
    resource: Seq<char>,
    rel_path: Seq<char>,
) -> (documents: Seq<Seq<char>>)
    requires
        forall|x: Seq<char>, y: Seq<char>| source != #[trigger] (x + "AddSwaggerGen"@ + y),
    ensures
        source_entries(source, resource, rel_path).len() == documents.len(),
        forall|k: int|
            0 <= k < documents.len() ==> #[trigger] source_entries(source, resource, rel_path)[k]
                == document_entry(documents[k], source, resource, rel_path),
        forall|i: int, j: int|
            0 <= i < j < documents.len() ==> text::precedes(
                #[trigger] documents[i],
                #[trigger] documents[j],
            ) && documents[i] != documents[j],
{
    unwritten_is_not_called("AddSwaggerGen"@, source);
    let registrations = pattern::all_captures(pattern::ADD_OPENAPI@, source);
    let names = document_names(registrations);
    names::sorted_list_ascends_and_loses_nothing(names);
    names::sorted(names)
}

/// A match names its document by its argument, and the document `v1` where that is empty or missing;
/// its argument is a path template exactly where a brace stands in it.
pub proof fn arguments_are_read_as_they_stand(capture: CaptureView, at: usize, argument: Seq<char>)
    requires
        capture.len() > 1,
    ensures
        capture[1] is None ==> document_name(capture) == "v1"@ && path_template(capture) is None,
        capture[1] == Some((at, argument)) ==> {
            &&& argument.len() > 0 ==> document_name(capture) == argument
            &&& argument.len() == 0 ==> document_name(capture) == "v1"@
            &&& path_template(capture) is Some <==> exists|k: int|
                0 <= k < argument.len() && #[trigger] argument[k] == '{'
            &&& path_template(capture) is Some ==> path_template(capture) == Some(argument)
        },
{
}

/// Where documents are not mapped, it does not matter how they would be.
pub proof fn mappings_count_only_where_mapped(
    registrations: Seq<CaptureView>,
    mappings: Seq<CaptureView>,
    others: Seq<CaptureView>,
    resource: Seq<char>,
    rel_path: Seq<char>,
)
    ensures
        document_entries(registrations, false, mappings, resource, rel_path) == document_entries(
            registrations,
            false,
            others,
            resource,
            rel_path,
        ),
{
}

} // verus!
