//! The resources that the source of an AppHost orchestrates.

use crate::model::{EntryPoint, EntryPointView};
use crate::pattern;
use crate::pattern::{Capture, CaptureView};
use crate::syntax;
use crate::syntax::{AddCall, TypeArgument};
use crate::text;
use vstd::prelude::*;
use vstd::utf8;

verus! {

/// What runs in the container that `Add*` adds, by the lower case of its suffix; `None` where it
/// adds no container.
pub open spec fn container_image(suffix: Seq<char>) -> Option<Seq<char>> {
    if suffix == "postgres"@ || suffix == "postgresql"@ {
        Some("postgres"@)
    } else if suffix == "redis"@ || suffix == "rabbitmq"@ || suffix == "mongodb"@ || suffix
        == "mysql"@ || suffix == "kafka"@ || suffix == "nats"@ || suffix == "sqlserver"@ || suffix
        == "valkey"@ {
        Some(suffix)
    } else if suffix == "container"@ {
        Some("custom"@)
    } else {
        None
    }
}

/// What to call a resource that is neither a project nor a container, by the lower case of the
/// suffix.
pub open spec fn resource_tool(suffix: Seq<char>) -> Seq<char> {
    if suffix == "npmapp"@ || suffix == "nodejsapp"@ {
        "npm"@
    } else {
        suffix
    }
}

/// The kind of a resource, by the lower case of the suffix.
pub open spec fn resource_kind(suffix: Seq<char>) -> Seq<char> {
    if suffix == "project"@ {
        "PROJECT"@
    } else if container_image(suffix) is Some {
        "CONTAINER"@
    } else {
        "RESOURCE"@
    }
}

/// What to show for a resource, by the lower case of the suffix.
pub open spec fn resource_label(suffix: Seq<char>, name: Seq<char>) -> Seq<char> {
    if suffix == "project"@ {
        "project: "@ + name
    } else {
        match container_image(suffix) {
            Some(image) => "container: "@ + name + " ("@ + image + ")"@,
            None => "resource: "@ + name + " ("@ + resource_tool(suffix) + ")"@,
        }
    }
}

/// The number of line breaks in `s`.
pub open spec fn line_breaks(s: Seq<char>) -> nat
    decreases s.len(),
{
    if s.len() == 0 {
        0
    } else {
        line_breaks(s.drop_last()) + (if s.last() == '\n' {
            1nat
        } else {
            0nat
        })
    }
}

/// The characters of `source` before the byte offset `offset`.
pub open spec fn text_before(source: Seq<char>, offset: int) -> Seq<char> {
    utf8::decode_utf8(utf8::encode_utf8(source).subrange(0, offset))
}

/// The 1-based line of `source` in which the byte offset `offset` lies.
pub open spec fn line_at(source: Seq<char>, offset: int) -> nat {
    line_breaks(text_before(source, offset)) + 1
}

/// How a resource was declared.
pub open spec fn declaration(suffix: Seq<char>, name: Seq<char>) -> Seq<char> {
    "builder.Add"@ + suffix + "(\""@ + name + "\")"@
}

/// A resource that an AppHost orchestrates.
#[derive(Debug, PartialEq, Eq)]
pub struct Resource {
    /// The entry point that stands for it.
    pub entry: EntryPoint,
    /// Its name.
    pub name: String,
    /// The type that stands for its project, where it is a project and names one.
    pub project: Option<String>,
}

/// The view of a [`Resource`].
#[verifier::ext_equal]
pub struct ResourceView {
    pub entry: EntryPointView,
    pub name: Seq<char>,
    pub project: Option<Seq<char>>,
}

impl View for Resource {
    type V = ResourceView;

    open spec fn view(&self) -> ResourceView {
        ResourceView { entry: self.entry@, name: self.name@, project: self.project.deep_view() }
    }
}

impl DeepView for Resource {
    type V = ResourceView;

    open spec fn deep_view(&self) -> ResourceView {
        self@
    }
}

/// The type that stands for the project of a resource, where it is a project and names one.
pub open spec fn project_type(kind: Seq<char>, argument: Seq<char>) -> Option<Seq<char>> {
    if kind == "PROJECT"@ && argument.len() > 0 {
        Some(argument)
    } else {
        None
    }
}

/// The resource `name` that `Add*` with the suffix `suffix` and the type argument `argument` adds in
/// the given line of the file `rel_path`.
pub open spec fn added_resource(
    suffix: Seq<char>,
    argument: Seq<char>,
    name: Seq<char>,
    line: nat,
    rel_path: Seq<char>,
) -> ResourceView {
    let lower = text::lowercase(suffix);
    ResourceView {
        entry: EntryPointView {
            label: resource_label(lower, name),
            path: rel_path,
            line: Some(line as u32),
            method: Some(resource_kind(lower)),
            description: Some(declaration(suffix, name)),
            detection_source: Some("regex"@),
        },
        name,
        project: project_type(resource_kind(lower), argument),
    }
}

/// The resource that `call`, which stands in `source` at the byte offset `offset`, adds.
pub open spec fn called_resource(
    call: AddCall,
    source: Seq<char>,
    offset: usize,
    rel_path: Seq<char>,
) -> ResourceView {
    added_resource(
        call.suffix,
        call.project_type(),
        call.name,
        line_at(source, offset as int),
        rel_path,
    )
}

/// The resource that a match of [`pattern::ADD_RESOURCE`] in the file `rel_path` declares.
pub open spec fn declared_resource(
    capture: CaptureView,
    source: Seq<char>,
    rel_path: Seq<char>,
) -> ResourceView {
    added_resource(
        pattern::text_or_empty(capture, 1),
        pattern::text_or_empty(capture, 2),
        pattern::text_or_empty(capture, 3),
        line_at(source, pattern::start_of(capture) as int),
        rel_path,
    )
}

/// The resources that a list of matches declares, match by match.
pub open spec fn declared_resources(
    captures: Seq<CaptureView>,
    source: Seq<char>,
    rel_path: Seq<char>,
) -> Seq<ResourceView> {
    captures.map_values(|capture: CaptureView| declared_resource(capture, source, rel_path))
}

/// The resources that `source` declares, in the order of their declarations.
pub open spec fn source_resources(source: Seq<char>, rel_path: Seq<char>) -> Seq<ResourceView> {
    declared_resources(
        pattern::all_captures(pattern::ADD_RESOURCE@, source),
        source,
        rel_path,
    )
}

/// Some call in `source` adds `resource`.
pub open spec fn is_added(
    resource: ResourceView,
    source: Seq<char>,
    rel_path: Seq<char>,
) -> bool {
    exists|call: AddCall, offset: usize| #[trigger]
        call.stands_at(source, offset) && resource == called_resource(
            call,
            source,
            offset,
            rel_path,
        )
}

/// The byte offset `offset` of `source` lies in the middle of a call that adds one of `resources`.
pub open spec fn is_within_call(
    offset: usize,
    resources: Seq<ResourceView>,
    source: Seq<char>,
    rel_path: Seq<char>,
) -> bool {
    exists|call: AddCall, start: usize| #[trigger]
        call.stands_at(source, start) && syntax::spans(call.text(), source, start, offset)
            && resources.contains(called_resource(call, source, start, rel_path))
}

/// `resources` are what the calls in `source` add: each of them is added by some call, and each call
/// adds one of them, unless it starts in the middle of a call that does.
pub open spec fn are_added(
    resources: Seq<ResourceView>,
    source: Seq<char>,
    rel_path: Seq<char>,
) -> bool {
    &&& forall|k: int|
        0 <= k < resources.len() ==> is_added(#[trigger] resources[k], source, rel_path)
    &&& forall|call: AddCall, offset: usize| #[trigger]
        call.stands_at(source, offset) ==> resources.contains(
            called_resource(call, source, offset, rel_path),
        ) || is_within_call(offset, resources, source, rel_path)
}

/// A call at the byte offset `offset` of `source` adds `resource`.
pub open spec fn is_added_at(
    resource: ResourceView,
    source: Seq<char>,
    offset: usize,
    rel_path: Seq<char>,
) -> bool {
    exists|call: AddCall| #[trigger]
        call.stands_at(source, offset) && resource == called_resource(
            call,
            source,
            offset,
            rel_path,
        )
}

/// Each of `resources` is added by a call at its place among `offsets`, one place after the other.
pub open spec fn are_added_at(
    resources: Seq<ResourceView>,
    offsets: Seq<usize>,
    source: Seq<char>,
    rel_path: Seq<char>,
) -> bool {
    &&& offsets.len() == resources.len()
    &&& forall|k: int, l: int|
        0 <= k < l < offsets.len() ==> #[trigger] offsets[k] < #[trigger] offsets[l]
    &&& forall|k: int|
        0 <= k < resources.len() ==> is_added_at(
            #[trigger] resources[k],
            source,
            offsets[k],
            rel_path,
        )
}

/// `resources` are listed in the order of the calls that add them, one for each call.
pub open spec fn are_in_order(
    resources: Seq<ResourceView>,
    source: Seq<char>,
    rel_path: Seq<char>,
) -> bool {
    exists|offsets: Seq<usize>| are_added_at(resources, offsets, source, rel_path)
}

/// `entry` with its line, where it has one, raised by `n`.
pub open spec fn raised_entry(entry: EntryPointView, n: nat) -> EntryPointView {
    EntryPointView {
        line: match entry.line {
            Some(line) => Some((line + n) as u32),
            None => None,
        },
        ..entry
    }
}

/// `resource` with the line of its entry point raised by `n`.
pub open spec fn raised_resource(resource: ResourceView, n: nat) -> ResourceView {
    ResourceView { entry: raised_entry(resource.entry, n), ..resource }
}

/// `resources` with every line raised by `n`.
pub open spec fn raised(resources: Seq<ResourceView>, n: nat) -> Seq<ResourceView> {
    resources.map_values(|resource: ResourceView| raised_resource(resource, n))
}

/// The resource has a name, and its project, where it has one, a type that a directory can be named
/// after.
pub open spec fn is_nameable(resource: ResourceView) -> bool {
    &&& syntax::is_resource_name(resource.name)
    &&& resource.project matches Some(argument) ==> syntax::is_project_type(argument)
}

/// A match can be told its line: it starts between two characters of `source`.
pub open spec fn starts_on_boundary(capture: CaptureView, source: Seq<char>) -> bool {
    utf8::is_char_boundary(utf8::encode_utf8(source), pattern::start_of(capture) as int)
}

/// The whole match is there, and starts between two characters of `source`.
pub open spec fn is_placed(capture: CaptureView, source: Seq<char>) -> bool {
    &&& capture.len() > 0
    &&& capture[0] is Some
    &&& starts_on_boundary(capture, source)
}

/// What runs in the container that `Add*` adds, by the lower case of its suffix.
fn image_of(suffix: &str) -> (r: Option<String>)
    ensures
        r.deep_view() == container_image(suffix@),
{
    if text::same_text(suffix, "postgres") || text::same_text(suffix, "postgresql") {
        Some("postgres".to_string())
    } else if text::same_text(suffix, "redis") || text::same_text(suffix, "rabbitmq")
        || text::same_text(suffix, "mongodb") || text::same_text(suffix, "mysql")
        || text::same_text(suffix, "kafka") || text::same_text(suffix, "nats") || text::same_text(
        suffix,
        "sqlserver",
    ) || text::same_text(suffix, "valkey") {
        Some(suffix.to_string())
    } else if text::same_text(suffix, "container") {
        Some("custom".to_string())
    } else {
        None
    }
}

/// `category` and `name`, with `detail` in parentheses.
fn detailed_label(category: &str, name: &str, detail: &str) -> (r: String)
    ensures
        r@ == category@ + name@ + " ("@ + detail@ + ")"@,
{
    let mut label: String = category.to_string();
    label.append(name);
    label.append(" (");
    label.append(detail);
    label.append(")");
    label
}

/// The label and the kind of a resource, by the lower case of the suffix with which it was added.
pub fn classify_lowercase(suffix: &str, name: &str) -> (r: (String, String))
    ensures
        r.0@ == resource_label(suffix@, name@),
        r.1@ == resource_kind(suffix@),
{
    if text::same_text(suffix, "project") {
        let mut label: String = "project: ".to_string();
        label.append(name);
        return (label, "PROJECT".to_string());
    }
    match image_of(suffix) {
        Some(image) => (
            detailed_label("container: ", name, image.as_str()),
            "CONTAINER".to_string(),
        ),
        None => if text::same_text(suffix, "npmapp") || text::same_text(suffix, "nodejsapp") {
            (detailed_label("resource: ", name, "npm"), "RESOURCE".to_string())
        } else {
            (detailed_label("resource: ", name, suffix), "RESOURCE".to_string())
        },
    }
}

/// The label and the kind of the resource `name` that `Add*` with the suffix `add_suffix` adds. The
/// case of the suffix does not matter.
pub fn classify_resource(add_suffix: &str, name: &str) -> (r: (String, String))
    ensures
        r.0@ == resource_label(text::lowercase(add_suffix@), name@),
        r.1@ == resource_kind(text::lowercase(add_suffix@)),
{
    let lower: String = text::to_lowercase(add_suffix);
    classify_lowercase(lower.as_str(), name)
}

/// The 1-based line of `source` in which the byte offset `offset` lies.
pub fn line_of(source: &str, offset: usize) -> (r: u32)
    requires
        utf8::is_char_boundary(utf8::encode_utf8(source@), offset as int),
    ensures
        r == line_at(source@, offset as int) as u32,
{
    let (head, _) = source.split_at(offset);
    assert(head@ == text_before(source@, offset as int)) by {
        utf8::encode_utf8_decode_utf8(head@);
    }
    let text: Vec<char> = text::chars_of(head);
    let mut count: usize = 0;
    let mut i: usize = 0;
    while i < text.len()
        invariant
            i <= text.len(),
            count <= i,
            text@ == head@,
            count == line_breaks(head@.take(i as int)),
        decreases text.len() - i,
    {
        assert(head@.take(i + 1).drop_last() =~= head@.take(i as int));
        if text[i] == '\n' {
            count += 1;
        }
        i += 1;
    }
    assert(head@.take(i as int) =~= head@);
    #[verifier::truncate]
    let line: u32 = (count as u128 + 1) as u32;
    line
}

/// The resource that a match of [`pattern::ADD_RESOURCE`] in the file `rel_path` declares.
pub fn resource_of(capture: &Capture, source: &str, rel_path: &str) -> (r: Resource)
    requires
        starts_on_boundary(capture.deep_view(), source@),
    ensures
        r@ == declared_resource(capture.deep_view(), source@, rel_path@),
{
    let suffix: String = pattern::group_or_empty(capture, 1);
    let argument: String = pattern::group_or_empty(capture, 2);
    let name: String = pattern::group_or_empty(capture, 3);
    let line: u32 = line_of(source, pattern::start(capture));
    let (label, kind) = classify_resource(suffix.as_str(), name.as_str());
    let mut description: String = "builder.Add".to_string();
    description.append(suffix.as_str());
    description.append("(\"");
    description.append(name.as_str());
    description.append("\")");
    let project: Option<String> = if text::same_text(kind.as_str(), "PROJECT")
        && !argument.as_str().is_empty() {
        Some(argument)
    } else {
        None
    };
    Resource {
        entry: EntryPoint {
            label,
            path: rel_path.to_string(),
            line: Some(line),
            method: Some(kind),
            description: Some(description),
            detection_source: Some("regex".to_string()),
        },
        name,
        project,
    }
}

/// The resources that the matches `captures` of [`pattern::ADD_RESOURCE`] in `source` declare.
pub fn resources_of(captures: &Vec<Capture>, source: &str, rel_path: &str) -> (r: Vec<Resource>)
    requires
        forall|k: int|
            0 <= k < captures.len() ==> starts_on_boundary(
                #[trigger] captures.deep_view()[k],
                source@,
            ),
    ensures
        r.deep_view() == declared_resources(captures.deep_view(), source@, rel_path@),
{
    let ghost all = declared_resources(captures.deep_view(), source@, rel_path@);
    let mut r: Vec<Resource> = Vec::new();
    let mut i: usize = 0;
    while i < captures.len()
        invariant
            i <= captures.len(),
            forall|k: int|
                0 <= k < captures.len() ==> starts_on_boundary(
                    #[trigger] captures.deep_view()[k],
                    source@,
                ),
            all == declared_resources(captures.deep_view(), source@, rel_path@),
            r.deep_view() == all.take(i as int),
        decreases captures.len() - i,
    {
        let ghost before = r.deep_view();
        assert(captures.deep_view()[i as int] == captures[i as int].deep_view());
        let resource: Resource = resource_of(&captures[i], source, rel_path);
        r.push(resource);
        assert(r.deep_view() =~= before.push(resource@));
        assert(all[i as int] == resource@);
        i += 1;
    }
    assert(all.take(i as int) =~= all);
    r
}

/// The resources that `source`, the file `rel_path` of an AppHost, declares.
///
/// They are what the calls in the source add, and no call is passed over but one that starts in the
/// middle of another; they are listed in the order of those calls, one for each, and there is one
/// exactly where the source adds a resource. Line breaks at the start of the source raise every line
/// by their number and change nothing else, as long as lines can be counted.
pub fn detect_resources(source: &str, rel_path: &str) -> (r: Vec<Resource>)
    ensures
        r.deep_view() == source_resources(source@, rel_path@),
        are_added(r.deep_view(), source@, rel_path@),
        are_in_order(r.deep_view(), source@, rel_path@),
        forall|k: int| 0 <= k < r.len() ==> is_nameable(#[trigger] r.deep_view()[k]),
        r.len() > 0 <==> syntax::adds_resource(source@),
        line_breaks(source@) < u32::MAX ==> ({
            let rest = text::without_leading(source@, '\n');
            r.deep_view() == raised(
                source_resources(rest, rel_path@),
                (source@.len() - rest.len()) as nat,
            )
        }),
{
    let captures: Vec<Capture> = pattern::captures_iter(pattern::ADD_RESOURCE, source);
    assert forall|k: int| 0 <= k < captures.len() implies starts_on_boundary(
        #[trigger] captures.deep_view()[k],
        source@,
    ) by {
        located_match_is_placed(captures.deep_view()[k], source@);
    }
    let r: Vec<Resource> = resources_of(&captures, source, rel_path);
    assert(r.len() == r.deep_view().len());
    assert(captures.len() == captures.deep_view().len());
    proof {
        adds_are_added(captures.deep_view(), source@, rel_path@);
        adds_are_in_order(captures.deep_view(), source@, rel_path@);
        assert forall|k: int| 0 <= k < r.len() implies is_nameable(#[trigger] r.deep_view()[k]) by {
            assert(is_added(r.deep_view()[k], source@, rel_path@));
        }
        if r.len() > 0 {
            assert(is_added(r.deep_view()[0], source@, rel_path@));
        }
        if line_breaks(source@) < u32::MAX {
            leading_breaks_raise_resources(captures.deep_view(), source@, rel_path@);
        }
    }
    r
}

/// A match that stands where it says is placed.
proof fn located_match_is_placed(capture: CaptureView, source: Seq<char>)
    requires
        pattern::located(capture, source),
    ensures
        is_placed(capture, source),
{
    assert(capture[0] is Some);
    assert(syntax::stands_at_offset((capture[0]->0).1, source, (capture[0]->0).0));
}

/// The line breaks at the start of a source raise the lines of its resources by their number.
proof fn leading_breaks_raise_resources(
    captures: Seq<CaptureView>,
    source: Seq<char>,
    rel_path: Seq<char>,
)
    requires
        forall|k: int| 0 <= k < captures.len() ==> pattern::located(#[trigger] captures[k], source),
        line_breaks(source) < u32::MAX,
        ({
            let rest = text::without_leading(source, '\n');
            pattern::moved(
                pattern::all_captures(pattern::ADD_RESOURCE@, rest),
                captures,
                (source.len() - rest.len()) as nat,
            )
        }),
    ensures
        ({
            let rest = text::without_leading(source, '\n');
            declared_resources(captures, source, rel_path) == raised(
                source_resources(rest, rel_path),
                (source.len() - rest.len()) as nat,
            )
        }),
{
    let rest = text::without_leading(source, '\n');
    let breaks = source.take(source.len() - rest.len());
    let earlier = pattern::all_captures(pattern::ADD_RESOURCE@, rest);
    text::leading_run(source, '\n');
    assert forall|k: int| 0 <= k < earlier.len() implies is_placed(#[trigger] earlier[k], rest) by {
        let capture = captures[k];
        assert(pattern::moved_capture(earlier[k], capture, breaks.len()));
        located_match_is_placed(capture, source);
        assert(earlier[k][0] is Some);
        boundary_after_run(breaks, rest, pattern::start_of(earlier[k]) as int);
    }
    line_breaks_before_raise_resources(breaks, rest, rel_path, earlier, captures);
}

/// The kind of a resource is one of three, and none of them is the kind of an OpenAPI document.
pub proof fn kinds_are_three(suffix: Seq<char>)
    ensures
        resource_kind(suffix) == "PROJECT"@ || resource_kind(suffix) == "CONTAINER"@
            || resource_kind(suffix) == "RESOURCE"@,
        resource_kind(suffix) != "OAS"@,
{
    reveal_strlit("PROJECT");
    reveal_strlit("CONTAINER");
    reveal_strlit("RESOURCE");
    reveal_strlit("OAS");
    assert("PROJECT"@.len() == 7 && "CONTAINER"@.len() == 9 && "RESOURCE"@.len() == 8
        && "OAS"@.len() == 3);
}

/// A resource is of the kind of projects exactly where it was added as a project.
pub proof fn only_projects_are_projects(suffix: Seq<char>)
    ensures
        resource_kind(suffix) == "PROJECT"@ <==> suffix == "project"@,
{
    reveal_strlit("PROJECT");
    reveal_strlit("CONTAINER");
    reveal_strlit("RESOURCE");
    assert("PROJECT"@.len() == 7 && "CONTAINER"@.len() == 9 && "RESOURCE"@.len() == 8);
}

/// ASCII suffixes that differ only in the case of letters classify a resource alike.
pub proof fn case_does_not_matter(a: Seq<char>, b: Seq<char>, name: Seq<char>)
    requires
        utf8::is_ascii_chars(a),
        utf8::is_ascii_chars(b),
        a.len() == b.len(),
        forall|k: int|
            0 <= k < a.len() ==> text::ascii_lower(#[trigger] a[k]) == text::ascii_lower(b[k]),
    ensures
        resource_label(text::lowercase(a), name) == resource_label(text::lowercase(b), name),
        resource_kind(text::lowercase(a)) == resource_kind(text::lowercase(b)),
{
    text::lowercase_ignores_case(a, b);
}

/// A match that holds a call declares what the call adds.
proof fn held_call_is_declared(
    capture: CaptureView,
    call: AddCall,
    source: Seq<char>,
    rel_path: Seq<char>,
)
    requires
        pattern::holds_add(capture, call),
    ensures
        declared_resource(capture, source, rel_path) == called_resource(
            call,
            source,
            pattern::start_of(capture),
            rel_path,
        ),
{
}

/// Where the matches are the calls that add a resource, what they declare is what those calls add.
proof fn adds_are_added(captures: Seq<CaptureView>, source: Seq<char>, rel_path: Seq<char>)
    requires
        pattern::are_adds(captures, source),
    ensures
        are_added(declared_resources(captures, source, rel_path), source, rel_path),
        captures.len() == 0 ==> !syntax::adds_resource(source),
{
    let resources = declared_resources(captures, source, rel_path);
    assert forall|k: int| 0 <= k < resources.len() implies is_added(
        #[trigger] resources[k],
        source,
        rel_path,
    ) by {
        let capture = captures[k];
        assert(pattern::is_add(capture, source));
        let call = choose|call: AddCall| #[trigger]
            call.stands_at(source, pattern::start_of(capture)) && pattern::holds_add(capture, call);
        held_call_is_declared(capture, call, source, rel_path);
    }
    assert forall|call: AddCall, offset: usize| #[trigger]
        call.stands_at(source, offset) implies resources.contains(
        called_resource(call, source, offset, rel_path),
    ) || is_within_call(offset, resources, source, rel_path) by {
        assert(pattern::covered(captures, offset as int));
        let k = choose|k: int|
            0 <= k < captures.len() && pattern::start_of(#[trigger] captures[k]) <= offset
                < pattern::end_of(captures[k]);
        let capture = captures[k];
        let start = pattern::start_of(capture);
        assert(pattern::is_add(capture, source));
        let held = choose|held: AddCall| #[trigger]
            held.stands_at(source, start) && pattern::holds_add(capture, held);
        held_call_is_declared(capture, held, source, rel_path);
        assert(resources[k] == called_resource(held, source, start, rel_path));
        if start == offset {
            syntax::one_add_call_at_a_place(held, call, source, offset);
        } else {
            assert(syntax::spans(held.text(), source, start, offset));
        }
    }
}

/// Where the matches are the calls that add a resource, in their order, so are the resources.
proof fn adds_are_in_order(captures: Seq<CaptureView>, source: Seq<char>, rel_path: Seq<char>)
    requires
        pattern::are_adds(captures, source),
        pattern::in_order(captures),
    ensures
        are_in_order(declared_resources(captures, source, rel_path), source, rel_path),
{
    let resources = declared_resources(captures, source, rel_path);
    let offsets = captures.map_values(|capture: CaptureView| pattern::start_of(capture));
    assert forall|k: int| 0 <= k < resources.len() implies is_added_at(
        #[trigger] resources[k],
        source,
        offsets[k],
        rel_path,
    ) by {
        let capture = captures[k];
        assert(pattern::is_add(capture, source));
        let call = choose|call: AddCall| #[trigger]
            call.stands_at(source, pattern::start_of(capture)) && pattern::holds_add(capture, call);
        held_call_is_declared(capture, call, source, rel_path);
        assert(call.stands_at(source, offsets[k]));
    }
    assert forall|k: int, l: int| 0 <= k < l < offsets.len() implies #[trigger] offsets[k]
        < #[trigger] offsets[l] by {
        let capture = captures[k];
        assert(pattern::is_add(capture, source));
        let call = choose|call: AddCall| #[trigger]
            call.stands_at(source, pattern::start_of(capture)) && pattern::holds_add(capture, call);
        let (rest, head) = syntax::call_starts_and_ends(call);
        reveal_strlit("builder");
        encoding_adds_up("builder"@, rest);
        utf8::is_ascii_chars_encode_utf8("builder"@);
        assert(utf8::encode_utf8("builder"@).len() == 7);
        assert(pattern::end_of(captures[k]) <= pattern::start_of(captures[l]));
    }
    assert(are_added_at(resources, offsets, source, rel_path));
}

/// Two texts in a row have the line breaks of both.
proof fn line_breaks_add_up(a: Seq<char>, b: Seq<char>)
    ensures
        line_breaks(a + b) == line_breaks(a) + line_breaks(b),
    decreases b.len(),
{
    if b.len() == 0 {
        assert(a + b =~= a);
    } else {
        line_breaks_add_up(a, b.drop_last());
        assert((a + b).drop_last() =~= a + b.drop_last());
    }
}

/// What lies further on lies in no earlier line.
pub proof fn lines_ascend(source: Seq<char>, first: int, second: int)
    requires
        utf8::is_char_boundary(utf8::encode_utf8(source), first),
        utf8::is_char_boundary(utf8::encode_utf8(source), second),
        first <= second,
    ensures
        1 <= line_at(source, first) <= line_at(source, second) <= line_breaks(source) + 1,
{
    let bytes = utf8::encode_utf8(source);
    utf8::encode_utf8_valid_utf8(source);
    utf8::encode_utf8_decode_utf8(source);
    utf8::valid_utf8_split(bytes, second);
    utf8::decode_utf8_split(bytes, second);
    line_breaks_add_up(
        text_before(source, second),
        utf8::decode_utf8(bytes.subrange(second, bytes.len() as int)),
    );
    let head = bytes.subrange(0, second);
    boundary_in_prefix(bytes, first, second);
    utf8::decode_utf8_split(head, first);
    assert(head.subrange(0, first) =~= bytes.subrange(0, first));
    line_breaks_add_up(
        text_before(source, first),
        utf8::decode_utf8(head.subrange(first, second)),
    );
}

/// A boundary between characters is one in every prefix that ends on a boundary.
proof fn boundary_in_prefix(bytes: Seq<u8>, first: int, second: int)
    requires
        utf8::valid_utf8(bytes),
        utf8::is_char_boundary(bytes, first),
        utf8::is_char_boundary(bytes, second),
        0 <= first <= second <= bytes.len(),
    ensures
        utf8::valid_utf8(bytes.subrange(0, second)),
        utf8::is_char_boundary(bytes.subrange(0, second), first),
{
    let head = bytes.subrange(0, second);
    utf8::valid_utf8_split(bytes, second);
    if first == second {
        utf8::is_char_boundary_start_end_of_seq(head);
    } else {
        utf8::is_char_boundary_iff_not_is_continuation_byte(bytes, first);
        utf8::is_char_boundary_iff_not_is_continuation_byte(head, first);
        assert(head[first] == bytes[first]);
    }
}

/// Resources are listed in the order of their lines, as long as lines can be counted.
pub proof fn resources_are_listed_line_by_line(
    captures: Seq<CaptureView>,
    source: Seq<char>,
    rel_path: Seq<char>,
    k: int,
    l: int,
)
    requires
        forall|c: int| 0 <= c < captures.len() ==> pattern::located(#[trigger] captures[c], source),
        pattern::in_order(captures),
        0 <= k <= l < captures.len(),
        line_breaks(source) < u32::MAX,
    ensures
        ({
            let resources = declared_resources(captures, source, rel_path);
            &&& resources[k].entry.line matches Some(earlier)
            &&& resources[l].entry.line matches Some(later)
            &&& 1 <= earlier <= later <= line_breaks(source) + 1
        }),
{
    let first = captures[k];
    let second = captures[l];
    assert(pattern::located(first, source) && pattern::located(second, source));
    assert(syntax::stands_at_offset((first[0]->0).1, source, (first[0]->0).0));
    assert(syntax::stands_at_offset((second[0]->0).1, source, (second[0]->0).0));
    if k < l {
        assert(pattern::end_of(first) <= pattern::start_of(second));
    }
    lines_ascend(
        source,
        pattern::start_of(first) as int,
        pattern::start_of(second) as int,
    );
}

/// The encoding of two texts in a row is that of the one, then that of the other.
pub proof fn encoding_adds_up(a: Seq<char>, b: Seq<char>)
    ensures
        utf8::encode_utf8(a + b) == utf8::encode_utf8(a) + utf8::encode_utf8(b),
    decreases a.len(),
{
    if a.len() == 0 {
        assert(a + b =~= b);
        assert(utf8::encode_utf8(a) + utf8::encode_utf8(b) =~= utf8::encode_utf8(b));
    } else {
        encoding_adds_up(a.drop_first(), b);
        assert((a + b).drop_first() =~= a.drop_first() + b);
        let first = utf8::encode_scalar(a[0] as u32);
        assert(first + (utf8::encode_utf8(a.drop_first()) + utf8::encode_utf8(b)) =~= first
            + utf8::encode_utf8(a.drop_first()) + utf8::encode_utf8(b));
    }
}

/// A run of line breaks has as many bytes, and as many line breaks, as characters.
proof fn size_of_run(breaks: Seq<char>)
    requires
        text::is_run(breaks, '\n'),
    ensures
        utf8::encode_utf8(breaks).len() == breaks.len(),
        line_breaks(breaks) == breaks.len(),
    decreases breaks.len(),
{
    assert(utf8::is_ascii_chars(breaks));
    utf8::is_ascii_chars_encode_utf8(breaks);
    if breaks.len() > 0 {
        size_of_run(breaks.drop_last());
    }
}

/// An offset that lies between two characters further on, after line breaks before a text, does so
/// in that text.
proof fn boundary_after_run(breaks: Seq<char>, source: Seq<char>, offset: int)
    requires
        text::is_run(breaks, '\n'),
        0 <= offset,
        utf8::is_char_boundary(utf8::encode_utf8(breaks + source), offset + breaks.len()),
    ensures
        utf8::is_char_boundary(utf8::encode_utf8(source), offset),
{
    let bytes = utf8::encode_utf8(source);
    let longer = utf8::encode_utf8(breaks + source);
    size_of_run(breaks);
    encoding_adds_up(breaks, source);
    utf8::encode_utf8_valid_utf8(source);
    utf8::encode_utf8_valid_utf8(breaks + source);
    if offset == bytes.len() {
        utf8::is_char_boundary_start_end_of_seq(bytes);
    } else {
        utf8::is_char_boundary_iff_not_is_continuation_byte(bytes, offset);
        utf8::is_char_boundary_iff_not_is_continuation_byte(longer, offset + breaks.len());
        assert(longer[offset + breaks.len()] == bytes[offset]);
    }
}

/// Line breaks put before a source raise the line of each of its places by their number.
pub proof fn line_breaks_before_raise_lines(breaks: Seq<char>, source: Seq<char>, offset: int)
    requires
        text::is_run(breaks, '\n'),
        utf8::is_char_boundary(utf8::encode_utf8(source), offset),
    ensures
        line_at(breaks + source, offset + breaks.len()) == line_at(source, offset) + breaks.len(),
{
    let bytes = utf8::encode_utf8(source);
    let before = bytes.subrange(0, offset);
    let head = text_before(source, offset);
    size_of_run(breaks);
    encoding_adds_up(breaks, source);
    utf8::encode_utf8_valid_utf8(source);
    utf8::valid_utf8_split(bytes, offset);
    utf8::decode_utf8_encode_utf8(before);
    encoding_adds_up(breaks, head);
    utf8::encode_utf8_decode_utf8(breaks + head);
    assert(utf8::encode_utf8(breaks + source).subrange(0, offset + breaks.len()) =~= utf8::encode_utf8(
        breaks,
    ) + before);
    line_breaks_add_up(breaks, head);
}

/// Line breaks put before a source raise the lines of all its resources by their number and change
/// nothing else: `earlier` are the matches in `source`, `later` the same matches further on.
pub proof fn line_breaks_before_raise_resources(
    breaks: Seq<char>,
    source: Seq<char>,
    rel_path: Seq<char>,
    earlier: Seq<CaptureView>,
    later: Seq<CaptureView>,
)
    requires
        text::is_run(breaks, '\n'),
        forall|k: int| 0 <= k < earlier.len() ==> is_placed(#[trigger] earlier[k], source),
        pattern::moved(earlier, later, breaks.len()),
        line_breaks(breaks + source) < u32::MAX,
    ensures
        declared_resources(later, breaks + source, rel_path) == raised(
            declared_resources(earlier, source, rel_path),
            breaks.len(),
        ),
{
    let now = declared_resources(later, breaks + source, rel_path);
    let then = declared_resources(earlier, source, rel_path);
    size_of_run(breaks);
    line_breaks_add_up(breaks, source);
    assert forall|k: int| 0 <= k < now.len() implies now[k] == raised_resource(
        then[k],
        breaks.len(),
    ) by {
        let from = earlier[k];
        let to = later[k];
        assert(is_placed(from, source));
        assert(pattern::moved_capture(from, to, breaks.len()));
        assert(to[0] is Some);
        same_groups(from, to, breaks.len());
        let offset = pattern::start_of(from) as int;
        line_breaks_before_raise_lines(breaks, source, offset);
        lines_ascend(source, offset, offset);
    }
    assert(now =~= raised(then, breaks.len()));
}

/// A match that is moved keeps the texts of its groups.
proof fn same_groups(from: CaptureView, to: CaptureView, n: nat)
    requires
        pattern::moved_capture(from, to, n),
    ensures
        forall|g: int|
            #[trigger] pattern::text_or_empty(from, g) == pattern::text_or_empty(to, g),
{
    assert forall|g: int|
        #[trigger] pattern::text_or_empty(from, g) == pattern::text_or_empty(to, g) by {
        if 0 <= g < from.len() {
            let (a, b) = (from[g], to[g]);
        }
    }
}

/// The line breaks of a text are the places at which `\\n` stands, and no others: a `\\r` is none.
pub proof fn line_breaks_are_counted(s: Seq<char>)
    ensures
        Set::new(|k: int| 0 <= k < s.len() && s[k] == '\n').finite(),
        line_breaks(s) == Set::new(|k: int| 0 <= k < s.len() && s[k] == '\n').len(),
    decreases s.len(),
{
    let places = Set::new(|k: int| 0 <= k < s.len() && s[k] == '\n');
    if s.len() == 0 {
        assert(places =~= Set::empty());
    } else {
        let shorter = s.drop_last();
        let earlier = Set::new(|k: int| 0 <= k < shorter.len() && shorter[k] == '\n');
        line_breaks_are_counted(shorter);
        if s.last() == '\n' {
            assert(places =~= earlier.insert(s.len() - 1));
        } else {
            assert(places =~= earlier);
        }
    }
}

/// What stands before the place at which a text ends is that text.
proof fn text_before_its_end(before: Seq<char>, after: Seq<char>)
    ensures
        text_before(before + after, utf8::encode_utf8(before).len() as int) == before,
{
    let end = utf8::encode_utf8(before).len() as int;
    encoding_adds_up(before, after);
    assert(utf8::encode_utf8(before + after).subrange(0, end) =~= utf8::encode_utf8(before));
    utf8::encode_utf8_decode_utf8(before);
}

/// The line of a place is one more than the number of line breaks before it.
pub proof fn line_is_one_more_than_the_breaks_before(before: Seq<char>, after: Seq<char>)
    ensures
        line_at(before + after, utf8::encode_utf8(before).len() as int) == Set::new(
            |k: int| 0 <= k < before.len() && before[k] == '\n',
        ).len() + 1,
{
    text_before_its_end(before, after);
    line_breaks_are_counted(before);
}

/// Characters other than `\\n`, put anywhere before a place, leave its line as it is.
pub proof fn only_line_breaks_raise_lines(before: Seq<char>, more: Seq<char>, after: Seq<char>)
    requires
        forall|k: int| 0 <= k < more.len() ==> #[trigger] more[k] != '\n',
    ensures
        line_at(before + more + after, utf8::encode_utf8(before + more).len() as int) == line_at(
            before + after,
            utf8::encode_utf8(before).len() as int,
        ),
{
    text_before_its_end(before, after);
    text_before_its_end(before + more, after);
    line_breaks_add_up(before, more);
    line_breaks_are_counted(more);
    assert(Set::new(|k: int| 0 <= k < more.len() && more[k] == '\n') =~= Set::empty());
}

/// A call that is written somewhere is listed, with the line in which it starts, unless a `builder`
/// with exactly one quotation mark after it comes before, so that the call may stand in a name.
pub proof fn written_call_is_listed(
    before: Seq<char>,
    call: AddCall,
    after: Seq<char>,
    resources: Seq<ResourceView>,
    rel_path: Seq<char>,
)
    requires
        call.is_valid(),
        utf8::encode_utf8(before).len() <= usize::MAX,
        are_added(resources, before + call.text() + after, rel_path),
        forall|x: Seq<char>, u: Seq<char>, v: Seq<char>|
            !u.contains('"') && !v.contains('"') ==> before != #[trigger] (x + "builder"@ + u
                + "\""@ + v),
    ensures
        resources.contains(
            ResourceView {
                entry: EntryPointView {
                    label: resource_label(text::lowercase(call.suffix), call.name),
                    path: rel_path,
                    line: Some(
                        (Set::new(|k: int| 0 <= k < before.len() && before[k] == '\n').len()
                            + 1) as u32,
                    ),
                    method: Some(resource_kind(text::lowercase(call.suffix))),
                    description: Some(
                        "builder.Add"@ + call.suffix + "(\""@ + call.name + "\")"@,
                    ),
                    detection_source: Some("regex"@),
                },
                name: call.name,
                project: match call.argument {
                    Some(argument) => if text::lowercase(call.suffix) == "project"@ {
                        Some(argument.name)
                    } else {
                        None
                    },
                    None => None,
                },
            },
        ),
{
    let source = before + call.text() + after;
    let offset = utf8::encode_utf8(before).len() as usize;
    syntax::written_text_stands(before, call.text(), after);
    assert(call.stands_at(source, offset));
    assert(source =~= before + (call.text() + after));
    if is_within_call(offset, resources, source, rel_path) {
        let (outer, start) = choose|outer: AddCall, start: usize| #[trigger]
            outer.stands_at(source, start) && syntax::spans(outer.text(), source, start, offset)
                && resources.contains(called_resource(outer, source, start, rel_path));
        let (a, b) = syntax::span_is_written(
            outer.text(),
            source,
            start,
            before,
            call.text() + after,
            offset,
        );
        let (u, v) = syntax::call_within_starts_in_the_name(a, outer, b, before, call, after);
        assert(before != a + "builder"@ + u + "\""@ + v);
    }
    line_is_one_more_than_the_breaks_before(before, call.text() + after);
    only_projects_are_projects(text::lowercase(call.suffix));
}

/// Whatever is listed is written: some call stands in the source between two texts, and the entry
/// point tells its suffix, its name and the line in which it starts.
pub proof fn listed_resource_is_written(
    source: Seq<char>,
    resources: Seq<ResourceView>,
    rel_path: Seq<char>,
    k: int,
) -> (r: (Seq<char>, AddCall, Seq<char>))
    requires
        are_added(resources, source, rel_path),
        0 <= k < resources.len(),
    ensures
        r.1.is_valid(),
        source == r.0 + r.1.text() + r.2,
        resources[k].name == r.1.name,
        resources[k].entry.line == Some(
            (Set::new(|i: int| 0 <= i < r.0.len() && r.0[i] == '\n').len() + 1) as u32,
        ),
        resources[k].entry.path == rel_path,
        resources[k].entry.description == Some(
            "builder.Add"@ + r.1.suffix + "(\""@ + r.1.name + "\")"@,
        ),
        exists|a: Seq<char>, b: Seq<char>|
            source == #[trigger] (a + "builder"@ + b) && a == r.0,
        exists|a: Seq<char>, b: Seq<char>| source == #[trigger] (a + ("\""@ + r.1.name + "\""@) + b),
{
    assert(is_added(resources[k], source, rel_path));
    let (call, offset) = choose|call: AddCall, offset: usize| #[trigger]
        call.stands_at(source, offset) && resources[k] == called_resource(
            call,
            source,
            offset,
            rel_path,
        );
    let (before, after) = syntax::standing_text_is_written(call.text(), source, offset);
    assert(source =~= before + (call.text() + after));
    line_is_one_more_than_the_breaks_before(before, call.text() + after);
    let (middle, head) = syntax::call_starts_and_ends(call);
    assert(source =~= before + "builder"@ + (middle + after));
    assert(source =~= (before + head) + ("\""@ + call.name + "\""@) + after);
    (before, call, after)
}

/// A plain declaration `builder.Add*("name")` is listed, wherever it is written.
pub proof fn plain_declaration_is_listed(
    before: Seq<char>,
    suffix: Seq<char>,
    name: Seq<char>,
    after: Seq<char>,
    resources: Seq<ResourceView>,
    rel_path: Seq<char>,
)
    requires
        suffix.len() > 0,
        'A' <= suffix[0] <= 'Z' || 'a' <= suffix[0] <= 'z',
        forall|k: int|
            0 <= k < suffix.len() ==> ('A' <= #[trigger] suffix[k] <= 'Z' || 'a' <= suffix[k] <= 'z'
                || '0' <= suffix[k] <= '9'),
        name.len() > 0,
        !name.contains('"'),
        utf8::encode_utf8(before).len() <= usize::MAX,
        are_added(
            resources,
            before + ("builder.Add"@ + suffix + "(\""@ + name + "\""@) + after,
            rel_path,
        ),
        forall|x: Seq<char>, u: Seq<char>, v: Seq<char>|
            !u.contains('"') && !v.contains('"') ==> before != #[trigger] (x + "builder"@ + u
                + "\""@ + v),
    ensures
        resources.contains(
            ResourceView {
                entry: EntryPointView {
                    label: resource_label(text::lowercase(suffix), name),
                    path: rel_path,
                    line: Some(
                        (Set::new(|k: int| 0 <= k < before.len() && before[k] == '\n').len()
                            + 1) as u32,
                    ),
                    method: Some(resource_kind(text::lowercase(suffix))),
                    description: Some("builder.Add"@ + suffix + "(\""@ + name + "\")"@),
                    detection_source: Some("regex"@),
                },
                name,
                project: None,
            },
        ),
{
    let none = Seq::<char>::empty();
    let call = AddCall {
        before_dot: none,
        after_dot: none,
        suffix,
        after_suffix: none,
        argument: None,
        before_parenthesis: none,
        after_parenthesis: none,
        name,
    };
    reveal_strlit("builder.Add");
    reveal_strlit("builder");
    reveal_strlit(".");
    reveal_strlit("Add");
    reveal_strlit("(\"");
    reveal_strlit("(");
    reveal_strlit("\"");
    assert(call.arguments() =~= "(\""@ + name + "\""@);
    assert(call.text() =~= "builder.Add"@ + suffix + "(\""@ + name + "\""@);
    written_call_is_listed(before, call, after, resources, rel_path);
}

/// A declaration `builder.Add*<Namespace.Type>("name")` is listed, wherever it is written, and names
/// the last part of its type as its project exactly where it adds a project.
pub proof fn typed_declaration_is_listed(
    before: Seq<char>,
    suffix: Seq<char>,
    namespace: Seq<char>,
    argument: Seq<char>,
    name: Seq<char>,
    after: Seq<char>,
    resources: Seq<ResourceView>,
    rel_path: Seq<char>,
)
    requires
        suffix.len() > 0,
        'A' <= suffix[0] <= 'Z' || 'a' <= suffix[0] <= 'z',
        forall|k: int|
            0 <= k < suffix.len() ==> ('A' <= #[trigger] suffix[k] <= 'Z' || 'a' <= suffix[k] <= 'z'
                || '0' <= suffix[k] <= '9'),
        namespace.len() == 0 || (namespace.len() >= 2 && namespace.last() == '.'),
        forall|k: int|
            0 <= k < namespace.len() ==> ('A' <= #[trigger] namespace[k] <= 'Z' || 'a'
                <= namespace[k] <= 'z' || '0' <= namespace[k] <= '9' || namespace[k] == '_'
                || namespace[k] == '.'),
        argument.len() > 0,
        forall|k: int|
            0 <= k < argument.len() ==> ('A' <= #[trigger] argument[k] <= 'Z' || 'a' <= argument[k]
                <= 'z' || '0' <= argument[k] <= '9' || argument[k] == '_'),
        name.len() > 0,
        !name.contains('"'),
        utf8::encode_utf8(before).len() <= usize::MAX,
        are_added(
            resources,
            before + ("builder.Add"@ + suffix + "<"@ + namespace + argument + ">(\""@ + name
                + "\""@) + after,
            rel_path,
        ),
        forall|x: Seq<char>, u: Seq<char>, v: Seq<char>|
            !u.contains('"') && !v.contains('"') ==> before != #[trigger] (x + "builder"@ + u
                + "\""@ + v),
    ensures
        resources.contains(
            ResourceView {
                entry: EntryPointView {
                    label: resource_label(text::lowercase(suffix), name),
                    path: rel_path,
                    line: Some(
                        (Set::new(|k: int| 0 <= k < before.len() && before[k] == '\n').len()
                            + 1) as u32,
                    ),
                    method: Some(resource_kind(text::lowercase(suffix))),
                    description: Some("builder.Add"@ + suffix + "(\""@ + name + "\")"@),
                    detection_source: Some("regex"@),
                },
                name,
                project: if text::lowercase(suffix) == "project"@ {
                    Some(argument)
                } else {
                    None
                },
            },
        ),
{
    let none = Seq::<char>::empty();
    let of_type = TypeArgument {
        before: none,
        qualification: namespace,
        name: argument,
        after: none,
    };
    let call = AddCall {
        before_dot: none,
        after_dot: none,
        suffix,
        after_suffix: none,
        argument: Some(of_type),
        before_parenthesis: none,
        after_parenthesis: none,
        name,
    };
    reveal_strlit("builder.Add");
    reveal_strlit("builder");
    reveal_strlit(".");
    reveal_strlit("Add");
    reveal_strlit("<");
    reveal_strlit(">");
    reveal_strlit(">(\"");
    reveal_strlit("(");
    reveal_strlit("\"");
    assert(of_type.text() =~= "<"@ + namespace + argument + ">"@);
    assert(call.before_arguments() + call.arguments() =~= "<"@ + namespace + argument + ">(\""@
        + name + "\""@);
    assert(call.text() =~= "builder.Add"@ + suffix + "<"@ + namespace + argument + ">(\""@ + name
        + "\""@);
    written_call_is_listed(before, call, after, resources, rel_path);
}

/// Where `builder` stands nowhere, nothing is listed.
pub proof fn nothing_is_listed_without_builder(
    source: Seq<char>,
    resources: Seq<ResourceView>,
    rel_path: Seq<char>,
)
    requires
        are_added(resources, source, rel_path),
        forall|a: Seq<char>, b: Seq<char>| source != #[trigger] (a + "builder"@ + b),
    ensures
        resources.len() == 0,
{
    if resources.len() > 0 {
        let written = listed_resource_is_written(source, resources, rel_path, 0);
    }
}

/// The label of a resource tells its kind and its name.
pub proof fn label_tells_kind_and_name(suffix: Seq<char>, name: Seq<char>)
    ensures
        resource_kind(suffix) == "PROJECT"@ ==> resource_label(suffix, name) == "project: "@ + name,
        resource_kind(suffix) == "CONTAINER"@ ==> exists|detail: Seq<char>|
            resource_label(suffix, name) == #[trigger] ("container: "@ + name + " ("@ + detail
                + ")"@),
        resource_kind(suffix) == "RESOURCE"@ ==> exists|detail: Seq<char>|
            resource_label(suffix, name) == #[trigger] ("resource: "@ + name + " ("@ + detail
                + ")"@),
{
    reveal_strlit("PROJECT");
    reveal_strlit("CONTAINER");
    reveal_strlit("RESOURCE");
    assert("PROJECT"@.len() == 7 && "CONTAINER"@.len() == 9 && "RESOURCE"@.len() == 8);
    if let Some(image) = container_image(suffix) {
        let label = "container: "@ + name + " ("@ + image + ")"@;
        assert(resource_kind(suffix) == "CONTAINER"@ ==> resource_label(suffix, name) == label);
    } else {
        let label = "resource: "@ + name + " ("@ + resource_tool(suffix) + ")"@;
        assert(resource_kind(suffix) == "RESOURCE"@ ==> resource_label(suffix, name) == label);
    }
}

/// A resource that is added under a suffix with no meaning of its own is shown by that suffix.
pub proof fn other_resources_are_shown_by_their_suffix(suffix: Seq<char>, name: Seq<char>)
    requires
        suffix != "project"@,
        suffix != "postgres"@ && suffix != "postgresql"@,
        suffix != "redis"@ && suffix != "rabbitmq"@ && suffix != "mongodb"@ && suffix != "mysql"@,
        suffix != "kafka"@ && suffix != "nats"@ && suffix != "sqlserver"@ && suffix != "valkey"@,
        suffix != "container"@,
        suffix != "npmapp"@ && suffix != "nodejsapp"@,
    ensures
        resource_kind(suffix) == "RESOURCE"@,
        resource_label(suffix, name) == "resource: "@ + name + " ("@ + suffix + ")"@,
{
}

/// The suffixes that add a container are eleven: eight are the name of what runs in it, two add
/// PostgreSQL, and one leaves open what runs in it.
pub proof fn containers_are_shown_by_what_runs_in_them(suffix: Seq<char>, name: Seq<char>)
    ensures
        resource_kind(suffix) == "CONTAINER"@ <==> suffix == "postgres"@ || suffix
            == "postgresql"@ || suffix == "redis"@ || suffix == "rabbitmq"@ || suffix == "mongodb"@
            || suffix == "mysql"@ || suffix == "kafka"@ || suffix == "nats"@ || suffix
            == "sqlserver"@ || suffix == "valkey"@ || suffix == "container"@,
        resource_kind(suffix) == "CONTAINER"@ ==> resource_label(suffix, name) == "container: "@
            + name + " ("@ + (if suffix == "postgresql"@ {
            "postgres"@
        } else if suffix == "container"@ {
            "custom"@
        } else {
            suffix
        }) + ")"@,
        suffix == "npmapp"@ || suffix == "nodejsapp"@ ==> resource_kind(suffix) == "RESOURCE"@
            && resource_label(suffix, name) == "resource: "@ + name + " (npm)"@,
{
    reveal_strlit("PROJECT");
    reveal_strlit("CONTAINER");
    reveal_strlit("RESOURCE");
    assert("PROJECT"@.len() == 7 && "CONTAINER"@.len() == 9 && "RESOURCE"@.len() == 8);
    reveal_strlit("project");
    reveal_strlit("postgres");
    reveal_strlit("postgresql");
    reveal_strlit("redis");
    reveal_strlit("rabbitmq");
    reveal_strlit("mongodb");
    reveal_strlit("mysql");
    reveal_strlit("kafka");
    reveal_strlit("nats");
    reveal_strlit("sqlserver");
    reveal_strlit("valkey");
    reveal_strlit("container");
    reveal_strlit("npmapp");
    reveal_strlit("nodejsapp");
    reveal_strlit(" (");
    reveal_strlit("npm");
    reveal_strlit(")");
    reveal_strlit(" (npm)");
    assert("project"@.len() == 7 && "project"@[0] == 'p' && "project"@[1] == 'r');
    assert("rabbitmq"@.len() == 8 && "postgres"@.len() == 8 && "postgresql"@.len() == 10);
    assert("redis"@.len() == 5 && "mongodb"@.len() == 7 && "mysql"@.len() == 5);
    assert("kafka"@.len() == 5 && "nats"@.len() == 4 && "sqlserver"@.len() == 9);
    assert("valkey"@.len() == 6 && "container"@.len() == 9);
    assert("npmapp"@.len() == 6 && "nodejsapp"@.len() == 9);
    assert("mongodb"@[0] == 'm' && "npmapp"@[0] == 'n' && "valkey"@[0] == 'v');
    assert("nodejsapp"@[0] == 'n' && "sqlserver"@[0] == 's' && "container"@[0] == 'c');
    assert("rabbitmq"@[0] == 'r' && "postgres"@[0] == 'p');
    if suffix == "npmapp"@ || suffix == "nodejsapp"@ {
        assert("resource: "@ + name + " ("@ + "npm"@ + ")"@ =~= "resource: "@ + name + " (npm)"@);
    }
}

/// Of two listed resources, the call of the first comes before that of the second: no call is listed
/// twice, and none out of its turn.
pub proof fn listed_calls_follow_each_other(
    source: Seq<char>,
    resources: Seq<ResourceView>,
    rel_path: Seq<char>,
    k: int,
    l: int,
) -> (r: (Seq<char>, AddCall, Seq<char>, AddCall))
    requires
        are_in_order(resources, source, rel_path),
        0 <= k < l < resources.len(),
    ensures
        r.0.len() < r.2.len(),
        exists|rest: Seq<char>| source == #[trigger] (r.0 + r.1.text() + rest),
        exists|rest: Seq<char>| source == #[trigger] (r.2 + r.3.text() + rest),
        resources[k].name == r.1.name,
        resources[l].name == r.3.name,
        resources[k].entry.line == Some(
            (Set::new(|i: int| 0 <= i < r.0.len() && r.0[i] == '\n').len() + 1) as u32,
        ),
        resources[l].entry.line == Some(
            (Set::new(|i: int| 0 <= i < r.2.len() && r.2[i] == '\n').len() + 1) as u32,
        ),
{
    let offsets = choose|offsets: Seq<usize>| are_added_at(resources, offsets, source, rel_path);
    assert(is_added_at(resources[k], source, offsets[k], rel_path));
    assert(is_added_at(resources[l], source, offsets[l], rel_path));
    let first = choose|call: AddCall| #[trigger]
        call.stands_at(source, offsets[k]) && resources[k] == called_resource(
            call,
            source,
            offsets[k],
            rel_path,
        );
    let second = choose|call: AddCall| #[trigger]
        call.stands_at(source, offsets[l]) && resources[l] == called_resource(
            call,
            source,
            offsets[l],
            rel_path,
        );
    let (a, x) = syntax::standing_text_is_written(first.text(), source, offsets[k]);
    let (b, y) = syntax::standing_text_is_written(second.text(), source, offsets[l]);
    assert(source == a + first.text() + x && source == b + second.text() + y);
    assert(source =~= a + (first.text() + x));
    assert(source =~= b + (second.text() + y));
    syntax::fewer_bytes_fewer_characters(a, first.text() + x, b, second.text() + y);
    line_is_one_more_than_the_breaks_before(a, first.text() + x);
    line_is_one_more_than_the_breaks_before(b, second.text() + y);
    (a, first, b, second)
}

/// A match declares what its groups say: the suffix, the type of a project and the name, in the line
/// in which the match starts.
pub proof fn match_declares_what_its_groups_say(
    captures: Seq<CaptureView>,
    source: Seq<char>,
    rel_path: Seq<char>,
    k: int,
)
    requires
        0 <= k < captures.len(),
    ensures
        ({
            let suffix = pattern::text_or_empty(captures[k], 1);
            let argument = pattern::text_or_empty(captures[k], 2);
            let name = pattern::text_or_empty(captures[k], 3);
            let found = declared_resources(captures, source, rel_path)[k];
            &&& declared_resources(captures, source, rel_path).len() == captures.len()
            &&& found.name == name
            &&& found.project is Some <==> text::lowercase(suffix) == "project"@ && argument.len()
                > 0
            &&& found.project is Some ==> found.project == Some(argument)
            &&& found.entry.label == resource_label(text::lowercase(suffix), name)
            &&& found.entry.method == Some(resource_kind(text::lowercase(suffix)))
            &&& found.entry.line == Some(
                line_at(source, pattern::start_of(captures[k]) as int) as u32,
            )
            &&& found.entry.description == Some("builder.Add"@ + suffix + "(\""@ + name + "\")"@)
            &&& found.entry.path == rel_path
            &&& found.entry.detection_source == Some("regex"@)
        }),
{
    only_projects_are_projects(text::lowercase(pattern::text_or_empty(captures[k], 1)));
}

/// The view of a resource tells each of its fields.
pub proof fn resource_is_seen_whole(resource: Resource)
    ensures
        resource@.entry == resource.entry@,
        resource@.name == resource.name@,
        resource.project is Some <==> resource@.project is Some,
        resource.project is Some ==> resource@.project == Some((resource.project->0)@),
{
}

} // verus!
