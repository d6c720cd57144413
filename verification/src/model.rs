//! What the plugin reports about a project, and the mathematical view of each report.

use vstd::prelude::*;

verus! {

/// A place in a project from which it can be entered: an orchestrated resource or an OpenAPI
/// document.
#[derive(Debug, PartialEq, Eq)]
pub struct EntryPoint {
    /// What to show for it.
    pub label: String,
    /// The file that declares it, relative to its project.
    pub path: String,
    /// The 1-based line of the declaration, where it is known.
    pub line: Option<u32>,
    /// The kind of entry point.
    pub method: Option<String>,
    /// A longer description.
    pub description: Option<String>,
    /// How it was found.
    pub detection_source: Option<String>,
}

/// The view of an [`EntryPoint`].
#[verifier::ext_equal]
pub struct EntryPointView {
    pub label: Seq<char>,
    pub path: Seq<char>,
    pub line: Option<u32>,
    pub method: Option<Seq<char>>,
    pub description: Option<Seq<char>>,
    pub detection_source: Option<Seq<char>>,
}

impl View for EntryPoint {
    type V = EntryPointView;

    open spec fn view(&self) -> EntryPointView {
        EntryPointView {
            label: self.label@,
            path: self.path@,
            line: self.line,
            method: self.method.deep_view(),
            description: self.description.deep_view(),
            detection_source: self.detection_source.deep_view(),
        }
    }
}

impl DeepView for EntryPoint {
    type V = EntryPointView;

    open spec fn deep_view(&self) -> EntryPointView {
        self@
    }
}

/// What a project is and where it can be entered.
#[derive(Debug, PartialEq, Eq)]
pub struct ProjectProfile {
    /// The category of the project.
    pub category: String,
    /// The technologies it uses.
    pub tags: Vec<String>,
    /// Its entry points, in the order in which its sources declare them.
    pub entry_points: Vec<EntryPoint>,
}

/// The view of a [`ProjectProfile`].
#[verifier::ext_equal]
pub struct ProjectProfileView {
    pub category: Seq<char>,
    pub tags: Seq<Seq<char>>,
    pub entry_points: Seq<EntryPointView>,
}

impl View for ProjectProfile {
    type V = ProjectProfileView;

    open spec fn view(&self) -> ProjectProfileView {
        ProjectProfileView {
            category: self.category@,
            tags: self.tags.deep_view(),
            entry_points: self.entry_points.deep_view(),
        }
    }
}

impl DeepView for ProjectProfile {
    type V = ProjectProfileView;

    open spec fn deep_view(&self) -> ProjectProfileView {
        self@
    }
}

/// Whether a project runs, and where.
#[derive(Debug, PartialEq, Eq)]
pub struct RunStatus {
    /// Whether it runs.
    pub is_running: bool,
    /// Where it can be reached while it runs.
    pub url: Option<String>,
    /// Its process, where it is known.
    pub pid: Option<u32>,
    /// The names of its running resources, where they are known.
    pub resources: Vec<String>,
}

/// The view of a [`RunStatus`].
#[verifier::ext_equal]
pub struct RunStatusView {
    pub is_running: bool,
    pub url: Option<Seq<char>>,
    pub pid: Option<u32>,
    pub resources: Seq<Seq<char>>,
}

impl View for RunStatus {
    type V = RunStatusView;

    open spec fn view(&self) -> RunStatusView {
        RunStatusView {
            is_running: self.is_running,
            url: self.url.deep_view(),
            pid: self.pid,
            resources: self.resources.deep_view(),
        }
    }
}

impl DeepView for RunStatus {
    type V = RunStatusView;

    open spec fn deep_view(&self) -> RunStatusView {
        self@
    }
}

/// The view of an entry point tells each of its fields.
pub proof fn entry_point_is_seen_whole(entry: EntryPoint)
    ensures
        entry@.label == entry.label@,
        entry@.path == entry.path@,
        entry@.line == entry.line,
        entry.method is Some <==> entry@.method is Some,
        entry.method is Some ==> entry@.method == Some((entry.method->0)@),
        entry.description is Some <==> entry@.description is Some,
        entry.description is Some ==> entry@.description == Some((entry.description->0)@),
        entry.detection_source is Some <==> entry@.detection_source is Some,
        entry.detection_source is Some ==> entry@.detection_source == Some(
            (entry.detection_source->0)@,
        ),
{
}

/// The view of a profile tells each of its fields.
pub proof fn profile_is_seen_whole(profile: ProjectProfile, k: int)
    ensures
        profile@.category == profile.category@,
        profile@.tags.len() == profile.tags@.len(),
        0 <= k < profile.tags@.len() ==> profile@.tags[k] == profile.tags@[k]@,
        profile@.entry_points.len() == profile.entry_points@.len(),
        0 <= k < profile.entry_points@.len() ==> profile@.entry_points[k]
            == profile.entry_points@[k]@,
{
}

/// The view of a status tells each of its fields.
pub proof fn status_is_seen_whole(status: RunStatus, k: int)
    ensures
        status@.is_running == status.is_running,
        status.url is Some <==> status@.url is Some,
        status.url is Some ==> status@.url == Some((status.url->0)@),
        status@.pid == status.pid,
        status@.resources.len() == status.resources@.len(),
        0 <= k < status.resources@.len() ==> status@.resources[k] == status.resources@[k]@,
{
}

} // verus!
