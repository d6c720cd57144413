//! Whether an AppHost project runs.
//!
//! The library reads no files and opens no connections. [`detect_run_status`] starts a
//! [`StatusCheck`], which says what it waits for: the project file at a path, then whether anything
//! listens on the port of the Aspire dashboard.

use crate::csproj;
use crate::model::{RunStatus, RunStatusView};
use crate::paths;
use vstd::prelude::*;

verus! {

/// The host on which the Aspire dashboard listens.
pub const DASHBOARD_HOST: &'static str = "localhost";

/// The default port of the Aspire dashboard.
pub const DASHBOARD_PORT: u16 = 18888;

/// How far the check whether a project runs has come.
#[derive(Debug, PartialEq, Eq)]
pub enum StatusCheck {
    /// The project file at `path` is to be read.
    Manifest { path: String },
    /// The project is an AppHost. The port of the dashboard is to be probed.
    Dashboard,
    /// Nothing more is needed.
    Done(Option<RunStatus>),
}

/// The view of a [`StatusCheck`].
#[verifier::ext_equal]
pub enum StatusCheckView {
    Manifest { path: Seq<char> },
    Dashboard,
    Done(Option<RunStatusView>),
}

impl View for StatusCheck {
    type V = StatusCheckView;

    open spec fn view(&self) -> StatusCheckView {
        match self {
            StatusCheck::Manifest { path } => StatusCheckView::Manifest { path: path@ },
            StatusCheck::Dashboard => StatusCheckView::Dashboard,
            StatusCheck::Done(status) => StatusCheckView::Done(status.deep_view()),
        }
    }
}

/// The status of an AppHost project, which runs where something listens on the dashboard's port.
pub open spec fn apphost_status(listening: bool) -> RunStatusView {
    RunStatusView {
        is_running: listening,
        url: if listening {
            Some("http://localhost:18888"@)
        } else {
            None
        },
        pid: None,
        resources: Seq::empty(),
    }
}

/// The state in which the check of the project at `root` begins.
pub open spec fn beginning(root: Seq<char>) -> StatusCheckView {
    match paths::own_csproj(root) {
        Some(path) => StatusCheckView::Manifest { path },
        None => StatusCheckView::Done(None),
    }
}

impl StatusCheckView {
    /// The state after the project file was read, with its content, or `None` where it could not be
    /// read.
    pub open spec fn after_manifest(self, content: Option<Seq<char>>) -> StatusCheckView {
        match self {
            StatusCheckView::Manifest { .. } => match content {
                Some(csproj) if csproj::is_apphost(csproj) => StatusCheckView::Dashboard,
                _ => StatusCheckView::Done(None),
            },
            other => other,
        }
    }

    /// The state after the port was probed.
    pub open spec fn after_probe(self, listening: bool) -> StatusCheckView {
        match self {
            StatusCheckView::Dashboard => StatusCheckView::Done(Some(apphost_status(listening))),
            other => other,
        }
    }
}

/// The status of the project at `root`; `None` where it is no AppHost. `disk` holds the content of
/// every readable file by its path; `listening` tells whether something listens on the dashboard's
/// port.
pub open spec fn run_status(
    disk: Map<Seq<char>, Seq<char>>,
    root: Seq<char>,
    listening: bool,
) -> Option<RunStatusView> {
    match paths::own_csproj(root) {
        Some(path) => if disk.contains_key(path) && csproj::is_apphost(disk[path]) {
            Some(apphost_status(listening))
        } else {
            None
        },
        None => None,
    }
}

/// The check comes to the status of the project where the project file is answered from `disk` and
/// the probe with `listening`.
pub proof fn check_gives_the_status(
    disk: Map<Seq<char>, Seq<char>>,
    root: Seq<char>,
    listening: bool,
)
    ensures
        ({
            let first = beginning(root);
            let second = match first {
                StatusCheckView::Manifest { path } => first.after_manifest(
                    crate::identify::on_disk(disk, path),
                ),
                _ => first,
            };
            second.after_probe(listening) == StatusCheckView::Done(
                run_status(disk, root, listening),
            )
        }),
{
}

/// A running project can be reached at the dashboard, and only a running one.
pub proof fn url_tells_whether_it_runs(
    disk: Map<Seq<char>, Seq<char>>,
    root: Seq<char>,
    listening: bool,
)
    ensures
        run_status(disk, root, listening) matches Some(status) ==> {
            &&& status.is_running == listening
            &&& status.url is Some <==> status.is_running
        },
{
}

/// Begins to check whether the project at `root` runs.
pub fn detect_run_status(root: String) -> (r: StatusCheck)
    ensures
        r@ == beginning(root@),
{
    match paths::own_csproj_path(root.as_str()) {
        Some(path) => StatusCheck::Manifest { path },
        None => StatusCheck::Done(None),
    }
}

impl StatusCheck {
    /// Takes the content of the project file, or `None` where it could not be read.
    pub fn manifest_read(self, content: Option<String>) -> (r: StatusCheck)
        ensures
            r@ == self@.after_manifest(content.deep_view()),
    {
        match self {
            StatusCheck::Manifest { path: _ } => match content {
                Some(csproj) => if csproj::is_aspire_apphost(csproj.as_str()) {
                    StatusCheck::Dashboard
                } else {
                    StatusCheck::Done(None)
                },
                None => StatusCheck::Done(None),
            },
            other => other,
        }
    }

    /// Takes whether something listens on [`DASHBOARD_PORT`] of [`DASHBOARD_HOST`].
    pub fn dashboard_probed(self, listening: bool) -> (r: StatusCheck)
        ensures
            r@ == self@.after_probe(listening),
    {
        match self {
            StatusCheck::Dashboard => {
                let resources: Vec<String> = Vec::new();
                assert(resources.deep_view() =~= Seq::empty());
                let url: Option<String> = if listening {
                    Some("http://localhost:18888".to_string())
                } else {
                    None
                };
                StatusCheck::Done(
                    Some(RunStatus { is_running: listening, url, pid: None, resources }),
                )
            },
            other => other,
        }
    }
}

/// The project file of an AppHost is looked for in its directory, under the name of the directory.
/// Where it is there and belongs to an AppHost, the project runs exactly where something listens on
/// the port of the dashboard, and can then be reached there.
pub proof fn apphost_runs_where_the_dashboard_listens(
    disk: Map<Seq<char>, Seq<char>>,
    dir: Seq<char>,
    name: Seq<char>,
    listening: bool,
)
    requires
        name.len() > 0,
        forall|k: int| 0 <= k < name.len() ==> #[trigger] name[k] != '/',
        disk.contains_key(dir + "/"@ + name + "/"@ + name + ".csproj"@),
        csproj::is_apphost(disk[dir + "/"@ + name + "/"@ + name + ".csproj"@]),
    ensures
        beginning(dir + "/"@ + name) == (StatusCheckView::Manifest {
            path: dir + "/"@ + name + "/"@ + name + ".csproj"@,
        }),
        run_status(disk, dir + "/"@ + name, listening) matches Some(status) && {
            &&& status.is_running == listening
            &&& listening ==> status.url == Some("http://localhost:18888"@)
            &&& !listening ==> status.url is None
            &&& status.pid is None
            &&& status.resources.len() == 0
        },
{
    paths::own_project_file_bears_the_name(dir, name);
}

/// A directory without its own project file, or with that of another project, has no status.
pub proof fn other_projects_have_no_status(
    disk: Map<Seq<char>, Seq<char>>,
    dir: Seq<char>,
    name: Seq<char>,
    listening: bool,
)
    requires
        name.len() > 0,
        forall|k: int| 0 <= k < name.len() ==> #[trigger] name[k] != '/',
        disk.contains_key(dir + "/"@ + name + "/"@ + name + ".csproj"@) ==> !csproj::is_apphost(
            disk[dir + "/"@ + name + "/"@ + name + ".csproj"@],
        ),
    ensures
        run_status(disk, dir + "/"@ + name, listening) is None,
{
    paths::own_project_file_bears_the_name(dir, name);
}

/// A directory that is nothing but slashes has no status, and nothing is read for it.
pub proof fn slashes_have_no_status(
    disk: Map<Seq<char>, Seq<char>>,
    slashes: Seq<char>,
    listening: bool,
)
    requires
        forall|k: int| 0 <= k < slashes.len() ==> #[trigger] slashes[k] == '/',
    ensures
        beginning(slashes) == StatusCheckView::Done(None),
        run_status(disk, slashes, listening) is None,
{
    paths::slashes_at_the_end_are_no_name(Seq::empty(), seq!['a'], slashes);
}

/// The probe alone decides between running and not running, and is asked for only of an AppHost.
pub proof fn each_answer_counts_in_its_turn(
    path: Seq<char>,
    content: Option<Seq<char>>,
    listening: bool,
)
    ensures
        (StatusCheckView::Manifest { path }).after_probe(listening) == (StatusCheckView::Manifest {
            path,
        }),
        (StatusCheckView::Manifest { path }).after_manifest(content) is Dashboard <==> (
        content matches Some(csproj) && csproj::is_apphost(csproj)),
        !((StatusCheckView::Manifest { path }).after_manifest(content) is Dashboard) ==> (
        StatusCheckView::Manifest { path }).after_manifest(content) == StatusCheckView::Done(None),
        StatusCheckView::Dashboard.after_manifest(content) == StatusCheckView::Dashboard,
        StatusCheckView::Dashboard.after_probe(listening) matches StatusCheckView::Done(
            Some(status),
        ) && status.is_running == listening,
{
}

/// Whatever way a directory is written, its own project file alone and the port of the dashboard
/// decide on its status.
pub proof fn own_project_file_and_dashboard_decide(
    disk: Map<Seq<char>, Seq<char>>,
    root: Seq<char>,
    path: Seq<char>,
    listening: bool,
)
    requires
        paths::own_csproj(root) == Some(path),
    ensures
        beginning(root) == (StatusCheckView::Manifest { path }),
        run_status(disk, root, listening) is Some <==> disk.contains_key(path)
            && csproj::is_apphost(disk[path]),
        run_status(disk, root, listening) matches Some(status) ==> {
            &&& status.is_running == listening
            &&& listening ==> status.url == Some("http://localhost:18888"@)
            &&& !listening ==> status.url is None
            &&& status.pid is None
            &&& status.resources.len() == 0
        },
{
}

} // verus!
