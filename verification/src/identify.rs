//! Identification of an AppHost project.
//!
//! The library reads no files. [`identify_project`] starts an [`Identification`], which asks for one
//! file after another with [`Identification::wanted_file`] and takes each answer in
//! [`Identification::file_read`], until it is done.

use crate::csproj;
use crate::model::{EntryPoint, EntryPointView, ProjectProfile, ProjectProfileView};
use crate::openapi;
use crate::paths;
use crate::pattern;
use crate::pattern::CaptureView;
use crate::resources;
use crate::resources::{Resource, ResourceView};
use crate::text;
use vstd::prelude::*;

verus! {

/// The source files that may register the OpenAPI documents of a project.
#[derive(Debug, Clone, Copy, PartialEq, Eq, Structural)]
pub enum SourceFile {
    /// `Program.cs`, the most common one.
    Program,
    /// `App.cs`, for a project without a readable `Program.cs`.
    App,
    /// `Startup.cs`, for a project with neither.
    Startup,
}

/// The files that tell whether a directory holds a project, and what it registers.
#[derive(Debug, Clone, Copy, PartialEq, Eq, Structural)]
pub enum ProjectFile {
    /// The project file, which a project must have.
    Manifest,
    /// A source file.
    Source(SourceFile),
}

impl SourceFile {
    /// The name of the file.
    pub open spec fn file_name(self) -> Seq<char> {
        match self {
            SourceFile::Program => "Program.cs"@,
            SourceFile::App => "App.cs"@,
            SourceFile::Startup => "Startup.cs"@,
        }
    }

    /// The name of the file.
    pub fn name(self) -> (r: &'static str)
        ensures
            r@ == self.file_name(),
    {
        match self {
            SourceFile::Program => "Program.cs",
            SourceFile::App => "App.cs",
            SourceFile::Startup => "Startup.cs",
        }
    }
}

impl ProjectFile {
    /// The path of the file for a project in `dir`.
    pub open spec fn path_in(self, dir: Seq<char>) -> Seq<char> {
        match self {
            ProjectFile::Manifest => paths::project_csproj(dir),
            ProjectFile::Source(source) => paths::project_source(dir, source.file_name()),
        }
    }

    /// The file to turn to where this one cannot be read; `None` where there is no project then.
    pub open spec fn fallback(self) -> Option<ProjectFile> {
        match self {
            ProjectFile::Source(SourceFile::Program) => Some(ProjectFile::Source(SourceFile::App)),
            ProjectFile::Source(SourceFile::App) => Some(ProjectFile::Source(SourceFile::Startup)),
            _ => None,
        }
    }

    /// The number of files of a project from this one on.
    pub open spec fn files_left(self) -> nat {
        match self {
            ProjectFile::Manifest => 4,
            ProjectFile::Source(SourceFile::Program) => 3,
            ProjectFile::Source(SourceFile::App) => 2,
            ProjectFile::Source(SourceFile::Startup) => 1,
        }
    }

    /// The path of the file for a project in `dir`.
    pub fn path(self, dir: &str) -> (r: String)
        ensures
            r@ == self.path_in(dir@),
    {
        match self {
            ProjectFile::Manifest => paths::project_csproj_path(dir),
            ProjectFile::Source(source) => paths::project_source_path(dir, source.name()),
        }
    }

    /// The file to turn to where this one cannot be read.
    pub fn otherwise(self) -> (r: Option<ProjectFile>)
        ensures
            r == self.fallback(),
    {
        match self {
            ProjectFile::Source(SourceFile::Program) => Some(ProjectFile::Source(SourceFile::App)),
            ProjectFile::Source(SourceFile::App) => Some(ProjectFile::Source(SourceFile::Startup)),
            _ => None,
        }
    }
}

/// How far the identification of a project has come.
#[derive(Debug, PartialEq, Eq)]
pub enum Identification {
    /// The project file at `path` is to be read.
    Manifest { root: String, files: Vec<String>, path: String },
    /// The project is an AppHost. Its entry point, the file `rel_path`, is to be read.
    Program { root: String, tags: Vec<String>, rel_path: String },
    /// The resource `name` is a project, which may lie in `dir`, or else in one of `others`. Of the
    /// files of a project in `dir`, `file` is to be read; those before it are settled. The entry
    /// points up to that resource are `found`; the resources in `rest` come after it.
    Project {
        root: String,
        tags: Vec<String>,
        found: Vec<EntryPoint>,
        name: String,
        dir: String,
        others: Vec<String>,
        file: ProjectFile,
        rest: Vec<Resource>,
    },
    /// Nothing more is to be read.
    Done(Option<ProjectProfile>),
}

/// The view of an [`Identification`].
#[verifier::ext_equal]
pub enum IdentificationView {
    Manifest { root: Seq<char>, files: Seq<Seq<char>>, path: Seq<char> },
    Program { root: Seq<char>, tags: Seq<Seq<char>>, rel_path: Seq<char> },
    Project {
        root: Seq<char>,
        tags: Seq<Seq<char>>,
        found: Seq<EntryPointView>,
        name: Seq<char>,
        dir: Seq<char>,
        others: Seq<Seq<char>>,
        file: ProjectFile,
        rest: Seq<ResourceView>,
    },
    Done(Option<ProjectProfileView>),
}

impl View for Identification {
    type V = IdentificationView;

    open spec fn view(&self) -> IdentificationView {
        match self {
            Identification::Manifest { root, files, path } => IdentificationView::Manifest {
                root: root@,
                files: files.deep_view(),
                path: path@,
            },
            Identification::Program { root, tags, rel_path } => IdentificationView::Program {
                root: root@,
                tags: tags.deep_view(),
                rel_path: rel_path@,
            },
            Identification::Project { root, tags, found, name, dir, others, file, rest } =>
                IdentificationView::Project {
                root: root@,
                tags: tags.deep_view(),
                found: found.deep_view(),
                name: name@,
                dir: dir@,
                others: others.deep_view(),
                file: *file,
                rest: rest.deep_view(),
            },
            Identification::Done(profile) => IdentificationView::Done(profile.deep_view()),
        }
    }
}

/// The profile of an AppHost project.
pub open spec fn apphost_profile(
    tags: Seq<Seq<char>>,
    entry_points: Seq<EntryPointView>,
) -> ProjectProfileView {
    ProjectProfileView { category: "Aspire AppHost"@, tags, entry_points }
}

/// The directories in which the project of `resource` may lie; none where it is no project.
pub open spec fn project_dirs(root: Seq<char>, resource: ResourceView) -> Seq<Seq<char>> {
    match resource.project {
        Some(project_type) => paths::named_candidates(root, project_type),
        None => Seq::empty(),
    }
}

/// The state in which the entry points `found` are complete up to the resources `rest`: at the
/// first of them whose project is to be looked for, or done.
pub open spec fn at_next_project(
    root: Seq<char>,
    tags: Seq<Seq<char>>,
    found: Seq<EntryPointView>,
    rest: Seq<ResourceView>,
) -> IdentificationView
    decreases rest.len(),
{
    if rest.len() == 0 {
        IdentificationView::Done(Some(apphost_profile(tags, found)))
    } else {
        let dirs = project_dirs(root, rest[0]);
        if dirs.len() == 0 {
            at_next_project(root, tags, found.push(rest[0].entry), rest.drop_first())
        } else {
            IdentificationView::Project {
                root,
                tags,
                found: found.push(rest[0].entry),
                name: rest[0].name,
                dir: dirs[0],
                others: dirs.drop_first(),
                file: ProjectFile::Manifest,
                rest: rest.drop_first(),
            }
        }
    }
}

/// The state in which the identification of the project at `root` with the files `files` begins.
pub open spec fn beginning(root: Seq<char>, files: Seq<Seq<char>>) -> IdentificationView {
    match paths::csproj_file(files) {
        Some(file) => IdentificationView::Manifest { root, files, path: paths::joined(root, file) },
        None => IdentificationView::Done(None),
    }
}

impl IdentificationView {
    /// The file that is to be read.
    pub open spec fn wanted(self) -> Option<Seq<char>> {
        match self {
            IdentificationView::Manifest { path, .. } => Some(path),
            IdentificationView::Program { root, rel_path, .. } => Some(
                paths::joined(root, rel_path),
            ),
            IdentificationView::Project { dir, file, .. } => Some(file.path_in(dir)),
            IdentificationView::Done(_) => None,
        }
    }

    /// The state after the wanted file was read, with its content, or `None` where it could not be
    /// read.
    pub open spec fn after(self, content: Option<Seq<char>>) -> IdentificationView {
        match self {
            IdentificationView::Manifest { root, files, .. } => match content {
                Some(csproj) if csproj::is_apphost(csproj) => match paths::program_file(files) {
                    Some(rel_path) => IdentificationView::Program {
                        root,
                        tags: csproj::tags(csproj),
                        rel_path,
                    },
                    None => IdentificationView::Done(
                        Some(apphost_profile(csproj::tags(csproj), Seq::empty())),
                    ),
                },
                _ => IdentificationView::Done(None),
            },
            IdentificationView::Program { root, tags, rel_path } => match content {
                Some(source) => at_next_project(
                    root,
                    tags,
                    Seq::empty(),
                    resources::source_resources(source, rel_path),
                ),
                None => IdentificationView::Done(Some(apphost_profile(tags, Seq::empty()))),
            },
            IdentificationView::Project { root, tags, found, name, dir, others, file, rest } =>
                match content {
                Some(text) => match file {
                    ProjectFile::Manifest => IdentificationView::Project {
                        root,
                        tags,
                        found,
                        name,
                        dir,
                        others,
                        file: ProjectFile::Source(SourceFile::Program),
                        rest,
                    },
                    ProjectFile::Source(source) => at_next_project(
                        root,
                        tags,
                        found + openapi::source_entries(text, name, source.file_name()),
                        rest,
                    ),
                },
                None => if let Some(other) = file.fallback() {
                    IdentificationView::Project {
                        root,
                        tags,
                        found,
                        name,
                        dir,
                        others,
                        file: other,
                        rest,
                    }
                } else if others.len() > 0 {
                    IdentificationView::Project {
                        root,
                        tags,
                        found,
                        name,
                        dir: others[0],
                        others: others.drop_first(),
                        file: ProjectFile::Manifest,
                        rest,
                    }
                } else {
                    at_next_project(root, tags, found, rest)
                },
            },
            IdentificationView::Done(profile) => IdentificationView::Done(profile),
        }
    }

    /// How far it is to the end: 0 where nothing more is to be read.
    pub open spec fn stage(self) -> nat {
        match self {
            IdentificationView::Manifest { .. } => 3,
            IdentificationView::Program { .. } => 2,
            IdentificationView::Project { .. } => 1,
            IdentificationView::Done(_) => 0,
        }
    }

    /// The number of resources after the one whose project is looked for.
    pub open spec fn resources_left(self) -> nat {
        match self {
            IdentificationView::Project { rest, .. } => rest.len(),
            _ => 0,
        }
    }

    /// The number of files that may still have to be read to find the project of one resource.
    pub open spec fn reads_left(self) -> nat {
        match self {
            IdentificationView::Project { others, file, .. } => 4 * others.len()
                + file.files_left(),
            _ => 0,
        }
    }
}

/// The source file of the project in `dir` that counts: the first of `Program.cs`, `App.cs` and
/// `Startup.cs` among the readable `disk`.
pub open spec fn source_file(disk: Map<Seq<char>, Seq<char>>, dir: Seq<char>) -> Option<
    Seq<char>,
> {
    if disk.contains_key(paths::project_source(dir, "Program.cs"@)) {
        Some("Program.cs"@)
    } else if disk.contains_key(paths::project_source(dir, "App.cs"@)) {
        Some("App.cs"@)
    } else if disk.contains_key(paths::project_source(dir, "Startup.cs"@)) {
        Some("Startup.cs"@)
    } else {
        None
    }
}

/// The first of `dirs` with both its project file and a source file that counts among the readable
/// `disk` gives the OpenAPI entry points of the resource `name`; where there is none, it has none.
pub open spec fn documents_in(
    disk: Map<Seq<char>, Seq<char>>,
    dirs: Seq<Seq<char>>,
    name: Seq<char>,
) -> Seq<EntryPointView>
    decreases dirs.len(),
{
    if dirs.len() == 0 {
        Seq::empty()
    } else if disk.contains_key(paths::project_csproj(dirs[0])) && source_file(
        disk,
        dirs[0],
    ) is Some {
        let file = source_file(disk, dirs[0])->0;
        openapi::source_entries(disk[paths::project_source(dirs[0], file)], name, file)
    } else {
        documents_in(disk, dirs.drop_first(), name)
    }
}

/// The entry points of `resources`: for each its own, then those of its OpenAPI documents.
pub open spec fn resource_entries(
    disk: Map<Seq<char>, Seq<char>>,
    root: Seq<char>,
    resources: Seq<ResourceView>,
) -> Seq<EntryPointView>
    decreases resources.len(),
{
    if resources.len() == 0 {
        Seq::empty()
    } else {
        seq![resources[0].entry] + documents_in(
            disk,
            project_dirs(root, resources[0]),
            resources[0].name,
        ) + resource_entries(disk, root, resources.drop_first())
    }
}

/// The resources of the project at `root` with the files `files`, where `disk` holds the content of
/// every readable file by its path.
pub open spec fn project_resources(
    disk: Map<Seq<char>, Seq<char>>,
    root: Seq<char>,
    files: Seq<Seq<char>>,
) -> Seq<ResourceView> {
    match paths::program_file(files) {
        Some(rel_path) => if disk.contains_key(paths::joined(root, rel_path)) {
            resources::source_resources(disk[paths::joined(root, rel_path)], rel_path)
        } else {
            Seq::empty()
        },
        None => Seq::empty(),
    }
}

/// The profile of the project at `root` with the files `files`; `None` where it is no AppHost.
/// `disk` holds the content of every readable file by its path.
pub open spec fn profile(
    disk: Map<Seq<char>, Seq<char>>,
    root: Seq<char>,
    files: Seq<Seq<char>>,
) -> Option<ProjectProfileView> {
    match paths::csproj_file(files) {
        Some(file) => {
            let path = paths::joined(root, file);
            if disk.contains_key(path) && csproj::is_apphost(disk[path]) {
                Some(
                    apphost_profile(
                        csproj::tags(disk[path]),
                        resource_entries(disk, root, project_resources(disk, root, files)),
                    ),
                )
            } else {
                None
            }
        },
        None => None,
    }
}

/// What is on `disk` at `path`.
pub open spec fn on_disk(disk: Map<Seq<char>, Seq<char>>, path: Seq<char>) -> Option<Seq<char>> {
    if disk.contains_key(path) {
        Some(disk[path])
    } else {
        None
    }
}

/// What the identification comes to where every wanted file is answered from `disk`.
pub open spec fn outcome(
    state: IdentificationView,
    disk: Map<Seq<char>, Seq<char>>,
) -> Option<ProjectProfileView>
    decreases state.stage(), state.resources_left(), state.reads_left(),
{
    match state {
        IdentificationView::Done(profile) => profile,
        _ => {
            proof {
                every_answer_is_progress(state, on_disk(disk, state.wanted()->0));
            }
            outcome(state.after(on_disk(disk, state.wanted()->0)), disk)
        },
    }
}

/// The next project to look for lies among the resources that are left.
proof fn next_project_is_ahead(
    root: Seq<char>,
    tags: Seq<Seq<char>>,
    found: Seq<EntryPointView>,
    rest: Seq<ResourceView>,
)
    ensures
        at_next_project(root, tags, found, rest).stage() <= 1,
        at_next_project(root, tags, found, rest).stage() == 1 ==> at_next_project(
            root,
            tags,
            found,
            rest,
        ).resources_left() < rest.len(),
    decreases rest.len(),
{
    if rest.len() > 0 && project_dirs(root, rest[0]).len() == 0 {
        next_project_is_ahead(root, tags, found.push(rest[0].entry), rest.drop_first());
    }
}

/// Whatever answer a wanted file gets, the identification comes closer to its end: it ends after
/// finitely many files.
pub proof fn every_answer_is_progress(state: IdentificationView, content: Option<Seq<char>>)
    requires
        !(state is Done),
    ensures
        ({
            let next = state.after(content);
            ||| next.stage() < state.stage()
            ||| {
                &&& next.stage() == state.stage()
                &&& next.resources_left() < state.resources_left()
            }
            ||| {
                &&& next.stage() == state.stage()
                &&& next.resources_left() == state.resources_left()
                &&& next.reads_left() < state.reads_left()
            }
        }),
{
    match state {
        IdentificationView::Program { root, tags, rel_path } => {
            if let Some(source) = content {
                next_project_is_ahead(
                    root,
                    tags,
                    Seq::empty(),
                    resources::source_resources(source, rel_path),
                );
            }
        },
        IdentificationView::Project { root, tags, found, name, file, rest, .. } => {
            next_project_is_ahead(root, tags, found, rest);
            if let Some(text) = content {
                if let ProjectFile::Source(source) = file {
                    next_project_is_ahead(
                        root,
                        tags,
                        found + openapi::source_entries(text, name, source.file_name()),
                        rest,
                    );
                }
            }
        },
        _ => {},
    }
}

/// From the next project on, the entry points of the resources that are left are added.
proof fn outcome_at_next_project(
    disk: Map<Seq<char>, Seq<char>>,
    root: Seq<char>,
    tags: Seq<Seq<char>>,
    found: Seq<EntryPointView>,
    rest: Seq<ResourceView>,
)
    ensures
        outcome(at_next_project(root, tags, found, rest), disk) == Some(
            apphost_profile(tags, found + resource_entries(disk, root, rest)),
        ),
    decreases rest.len(), 0nat,
{
    if rest.len() == 0 {
        assert(found + resource_entries(disk, root, rest) =~= found);
    } else {
        let first = rest[0];
        let dirs = project_dirs(root, first);
        let more = found.push(first.entry);
        let documents = documents_in(disk, dirs, first.name);
        let later = resource_entries(disk, root, rest.drop_first());
        assert(found + (seq![first.entry] + documents + later) =~= more + documents + later);
        if dirs.len() == 0 {
            outcome_at_next_project(disk, root, tags, more, rest.drop_first());
            assert(more + documents + later =~= more + later);
        } else {
            assert(dirs =~= seq![dirs[0]] + dirs.drop_first());
            outcome_at_project(
                disk,
                root,
                tags,
                more,
                first.name,
                dirs[0],
                dirs.drop_first(),
                rest.drop_first(),
            );
        }
    }
}

/// At a project, the entry points of its documents are added, then those of the resources that are
/// left.
proof fn outcome_at_project(
    disk: Map<Seq<char>, Seq<char>>,
    root: Seq<char>,
    tags: Seq<Seq<char>>,
    found: Seq<EntryPointView>,
    name: Seq<char>,
    dir: Seq<char>,
    others: Seq<Seq<char>>,
    rest: Seq<ResourceView>,
)
    ensures
        outcome(
            IdentificationView::Project {
                root,
                tags,
                found,
                name,
                dir,
                others,
                file: ProjectFile::Manifest,
                rest,
            },
            disk,
        ) == Some(
            apphost_profile(
                tags,
                found + documents_in(disk, seq![dir] + others, name) + resource_entries(
                    disk,
                    root,
                    rest,
                ),
            ),
        ),
    decreases rest.len(), others.len() + 1,
{
    let dirs = seq![dir] + others;
    let later = resource_entries(disk, root, rest);
    let state = IdentificationView::Project {
        root,
        tags,
        found,
        name,
        dir,
        others,
        file: ProjectFile::Manifest,
        rest,
    };
    assert(dirs.drop_first() =~= others);
    let manifest = on_disk(disk, paths::project_csproj(dir));
    let next = state.after(manifest);
    assert(outcome(state, disk) == outcome(next, disk));
    if manifest is Some {
        let program = on_disk(disk, paths::project_source(dir, "Program.cs"@));
        let second = next.after(program);
        assert(outcome(next, disk) == outcome(second, disk));
        if program is None {
            let app = on_disk(disk, paths::project_source(dir, "App.cs"@));
            let third = second.after(app);
            assert(outcome(second, disk) == outcome(third, disk));
            if app is None {
                let startup = on_disk(disk, paths::project_source(dir, "Startup.cs"@));
                assert(outcome(third, disk) == outcome(third.after(startup), disk));
            }
        }
    }
    if manifest is Some && source_file(disk, dir) is Some {
        let file = source_file(disk, dir)->0;
        let source = disk[paths::project_source(dir, file)];
        let documents = openapi::source_entries(source, name, file);
        outcome_at_next_project(disk, root, tags, found + documents, rest);
    } else if others.len() > 0 {
        assert(others =~= seq![others[0]] + others.drop_first());
        outcome_at_project(
            disk,
            root,
            tags,
            found,
            name,
            others[0],
            others.drop_first(),
            rest,
        );
    } else {
        outcome_at_next_project(disk, root, tags, found, rest);
        assert(documents_in(disk, others, name) =~= Seq::empty());
        assert(found + documents_in(disk, dirs, name) + later =~= found + later);
    }
}

/// Answered from any disk, the identification of a project comes to its profile.
pub proof fn identification_gives_the_profile(
    disk: Map<Seq<char>, Seq<char>>,
    root: Seq<char>,
    files: Seq<Seq<char>>,
)
    ensures
        outcome(beginning(root, files), disk) == profile(disk, root, files),
{
    let state = beginning(root, files);
    if let Some(file) = paths::csproj_file(files) {
        let manifest = on_disk(disk, paths::joined(root, file));
        let next = state.after(manifest);
        assert(outcome(state, disk) == outcome(next, disk));
        if manifest is Some && csproj::is_apphost(manifest->0) {
            let tags = csproj::tags(manifest->0);
            if let Some(rel_path) = paths::program_file(files) {
                let program = on_disk(disk, paths::joined(root, rel_path));
                assert(outcome(next, disk) == outcome(next.after(program), disk));
                if let Some(source) = program {
                    let all = resources::source_resources(source, rel_path);
                    outcome_at_next_project(disk, root, tags, Seq::empty(), all);
                    assert(Seq::<EntryPointView>::empty() + resource_entries(disk, root, all)
                        =~= resource_entries(disk, root, all));
                }
            }
        }
    }
}

/// The entry points that are no OpenAPI documents.
pub open spec fn own_entries(entries: Seq<EntryPointView>) -> Seq<EntryPointView> {
    entries.filter(|entry: EntryPointView| entry.method != Some("OAS"@))
}

/// OpenAPI documents are marked as such and have no line.
proof fn documents_are_not_own(
    disk: Map<Seq<char>, Seq<char>>,
    dirs: Seq<Seq<char>>,
    name: Seq<char>,
)
    ensures
        forall|k: int|
            0 <= k < documents_in(disk, dirs, name).len() ==> {
                let entry = #[trigger] documents_in(disk, dirs, name)[k];
                entry.method == Some("OAS"@) && entry.line is None
            },
    decreases dirs.len(),
{
    if dirs.len() > 0 {
        if disk.contains_key(paths::project_csproj(dirs[0])) && source_file(
            disk,
            dirs[0],
        ) is Some {
            let file = source_file(disk, dirs[0])->0;
            let source = disk[paths::project_source(dirs[0], file)];
            let entries = openapi::source_entries(source, name, file);
            assert forall|k: int| 0 <= k < entries.len() implies (#[trigger] entries[k]).method
                == Some("OAS"@) && entries[k].line is None by {
                openapi::oas_entries_are_marked(source, name, file, k);
            }
        } else {
            documents_are_not_own(disk, dirs.drop_first(), name);
        }
    }
}

/// Where all entries are OpenAPI documents, none is left.
proof fn nothing_own(entries: Seq<EntryPointView>)
    requires
        forall|k: int| 0 <= k < entries.len() ==> (#[trigger] entries[k]).method == Some("OAS"@),
    ensures
        own_entries(entries) =~= Seq::empty(),
    decreases entries.len(),
{
    reveal(Seq::filter);
    if entries.len() > 0 {
        nothing_own(entries.drop_last());
    }
}

/// Resources whose kind is not that of OpenAPI documents keep their entry points, one each, in
/// their order, whatever documents stand between them.
proof fn own_entries_of_resources(
    disk: Map<Seq<char>, Seq<char>>,
    root: Seq<char>,
    resources: Seq<ResourceView>,
)
    requires
        forall|k: int|
            0 <= k < resources.len() ==> (#[trigger] resources[k]).entry.method != Some("OAS"@),
    ensures
        own_entries(resource_entries(disk, root, resources)) == resources.map_values(
            |resource: ResourceView| resource.entry,
        ),
    decreases resources.len(),
{
    let own = |entry: EntryPointView| entry.method != Some("OAS"@);
    let plain = |resource: ResourceView| resource.entry;
    if resources.len() == 0 {
        reveal(Seq::filter);
        assert(resources.map_values(plain) =~= Seq::empty());
    } else {
        let first = resources[0];
        let documents = documents_in(disk, project_dirs(root, first), first.name);
        let later = resource_entries(disk, root, resources.drop_first());
        documents_are_not_own(disk, project_dirs(root, first), first.name);
        nothing_own(documents);
        own_entries_of_resources(disk, root, resources.drop_first());
        Seq::filter_distributes_over_add(seq![first.entry] + documents, later, own);
        Seq::filter_distributes_over_add(seq![first.entry], documents, own);
        assert(seq![first.entry].filter(own) =~= seq![first.entry]) by {
            reveal(Seq::filter);
            assert(seq![first.entry].drop_last() =~= Seq::empty());
        }
        assert(resources.map_values(plain) =~= seq![first.entry]
            + resources.drop_first().map_values(plain));
        assert(own_entries(resource_entries(disk, root, resources)) =~= seq![first.entry]
            + own_entries(later));
    }
}

/// Every declared resource has its entry point in the profile, exactly once and in the order of the
/// declarations; all other entry points are OpenAPI documents.
pub proof fn each_resource_is_listed_once(
    disk: Map<Seq<char>, Seq<char>>,
    root: Seq<char>,
    files: Seq<Seq<char>>,
)
    ensures
        profile(disk, root, files) matches Some(found) ==> own_entries(found.entry_points)
            == project_resources(disk, root, files).map_values(
            |resource: ResourceView| resource.entry,
        ),
{
    let all = project_resources(disk, root, files);
    assert forall|k: int| 0 <= k < all.len() implies (#[trigger] all[k]).entry.method != Some(
        "OAS"@,
    ) by {
        let rel_path = paths::program_file(files)->0;
        let source = disk[paths::joined(root, rel_path)];
        let captures = pattern::all_captures(pattern::ADD_RESOURCE@, source);
        resources::kinds_are_three(
            text::lowercase(pattern::text_or_empty(captures[k], 1)),
        );
    }
    own_entries_of_resources(disk, root, all);
}

/// Only projects are looked for: where no resource is a project with a type, nothing more is read
/// after the entry point of the AppHost.
pub proof fn only_projects_are_looked_for(
    root: Seq<char>,
    tags: Seq<Seq<char>>,
    found: Seq<EntryPointView>,
    rest: Seq<ResourceView>,
)
    requires
        forall|k: int| 0 <= k < rest.len() ==> (#[trigger] rest[k]).project is None,
    ensures
        at_next_project(root, tags, found, rest) == IdentificationView::Done(
            Some(
                apphost_profile(
                    tags,
                    found + rest.map_values(|resource: ResourceView| resource.entry),
                ),
            ),
        ),
    decreases rest.len(),
{
    let plain = |resource: ResourceView| resource.entry;
    if rest.len() == 0 {
        assert(found + rest.map_values(plain) =~= found);
    } else {
        let others = rest.drop_first();
        only_projects_are_looked_for(root, tags, found.push(rest[0].entry), others);
        assert(found.push(rest[0].entry) + others.map_values(plain) =~= found + rest.map_values(
            plain,
        ));
    }
}

/// A project that a source declares is looked for in three directories, each named after its type.
pub proof fn projects_are_looked_for_by_folder(root: Seq<char>, resource: ResourceView, k: int)
    requires
        resources::is_nameable(resource),
        resource.project is Some,
        0 <= k < 3,
    ensures
        project_dirs(root, resource) == paths::candidates(root, resource.project->0),
        paths::base_name(project_dirs(root, resource)[k]) == paths::folder(resource.project->0),
{
    let project_type = resource.project->0;
    assert(!project_type.contains('/'));
    paths::candidates_bear_the_folder_name(root, project_type, k);
}

/// Where the lines of all resources are raised, so are those of their entry points; nothing else
/// changes, and OpenAPI documents keep no line.
proof fn raised_resources_give_raised_entries(
    disk: Map<Seq<char>, Seq<char>>,
    root: Seq<char>,
    resources: Seq<ResourceView>,
    n: nat,
)
    ensures
        resource_entries(disk, root, resources::raised(resources, n)) == raised_entries(
            resource_entries(disk, root, resources),
            n,
        ),
    decreases resources.len(),
{
    let higher = resources::raised(resources, n);
    if resources.len() == 0 {
        assert(resource_entries(disk, root, higher) =~= raised_entries(
            resource_entries(disk, root, resources),
            n,
        ));
    } else {
        let first = resources[0];
        let documents = documents_in(disk, project_dirs(root, first), first.name);
        documents_are_not_own(disk, project_dirs(root, first), first.name);
        raised_resources_give_raised_entries(disk, root, resources.drop_first(), n);
        assert(higher.drop_first() =~= resources::raised(resources.drop_first(), n));
        assert(raised_entries(documents, n) =~= documents);
        assert(resource_entries(disk, root, higher) =~= raised_entries(
            resource_entries(disk, root, resources),
            n,
        ));
    }
}

/// `entries` with every line raised by `n`.
pub open spec fn raised_entries(entries: Seq<EntryPointView>, n: nat) -> Seq<EntryPointView> {
    entries.map_values(|entry: EntryPointView| resources::raised_entry(entry, n))
}

/// Line breaks put before the entry point of an AppHost raise the line of every entry point by their
/// number and change nothing else; OpenAPI documents keep no line. `earlier` are the matches in
/// `source`, `later` the same matches further on.
pub proof fn line_breaks_before_raise_entries(
    disk: Map<Seq<char>, Seq<char>>,
    root: Seq<char>,
    breaks: Seq<char>,
    source: Seq<char>,
    rel_path: Seq<char>,
    earlier: Seq<CaptureView>,
    later: Seq<CaptureView>,
)
    requires
        text::is_run(breaks, '\n'),
        forall|k: int|
            0 <= k < earlier.len() ==> resources::is_placed(#[trigger] earlier[k], source),
        pattern::moved(earlier, later, breaks.len()),
        resources::line_breaks(breaks + source) < u32::MAX,
    ensures
        resource_entries(
            disk,
            root,
            resources::declared_resources(later, breaks + source, rel_path),
        ) == raised_entries(
            resource_entries(
                disk,
                root,
                resources::declared_resources(earlier, source, rel_path),
            ),
            breaks.len(),
        ),
{
    resources::line_breaks_before_raise_resources(breaks, source, rel_path, earlier, later);
    raised_resources_give_raised_entries(
        disk,
        root,
        resources::declared_resources(earlier, source, rel_path),
        breaks.len(),
    );
}

/// Where the lines of all resources of an AppHost are raised, the identification comes to the same
/// profile with every line raised.
pub proof fn raised_resources_raise_the_outcome(
    disk: Map<Seq<char>, Seq<char>>,
    root: Seq<char>,
    tags: Seq<Seq<char>>,
    resources: Seq<ResourceView>,
    n: nat,
)
    ensures
        outcome(at_next_project(root, tags, Seq::empty(), resources), disk) == Some(
            apphost_profile(tags, resource_entries(disk, root, resources)),
        ),
        outcome(
            at_next_project(root, tags, Seq::empty(), resources::raised(resources, n)),
            disk,
        ) == Some(
            apphost_profile(tags, raised_entries(resource_entries(disk, root, resources), n)),
        ),
{
    let none = Seq::<EntryPointView>::empty();
    let higher = resources::raised(resources, n);
    outcome_at_next_project(disk, root, tags, none, resources);
    outcome_at_next_project(disk, root, tags, none, higher);
    raised_resources_give_raised_entries(disk, root, resources, n);
    assert(none + resource_entries(disk, root, resources) =~= resource_entries(
        disk,
        root,
        resources,
    ));
    assert(none + resource_entries(disk, root, higher) =~= resource_entries(disk, root, higher));
}

/// The profile of an AppHost project.
fn finished(tags: Vec<String>, entry_points: Vec<EntryPoint>) -> (r: Identification)
    ensures
        r@ == IdentificationView::Done(
            Some(apphost_profile(tags.deep_view(), entry_points.deep_view())),
        ),
{
    Identification::Done(
        Some(ProjectProfile { category: "Aspire AppHost".to_string(), tags, entry_points }),
    )
}

/// The directories in which the project of `resource` may lie.
fn dirs_of(root: &str, resource: &Resource) -> (r: Vec<String>)
    ensures
        r.deep_view() == project_dirs(root@, resource@),
{
    match &resource.project {
        Some(project_type) => paths::candidate_dirs(root, project_type.as_str()),
        None => {
            let none: Vec<String> = Vec::new();
            assert(none.deep_view() =~= Seq::empty());
            none
        },
    }
}

/// Adds the entry points of the resources in `rest` up to the first whose project is to be looked
/// for.
#[verifier::loop_isolation(false)]
fn go_to_next_project(
    root: String,
    tags: Vec<String>,
    found: Vec<EntryPoint>,
    rest: Vec<Resource>,
) -> (r: Identification)
    ensures
        r@ == at_next_project(root@, tags.deep_view(), found.deep_view(), rest.deep_view()),
{
    let ghost goal = at_next_project(
        root@,
        tags.deep_view(),
        found.deep_view(),
        rest.deep_view(),
    );
    let mut found: Vec<EntryPoint> = found;
    let mut rest: Vec<Resource> = rest;
    while rest.len() > 0
        invariant
            goal == at_next_project(
                root@,
                tags.deep_view(),
                found.deep_view(),
                rest.deep_view(),
            ),
        decreases rest.len(),
    {
        let ghost found_before = found.deep_view();
        let ghost rest_before = rest.deep_view();
        let resource: Resource = rest.remove(0);
        assert(rest_before[0] == resource@);
        assert(rest.deep_view() =~= rest_before.drop_first());
        let mut dirs: Vec<String> = dirs_of(root.as_str(), &resource);
        let ghost all_dirs = dirs.deep_view();
        let Resource { entry, name, project: _ } = resource;
        found.push(entry);
        assert(found.deep_view() =~= found_before.push(entry@));
        if dirs.len() > 0 {
            let dir: String = dirs.remove(0);
            assert(all_dirs[0] == dir@);
            assert(dirs.deep_view() =~= all_dirs.drop_first());
            return Identification::Project {
                root,
                tags,
                found,
                name,
                dir,
                others: dirs,
                file: ProjectFile::Manifest,
                rest,
            };
        }
        assert(all_dirs.len() == 0);
    }
    assert(rest.deep_view().len() == 0);
    finished(tags, found)
}

/// Begins to identify the project at `root`, whose files, relative to it, are `files`.
pub fn identify_project(root: String, files: Vec<String>) -> (r: Identification)
    ensures
        r@ == beginning(root@, files.deep_view()),
{
    match paths::find_csproj(&files) {
        Some(file) => {
            let path: String = paths::join_path(root.as_str(), file.as_str());
            Identification::Manifest { root, files, path }
        },
        None => Identification::Done(None),
    }
}

impl Identification {
    /// The file that is to be read, or `None` where nothing more is.
    pub fn wanted_file(&self) -> (r: Option<String>)
        ensures
            r.deep_view() == self@.wanted(),
    {
        match self {
            Identification::Manifest { path, .. } => Some(path.clone()),
            Identification::Program { root, rel_path, .. } => Some(
                paths::join_path(root.as_str(), rel_path.as_str()),
            ),
            Identification::Project { dir, file, .. } => Some(file.path(dir.as_str())),
            Identification::Done(_) => None,
        }
    }

    /// Takes the content of the wanted file, or `None` where it could not be read.
    ///
    /// The resources and the OpenAPI documents of a source are those that its calls add and register.
    /// Line breaks at the start of the entry point of an AppHost raise the lines of its resources by
    /// their number and change nothing else, as long as lines can be counted.
    pub fn file_read(self, content: Option<String>) -> (r: Identification)
        ensures
            r@ == self@.after(content.deep_view()),
            (self@, content.deep_view()) matches (
                IdentificationView::Program { root, tags, rel_path },
                Some(source),
            ) ==> resources::line_breaks(source) < u32::MAX ==> ({
                let rest = text::without_leading(source, '\n');
                r@ == at_next_project(
                    root,
                    tags,
                    Seq::empty(),
                    resources::raised(
                        resources::source_resources(rest, rel_path),
                        (source.len() - rest.len()) as nat,
                    ),
                )
            }),
            (self@, content.deep_view()) matches (
                IdentificationView::Program { root, tags, rel_path },
                Some(source),
            ) ==> resources::are_added(
                resources::source_resources(source, rel_path),
                source,
                rel_path,
            ) && resources::are_in_order(
                resources::source_resources(source, rel_path),
                source,
                rel_path,
            ),
            (self@, content.deep_view()) matches (
                IdentificationView::Project { name, file: ProjectFile::Source(file), .. },
                Some(source),
            ) ==> openapi::are_documents_of(
                openapi::source_entries(source, name, file.file_name()),
                source,
                name,
                file.file_name(),
            ),
    {
        match self {
            Identification::Manifest { root, files, path: _ } => manifest_read(
                root,
                files,
                content,
            ),
            Identification::Program { root, tags, rel_path } => match content {
                Some(source) => {
                    let rest: Vec<Resource> = resources::detect_resources(
                        source.as_str(),
                        rel_path.as_str(),
                    );
                    let none: Vec<EntryPoint> = Vec::new();
                    assert(none.deep_view() =~= Seq::empty());
                    go_to_next_project(root, tags, none, rest)
                },
                None => {
                    let none: Vec<EntryPoint> = Vec::new();
                    assert(none.deep_view() =~= Seq::empty());
                    finished(tags, none)
                },
            },
            Identification::Project { root, tags, found, name, dir, others, file, rest } =>
                match content {
                Some(text) => match file {
                    ProjectFile::Manifest => Identification::Project {
                        root,
                        tags,
                        found,
                        name,
                        dir,
                        others,
                        file: ProjectFile::Source(SourceFile::Program),
                        rest,
                    },
                    ProjectFile::Source(source) => {
                        let found: Vec<EntryPoint> = with_documents(
                            found,
                            text.as_str(),
                            name.as_str(),
                            source.name(),
                        );
                        go_to_next_project(root, tags, found, rest)
                    },
                },
                None => {
                    let mut others: Vec<String> = others;
                    let ghost before = others.deep_view();
                    if let Some(other) = file.otherwise() {
                        Identification::Project {
                            root,
                            tags,
                            found,
                            name,
                            dir,
                            others,
                            file: other,
                            rest,
                        }
                    } else if others.len() > 0 {
                        let dir: String = others.remove(0);
                        assert(before[0] == dir@);
                        assert(others.deep_view() =~= before.drop_first());
                        Identification::Project {
                            root,
                            tags,
                            found,
                            name,
                            dir,
                            others,
                            file: ProjectFile::Manifest,
                            rest,
                        }
                    } else {
                        assert(before.len() == 0);
                        go_to_next_project(root, tags, found, rest)
                    }
                },
            },
            Identification::Done(profile) => Identification::Done(profile),
        }
    }
}

/// Takes the content of the project file.
fn manifest_read(root: String, files: Vec<String>, content: Option<String>) -> (r: Identification)
    ensures
        forall|path: Seq<char>|
            r@ == (IdentificationView::Manifest {
                root: root@,
                files: files.deep_view(),
                path,
            }).after(content.deep_view()),
{
    let csproj: String = match content {
        Some(csproj) => csproj,
        None => return Identification::Done(None),
    };
    if !csproj::is_aspire_apphost(csproj.as_str()) {
        return Identification::Done(None);
    }
    let tags: Vec<String> = csproj::project_tags(csproj.as_str());
    match paths::find_program(&files) {
        Some(rel_path) => Identification::Program { root, tags, rel_path },
        None => {
            let none: Vec<EntryPoint> = Vec::new();
            assert(none.deep_view() =~= Seq::empty());
            finished(tags, none)
        },
    }
}

/// Adds the OpenAPI entry points of the resource `name`, which the source file `file` registers with
/// the content `source`, to `found`.
fn with_documents(found: Vec<EntryPoint>, source: &str, name: &str, file: &str) -> (r: Vec<
    EntryPoint,
>)
    ensures
        r.deep_view() == found.deep_view() + openapi::source_entries(source@, name@, file@),
        openapi::are_documents_of(
            openapi::source_entries(source@, name@, file@),
            source@,
            name@,
            file@,
        ),
{
    let mut r: Vec<EntryPoint> = found;
    let ghost before = r.deep_view();
    let mut documents: Vec<EntryPoint> = openapi::extract_oas_entry_points_from_source(
        source,
        name,
        file,
    );
    let ghost all = documents.deep_view();
    r.append(&mut documents);
    assert(r.deep_view() =~= before + all);
    r
}

/// A project without a file that ends with `.csproj` has no profile, and nothing is read for it.
pub proof fn no_project_file_no_profile(
    disk: Map<Seq<char>, Seq<char>>,
    root: Seq<char>,
    files: Seq<Seq<char>>,
)
    requires
        forall|j: int, a: Seq<char>|
            0 <= j < files.len() ==> #[trigger] files[j] != #[trigger] (a + ".csproj"@),
    ensures
        profile(disk, root, files) is None,
        beginning(root, files) == IdentificationView::Done(None),
{
    paths::project_file_is_the_first_csproj(files);
    if let Some(file) = paths::csproj_file(files) {
        let k = choose|k: int|
            {
                &&& 0 <= k < files.len()
                &&& #[trigger] files[k] == file
                &&& exists|a: Seq<char>| file == #[trigger] (a + ".csproj"@)
                &&& forall|j: int, a: Seq<char>|
                    0 <= j < k ==> #[trigger] files[j] != #[trigger] (a + ".csproj"@)
            };
        let a = choose|a: Seq<char>| file == #[trigger] (a + ".csproj"@);
        assert(files[k] != a + ".csproj"@);
    }
}

/// The first file that ends with `.csproj` tells whether the project is an AppHost: it has a profile
/// exactly where that file can be read and belongs to one. The profile has the category of an
/// AppHost and the tags that the file gives.
pub proof fn first_project_file_decides(
    disk: Map<Seq<char>, Seq<char>>,
    root: Seq<char>,
    files: Seq<Seq<char>>,
    k: int,
    stem: Seq<char>,
)
    requires
        root.len() == 0 || root.last() != '/',
        0 <= k < files.len(),
        files[k] == stem + ".csproj"@,
        forall|j: int, a: Seq<char>|
            0 <= j < k ==> #[trigger] files[j] != #[trigger] (a + ".csproj"@),
    ensures
        ({
            let path = root + "/"@ + stem + ".csproj"@;
            &&& profile(disk, root, files) is Some <==> disk.contains_key(path)
                && csproj::is_apphost(disk[path])
            &&& profile(disk, root + "/"@, files) is Some <==> profile(disk, root, files) is Some
            &&& profile(disk, root, files) matches Some(found) ==> {
                &&& found.category == "Aspire AppHost"@
                &&& found.tags == csproj::tags(disk[path])
                &&& found.entry_points == resource_entries(
                    disk,
                    root,
                    project_resources(disk, root, files),
                )
            }
            &&& profile(disk, root + "/"@, files) matches Some(found) ==> {
                &&& found.category == "Aspire AppHost"@
                &&& found.tags == csproj::tags(disk[path])
                &&& found.entry_points == resource_entries(
                    disk,
                    root + "/"@,
                    project_resources(disk, root, files),
                )
            }
            &&& beginning(root, files).wanted() == Some(path)
            &&& beginning(root + "/"@, files).wanted() == Some(path)
        }),
{
    first_is_found(files, k, stem);
    paths::one_slash_joins(root, files[k]);
    if let Some(program) = paths::program_file(files) {
        paths::one_slash_joins(root, program);
    }
    assert(root + "/"@ + files[k] =~= root + "/"@ + stem + ".csproj"@);
}

/// The first file that ends with `.csproj` is the one that is found.
proof fn first_is_found(files: Seq<Seq<char>>, k: int, stem: Seq<char>)
    requires
        0 <= k < files.len(),
        files[k] == stem + ".csproj"@,
        forall|j: int, a: Seq<char>|
            0 <= j < k ==> #[trigger] files[j] != #[trigger] (a + ".csproj"@),
    ensures
        paths::csproj_file(files) == Some(files[k]),
{
    paths::project_file_is_the_first_csproj(files);
    assert(files[k] == stem + ".csproj"@);
    if let Some(file) = paths::csproj_file(files) {
        let i = choose|i: int|
            {
                &&& 0 <= i < files.len()
                &&& #[trigger] files[i] == file
                &&& exists|a: Seq<char>| file == #[trigger] (a + ".csproj"@)
                &&& forall|j: int, a: Seq<char>|
                    0 <= j < i ==> #[trigger] files[j] != #[trigger] (a + ".csproj"@)
            };
        let a = choose|a: Seq<char>| file == #[trigger] (a + ".csproj"@);
        if i < k {
            assert(files[i] != a + ".csproj"@);
        }
    }
}

/// The resources of an AppHost are those of the first file that can hold its entry point, where that
/// can be read. There are none where it cannot, or where there is no such file.
pub proof fn resources_come_from_the_first_program(
    disk: Map<Seq<char>, Seq<char>>,
    root: Seq<char>,
    files: Seq<Seq<char>>,
)
    requires
        root.len() == 0 || root.last() != '/',
    ensures
        forall|k: int|
            0 <= k < files.len() && paths::is_program(#[trigger] files[k]) && (forall|j: int|
                0 <= j < k ==> !paths::is_program(#[trigger] files[j])) ==> {
                let path = root + "/"@ + files[k];
                &&& disk.contains_key(path) ==> project_resources(disk, root, files)
                    == resources::source_resources(disk[path], files[k])
                &&& !disk.contains_key(path) ==> project_resources(disk, root, files).len() == 0
            },
        (forall|j: int| 0 <= j < files.len() ==> !paths::is_program(#[trigger] files[j]))
            ==> project_resources(disk, root, files).len() == 0,
{
    paths::program_is_the_first(files);
    assert forall|k: int|
        0 <= k < files.len() && paths::is_program(#[trigger] files[k]) && (forall|j: int|
            0 <= j < k ==> !paths::is_program(#[trigger] files[j])) implies {
        let path = root + "/"@ + files[k];
        &&& disk.contains_key(path) ==> project_resources(disk, root, files)
            == resources::source_resources(disk[path], files[k])
        &&& !disk.contains_key(path) ==> project_resources(disk, root, files).len() == 0
    } by {
        paths::one_slash_joins(root, files[k]);
        let file = paths::program_file(files)->0;
        let i = choose|i: int|
            {
                &&& 0 <= i < files.len()
                &&& #[trigger] files[i] == file
                &&& paths::is_program(file)
                &&& forall|j: int| 0 <= j < i ==> !paths::is_program(#[trigger] files[j])
            };
        assert(i == k);
    }
}

/// The entry points of resources follow each other: those of the first ones, then those of the
/// others.
pub proof fn entries_follow_each_other(
    disk: Map<Seq<char>, Seq<char>>,
    root: Seq<char>,
    a: Seq<ResourceView>,
    b: Seq<ResourceView>,
)
    ensures
        resource_entries(disk, root, a + b) == resource_entries(disk, root, a) + resource_entries(
            disk,
            root,
            b,
        ),
    decreases a.len(),
{
    if a.len() == 0 {
        assert(a + b =~= b);
        assert(resource_entries(disk, root, a) + resource_entries(disk, root, b)
            =~= resource_entries(disk, root, b));
    } else {
        entries_follow_each_other(disk, root, a.drop_first(), b);
        assert((a + b).drop_first() =~= a.drop_first() + b);
        let own = seq![a[0].entry] + documents_in(disk, project_dirs(root, a[0]), a[0].name);
        let rest = resource_entries(disk, root, a.drop_first());
        assert(own + (rest + resource_entries(disk, root, b)) =~= own + rest + resource_entries(
            disk,
            root,
            b,
        ));
    }
}

/// A resource gives its own entry point and then those of its documents, which only a project has.
pub proof fn own_entry_comes_first(
    disk: Map<Seq<char>, Seq<char>>,
    root: Seq<char>,
    resource: ResourceView,
)
    ensures
        resource_entries(disk, root, seq![resource]) == seq![resource.entry] + documents_in(
            disk,
            project_dirs(root, resource),
            resource.name,
        ),
        resource.project is None ==> resource_entries(disk, root, seq![resource]) == seq![
            resource.entry,
        ],
{
    let documents = documents_in(disk, project_dirs(root, resource), resource.name);
    let none = seq![resource].drop_first();
    assert(resource_entries(disk, root, none) =~= Seq::empty());
    assert(seq![resource.entry] + documents + resource_entries(disk, root, none) =~= seq![
        resource.entry,
    ] + documents);
    if resource.project is None {
        assert(documents =~= Seq::empty());
        assert(seq![resource.entry] + documents =~= seq![resource.entry]);
    }
}

/// The documents of a project are those of the first directory that holds both its project file,
/// named after the folder, and a source file; of the source files, `Program.cs` counts before
/// `App.cs` and that before `Startup.cs`.
pub proof fn documents_come_from_the_first_complete_directory(
    disk: Map<Seq<char>, Seq<char>>,
    above: Seq<Seq<char>>,
    folder: Seq<char>,
    name: Seq<char>,
    k: int,
    file: Seq<char>,
)
    requires
        folder.len() > 0,
        forall|i: int| 0 <= i < folder.len() ==> #[trigger] folder[i] != '/',
        0 <= k < above.len(),
        disk.contains_key(above[k] + "/"@ + folder + "/"@ + folder + ".csproj"@),
        disk.contains_key(above[k] + "/"@ + folder + "/"@ + file),
        ({
            ||| file == "Program.cs"@
            ||| {
                &&& file == "App.cs"@
                &&& !disk.contains_key(above[k] + "/"@ + folder + "/"@ + "Program.cs"@)
            }
            ||| {
                &&& file == "Startup.cs"@
                &&& !disk.contains_key(above[k] + "/"@ + folder + "/"@ + "Program.cs"@)
                &&& !disk.contains_key(above[k] + "/"@ + folder + "/"@ + "App.cs"@)
            }
        }),
        forall|j: int|
            0 <= j < k ==> {
                let dir = #[trigger] above[j] + "/"@ + folder;
                ||| !disk.contains_key(dir + "/"@ + folder + ".csproj"@)
                ||| {
                    &&& !disk.contains_key(dir + "/"@ + "Program.cs"@)
                    &&& !disk.contains_key(dir + "/"@ + "App.cs"@)
                    &&& !disk.contains_key(dir + "/"@ + "Startup.cs"@)
                }
            },
    ensures
        documents_in(
            disk,
            above.map_values(|dir: Seq<char>| dir + "/"@ + folder),
            name,
        ) == openapi::source_entries(
            disk[above[k] + "/"@ + folder + "/"@ + file],
            name,
            file,
        ),
    decreases above.len(),
{
    let dirs = above.map_values(|dir: Seq<char>| dir + "/"@ + folder);
    paths::own_project_file_bears_the_name(above[0], folder);
    assert(dirs[0] == above[0] + "/"@ + folder);
    if k == 0 {
        reveal_strlit("Program.cs");
        reveal_strlit("App.cs");
        reveal_strlit("Startup.cs");
        assert("Program.cs"@.len() == 10 && "App.cs"@.len() == 6 && "Startup.cs"@.len() == 10);
        assert("Program.cs"@[0] == 'P' && "Startup.cs"@[0] == 'S');
    } else {
        let rest = above.drop_first();
        assert forall|j: int| 0 <= j < k - 1 implies {
            let dir = #[trigger] rest[j] + "/"@ + folder;
            ||| !disk.contains_key(dir + "/"@ + folder + ".csproj"@)
            ||| {
                &&& !disk.contains_key(dir + "/"@ + "Program.cs"@)
                &&& !disk.contains_key(dir + "/"@ + "App.cs"@)
                &&& !disk.contains_key(dir + "/"@ + "Startup.cs"@)
            }
        } by {
            assert(rest[j] == above[j + 1]);
        }
        documents_come_from_the_first_complete_directory(disk, rest, folder, name, k - 1, file);
        assert(dirs.drop_first() =~= rest.map_values(|dir: Seq<char>| dir + "/"@ + folder));
    }
}

/// Where no directory holds both the project file and a source file, a project has no documents.
pub proof fn no_complete_directory_no_documents(
    disk: Map<Seq<char>, Seq<char>>,
    above: Seq<Seq<char>>,
    folder: Seq<char>,
    name: Seq<char>,
)
    requires
        folder.len() > 0,
        forall|i: int| 0 <= i < folder.len() ==> #[trigger] folder[i] != '/',
        forall|j: int|
            0 <= j < above.len() ==> {
                let dir = #[trigger] above[j] + "/"@ + folder;
                ||| !disk.contains_key(dir + "/"@ + folder + ".csproj"@)
                ||| {
                    &&& !disk.contains_key(dir + "/"@ + "Program.cs"@)
                    &&& !disk.contains_key(dir + "/"@ + "App.cs"@)
                    &&& !disk.contains_key(dir + "/"@ + "Startup.cs"@)
                }
            },
    ensures
        documents_in(
            disk,
            above.map_values(|dir: Seq<char>| dir + "/"@ + folder),
            name,
        ).len() == 0,
    decreases above.len(),
{
    if above.len() > 0 {
        let dirs = above.map_values(|dir: Seq<char>| dir + "/"@ + folder);
        let rest = above.drop_first();
        paths::own_project_file_bears_the_name(above[0], folder);
        assert(dirs[0] == above[0] + "/"@ + folder);
        assert forall|j: int| 0 <= j < rest.len() implies {
            let dir = #[trigger] rest[j] + "/"@ + folder;
            ||| !disk.contains_key(dir + "/"@ + folder + ".csproj"@)
            ||| {
                &&& !disk.contains_key(dir + "/"@ + "Program.cs"@)
                &&& !disk.contains_key(dir + "/"@ + "App.cs"@)
                &&& !disk.contains_key(dir + "/"@ + "Startup.cs"@)
            }
        } by {
            assert(rest[j] == above[j + 1]);
        }
        no_complete_directory_no_documents(disk, rest, folder, name);
        assert(dirs.drop_first() =~= rest.map_values(|dir: Seq<char>| dir + "/"@ + folder));
    }
}

/// A project that lies beside its AppHost, in the folder that has dots for the underscores of its
/// type, is found there, with the documents that its `Program.cs` registers.
pub proof fn project_beside_the_apphost_is_found(
    disk: Map<Seq<char>, Seq<char>>,
    further: Seq<char>,
    above: Seq<char>,
    host: Seq<char>,
    resource: ResourceView,
    folder: Seq<char>,
)
    requires
        forall|k: int| 0 <= k < above.len() ==> #[trigger] above[k] != '/',
        host.len() > 0,
        forall|k: int| 0 <= k < host.len() ==> #[trigger] host[k] != '/',
        resource.project matches Some(project_type) && {
            &&& project_type.len() > 0
            &&& forall|k: int| 0 <= k < project_type.len() ==> #[trigger] project_type[k] != '/'
            &&& folder.len() == project_type.len()
            &&& forall|k: int|
                0 <= k < folder.len() ==> #[trigger] folder[k] == (if project_type[k] == '_' {
                    '.'
                } else {
                    project_type[k]
                })
        },
        disk.contains_key(
            further + "/"@ + above + "/"@ + folder + "/"@ + folder + ".csproj"@,
        ),
        disk.contains_key(further + "/"@ + above + "/"@ + folder + "/"@ + "Program.cs"@),
    ensures
        documents_in(
            disk,
            project_dirs(further + "/"@ + above + "/"@ + host, resource),
            resource.name,
        ) == openapi::source_entries(
            disk[further + "/"@ + above + "/"@ + folder + "/"@ + "Program.cs"@],
            resource.name,
            "Program.cs"@,
        ),
{
    let none = Seq::<char>::empty();
    let root = further + "/"@ + above + "/"@ + host;
    let project_type = resource.project->0;
    assert(root + none =~= root);
    paths::projects_lie_near_the_apphost(further, above, host, none, project_type, folder);
    let dir = further + "/"@ + above + "/"@ + folder;
    assert forall|i: int| 0 <= i < folder.len() implies #[trigger] folder[i] != '/' by {
        assert(project_type[i] != '/');
    }
    paths::own_project_file_bears_the_name(further + "/"@ + above, folder);
    assert(project_dirs(root, resource)[0] == dir);
}

} // verus!
