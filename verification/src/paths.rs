//! Where the files of a project lie, and which of them matter.

use crate::text;
use vstd::prelude::*;

verus! {

/// `file` in the directory `root`.
pub open spec fn joined(root: Seq<char>, file: Seq<char>) -> Seq<char> {
    if text::is_suffix("/"@, root) {
        root + file
    } else {
        root + "/"@ + file
    }
}

/// The last component of `path`, whatever number of slashes ends it.
pub open spec fn base_name(path: Seq<char>) -> Seq<char> {
    text::after_last(text::without_trailing(path, '/'), '/')
}

/// The first of `files` that is `wanted`.
pub open spec fn first_file(
    files: Seq<Seq<char>>,
    wanted: spec_fn(Seq<char>) -> bool,
) -> Option<Seq<char>>
    decreases files.len(),
{
    if files.len() == 0 {
        None
    } else if wanted(files[0]) {
        Some(files[0])
    } else {
        first_file(files.drop_first(), wanted)
    }
}

/// `file` is a C# project file.
pub open spec fn is_csproj(file: Seq<char>) -> bool {
    text::is_suffix(".csproj"@, file)
}

/// `file` holds the entry point of an AppHost: `Program.cs` or `AppHost.cs`, in whatever case and
/// directory.
pub open spec fn is_program(file: Seq<char>) -> bool {
    let name = text::lowercase(text::after_last(file, '/'));
    name == "program.cs"@ || name == "apphost.cs"@
}

/// The first project file of `files`.
pub open spec fn csproj_file(files: Seq<Seq<char>>) -> Option<Seq<char>> {
    first_file(files, |file: Seq<char>| is_csproj(file))
}

/// The first of `files` that holds the entry point of an AppHost.
pub open spec fn program_file(files: Seq<Seq<char>>) -> Option<Seq<char>> {
    first_file(files, |file: Seq<char>| is_program(file))
}

/// The project file that bears the name of the directory `root`, in that directory; `None` where
/// `root` has no name.
pub open spec fn own_csproj(root: Seq<char>) -> Option<Seq<char>> {
    if base_name(root).len() == 0 {
        None
    } else {
        Some(joined(root, base_name(root) + ".csproj"@))
    }
}

/// The directory name of the project that the type `project_type` stands for: the type has
/// underscores where the directory has dots.
pub open spec fn folder(project_type: Seq<char>) -> Seq<char> {
    text::char_replaced(project_type, '_', '.')
}

/// The directory above `root`; `root` itself where it has no slash before its last component.
pub open spec fn parent(root: Seq<char>) -> Seq<char> {
    match text::before_last(text::without_trailing(root, '/'), '/') {
        Some(above) => above,
        None => root,
    }
}

/// The directory two above `root`, as far as there is one.
pub open spec fn grandparent(root: Seq<char>) -> Seq<char> {
    match text::before_last(parent(root), '/') {
        Some(above) => above,
        None => parent(root),
    }
}

/// The directories in which the project `project_type` may lie, seen from the AppHost at `root`:
/// beside the AppHost, then under `src` one level up, then one level up.
pub open spec fn candidates(root: Seq<char>, project_type: Seq<char>) -> Seq<Seq<char>> {
    seq![
        parent(root) + "/"@ + folder(project_type),
        grandparent(root) + "/src/"@ + folder(project_type),
        grandparent(root) + "/"@ + folder(project_type),
    ]
}

/// The candidates that have a name, so that a project file can bear it.
pub open spec fn named_candidates(root: Seq<char>, project_type: Seq<char>) -> Seq<Seq<char>> {
    candidates(root, project_type).filter(|dir: Seq<char>| base_name(dir).len() > 0)
}

/// The project file that a directory must hold to be a project.
pub open spec fn project_csproj(dir: Seq<char>) -> Seq<char> {
    dir + "/"@ + base_name(dir) + ".csproj"@
}

/// The source `file` of the project in `dir`.
pub open spec fn project_source(dir: Seq<char>, file: Seq<char>) -> Seq<char> {
    dir + "/"@ + file
}

/// `file` in the directory `root`.
pub fn join_path(root: &str, file: &str) -> (r: String)
    ensures
        r@ == joined(root@, file@),
{
    let mut path: String = root.to_string();
    if !text::ends_with(root, "/") {
        path.append("/");
    }
    path.append(file);
    path
}

/// The last component of `path`.
pub fn name_of(path: &str) -> (r: &str)
    ensures
        r@ == base_name(path@),
{
    text::part_after_last(text::trim_end(path, '/'), '/')
}

/// The first project file of `files`.
pub fn find_csproj(files: &Vec<String>) -> (r: Option<String>)
    ensures
        r.deep_view() == csproj_file(files.deep_view()),
{
    let ghost all = files.deep_view();
    let ghost wanted = |file: Seq<char>| is_csproj(file);
    let mut i: usize = 0;
    assert(all.skip(0) =~= all);
    while i < files.len()
        invariant
            i <= files.len(),
            all == files.deep_view(),
            wanted == (|file: Seq<char>| is_csproj(file)),
            csproj_file(all) == first_file(all.skip(i as int), wanted),
        decreases files.len() - i,
    {
        assert(all[i as int] == files[i as int]@);
        if text::ends_with(files[i].as_str(), ".csproj") {
            return Some(files[i].clone());
        }
        assert(all.skip(i as int).drop_first() =~= all.skip(i + 1));
        i += 1;
    }
    None
}

/// Whether `file` holds the entry point of an AppHost.
pub fn is_program_file(file: &str) -> (r: bool)
    ensures
        r == is_program(file@),
{
    let name: String = text::to_lowercase(text::part_after_last(file, '/'));
    text::same_text(name.as_str(), "program.cs") || text::same_text(name.as_str(), "apphost.cs")
}

/// The first of `files` that holds the entry point of an AppHost.
pub fn find_program(files: &Vec<String>) -> (r: Option<String>)
    ensures
        r.deep_view() == program_file(files.deep_view()),
{
    let ghost all = files.deep_view();
    let ghost wanted = |file: Seq<char>| is_program(file);
    let mut i: usize = 0;
    assert(all.skip(0) =~= all);
    while i < files.len()
        invariant
            i <= files.len(),
            all == files.deep_view(),
            wanted == (|file: Seq<char>| is_program(file)),
            program_file(all) == first_file(all.skip(i as int), wanted),
        decreases files.len() - i,
    {
        assert(all[i as int] == files[i as int]@);
        if is_program_file(files[i].as_str()) {
            return Some(files[i].clone());
        }
        assert(all.skip(i as int).drop_first() =~= all.skip(i + 1));
        i += 1;
    }
    None
}

/// The project file that bears the name of the directory `root`.
pub fn own_csproj_path(root: &str) -> (r: Option<String>)
    ensures
        r.deep_view() == own_csproj(root@),
{
    let name: &str = name_of(root);
    if name.is_empty() {
        None
    } else {
        let mut file: String = name.to_string();
        file.append(".csproj");
        Some(join_path(root, file.as_str()))
    }
}

/// `dir` and `name`, with `between` between them.
fn below(dir: &str, between: &str, name: &str) -> (r: String)
    ensures
        r@ == dir@ + between@ + name@,
{
    let mut path: String = dir.to_string();
    path.append(between);
    path.append(name);
    path
}

/// The named directories in which the project `project_type` may lie, seen from the AppHost at
/// `root`, in the order in which to look.
pub fn candidate_dirs(root: &str, project_type: &str) -> (r: Vec<String>)
    ensures
        r.deep_view() == named_candidates(root@, project_type@),
{
    let name: String = text::replace_char(project_type, '_', '.');
    let above: &str = match text::part_before_last(text::trim_end(root, '/'), '/') {
        Some(dir) => dir,
        None => root,
    };
    let further: &str = match text::part_before_last(above, '/') {
        Some(dir) => dir,
        None => above,
    };
    let dirs: Vec<String> = vec![
        below(above, "/", name.as_str()),
        below(further, "/src/", name.as_str()),
        below(further, "/", name.as_str()),
    ];
    let ghost all = candidates(root@, project_type@);
    assert(dirs.deep_view() =~= all);
    let ghost named = |dir: Seq<char>| base_name(dir).len() > 0;
    let mut r: Vec<String> = Vec::new();
    let mut i: usize = 0;
    assert(all.take(0).filter(named) =~= Seq::empty()) by {
        reveal(Seq::filter);
    }
    while i < dirs.len()
        invariant
            i <= dirs.len(),
            dirs.deep_view() == all,
            named == (|dir: Seq<char>| base_name(dir).len() > 0),
            r.deep_view() == all.take(i as int).filter(named),
        decreases dirs.len() - i,
    {
        let ghost before = r.deep_view();
        assert(all[i as int] == dirs[i as int]@);
        assert(all.take(i + 1).drop_last() =~= all.take(i as int));
        assert(all.take(i + 1).last() == dirs[i as int]@);
        proof {
            reveal(Seq::filter);
        }
        if !name_of(dirs[i].as_str()).is_empty() {
            r.push(dirs[i].clone());
            assert(r.deep_view() =~= before.push(dirs[i as int]@));
        }
        i += 1;
    }
    assert(all.take(i as int) =~= all);
    r
}

/// The project file that `dir` must hold to be a project.
pub fn project_csproj_path(dir: &str) -> (r: String)
    ensures
        r@ == project_csproj(dir@),
{
    let mut path: String = below(dir, "/", name_of(dir));
    path.append(".csproj");
    path
}

/// The source `file` of the project in `dir`.
pub fn project_source_path(dir: &str, file: &str) -> (r: String)
    ensures
        r@ == project_source(dir@, file@),
{
    below(dir, "/", file)
}

/// A name without slashes is the last component of every path that ends with a slash and it.
proof fn base_name_of_path(dir: Seq<char>, name: Seq<char>)
    requires
        name.len() > 0,
        !name.contains('/'),
    ensures
        base_name(dir.push('/') + name) == name,
{
    let path = dir.push('/') + name;
    assert(path.last() == name.last());
    assert(name.contains(name.last()));
    assert(text::without_trailing(path, '/') == path);
    after_last_of_path(dir, name);
}

/// What follows the last slash of a path that ends with a slash and a name without slashes is the
/// name.
proof fn after_last_of_path(dir: Seq<char>, name: Seq<char>)
    requires
        !name.contains('/'),
    ensures
        text::after_last(dir.push('/') + name, '/') == name,
    decreases name.len(),
{
    let path = dir.push('/') + name;
    if name.len() == 0 {
        assert(path =~= dir.push('/'));
        assert(name =~= Seq::empty());
    } else {
        let shorter = name.drop_last();
        assert(name.contains(name.last()));
        assert(!shorter.contains('/')) by {
            if shorter.contains('/') {
                let i = choose|i: int| 0 <= i < shorter.len() && shorter[i] == '/';
                assert(name[i] == '/');
            }
        }
        after_last_of_path(dir, shorter);
        assert(path.drop_last() =~= dir.push('/') + shorter);
        assert(shorter.push(name.last()) =~= name);
    }
}

/// A project type without slashes gives three candidates, and each of them bears the name of its
/// folder: all of them are looked at, each for the project file of that name.
pub proof fn candidates_bear_the_folder_name(root: Seq<char>, project_type: Seq<char>, k: int)
    requires
        project_type.len() > 0,
        !project_type.contains('/'),
        0 <= k < 3,
    ensures
        named_candidates(root, project_type) == candidates(root, project_type),
        base_name(candidates(root, project_type)[k]) == folder(project_type),
        project_csproj(candidates(root, project_type)[k]) == candidates(root, project_type)[k]
            + "/"@ + folder(project_type) + ".csproj"@,
{
    let name = folder(project_type);
    let all = candidates(root, project_type);
    reveal_strlit("/");
    reveal_strlit("/src/");
    assert(!name.contains('/')) by {
        if name.contains('/') {
            let i = choose|i: int| 0 <= i < name.len() && name[i] == '/';
            assert(project_type[i] == '/');
        }
    }
    assert(all[0] =~= parent(root).push('/') + name);
    base_name_of_path(parent(root), name);
    let src = grandparent(root) + seq!['/', 's', 'r', 'c'];
    assert(all[1] =~= src.push('/') + name);
    base_name_of_path(src, name);
    assert(all[2] =~= grandparent(root).push('/') + name);
    base_name_of_path(grandparent(root), name);
    let named = |dir: Seq<char>| base_name(dir).len() > 0;
    reveal(Seq::filter);
    assert(all.take(0).filter(named) =~= all.take(0));
    assert(all.take(1).drop_last() =~= all.take(0));
    assert(all.take(1).filter(named) =~= all.take(1));
    assert(all.take(2).drop_last() =~= all.take(1));
    assert(all.take(2).filter(named) =~= all.take(2));
    assert(all.drop_last() =~= all.take(2));
    assert(all.filter(named) =~= all);
}

/// The first wanted file is wanted, is one of the files, and none before it is wanted; there is none
/// only where no file is wanted.
pub proof fn first_file_is_the_first(
    files: Seq<Seq<char>>,
    wanted: spec_fn(Seq<char>) -> bool,
)
    ensures
        match first_file(files, wanted) {
            Some(file) => exists|k: int|
                {
                    &&& 0 <= k < files.len()
                    &&& #[trigger] files[k] == file
                    &&& wanted(file)
                    &&& forall|j: int| 0 <= j < k ==> !wanted(#[trigger] files[j])
                },
            None => forall|j: int| 0 <= j < files.len() ==> !wanted(#[trigger] files[j]),
        },
    decreases files.len(),
{
    if files.len() > 0 {
        let rest = files.drop_first();
        if wanted(files[0]) {
            assert(files[0] == first_file(files, wanted)->0);
        } else {
            first_file_is_the_first(rest, wanted);
            if first_file(rest, wanted) is Some {
                let file = first_file(rest, wanted)->0;
                let k = choose|k: int|
                    {
                        &&& 0 <= k < rest.len()
                        &&& #[trigger] rest[k] == file
                        &&& wanted(file)
                        &&& forall|j: int| 0 <= j < k ==> !wanted(#[trigger] rest[j])
                    };
                assert(files[k + 1] == file);
                assert forall|j: int| 0 <= j < k + 1 implies !wanted(#[trigger] files[j]) by {
                    if j > 0 {
                        assert(files[j] == rest[j - 1]);
                    }
                }
            } else {
                assert forall|j: int| 0 <= j < files.len() implies !wanted(#[trigger] files[j]) by {
                    if j > 0 {
                        assert(files[j] == rest[j - 1]);
                    }
                }
            }
        }
    }
}

/// Whether a directory is written with a slash at its end does not matter.
pub proof fn trailing_slash_does_not_matter(root: Seq<char>, file: Seq<char>)
    requires
        !text::is_suffix("/"@, root),
    ensures
        joined(root + "/"@, file) == joined(root, file),
        base_name(root + "/"@) == base_name(root),
        own_csproj(root + "/"@) == own_csproj(root),
{
    reveal_strlit("/");
    let longer = root + "/"@;
    assert(longer.subrange(longer.len() - 1, longer.len() as int) =~= "/"@);
    assert(text::is_suffix("/"@, longer));
    assert(longer.last() == '/');
    assert(longer.drop_last() =~= root);
    assert(joined(longer, file) =~= joined(root, file));
    assert(joined(longer, base_name(root) + ".csproj"@) =~= joined(
        root,
        base_name(root) + ".csproj"@,
    ));
}

/// Exactly one slash stands between a directory and a file in it, whether the directory is written
/// with one at its end or not.
pub proof fn one_slash_joins(dir: Seq<char>, file: Seq<char>)
    requires
        dir.len() == 0 || dir.last() != '/',
    ensures
        joined(dir, file) == dir + "/"@ + file,
        joined(dir + "/"@, file) == dir + "/"@ + file,
{
    reveal_strlit("/");
    let longer = dir + "/"@;
    assert(longer.subrange(longer.len() - 1, longer.len() as int) =~= "/"@);
    if text::is_suffix("/"@, dir) {
        assert(dir.subrange(dir.len() - 1, dir.len() as int)[0] == dir.last());
    }
}

/// A name without slashes is the last component of a path that ends with it, whatever number of
/// slashes follows it.
proof fn name_ends_the_path(dir: Seq<char>, name: Seq<char>, slashes: Seq<char>)
    requires
        name.len() > 0,
        forall|k: int| 0 <= k < name.len() ==> #[trigger] name[k] != '/',
        forall|k: int| 0 <= k < slashes.len() ==> #[trigger] slashes[k] == '/',
    ensures
        text::without_trailing(dir + "/"@ + name + slashes, '/') == dir.push('/') + name,
        base_name(dir + "/"@ + name + slashes) == name,
        text::before_last(dir.push('/') + name, '/') == Some(dir),
{
    reveal_strlit("/");
    assert(dir + "/"@ =~= dir.push('/'));
    assert((dir.push('/') + name).last() == name.last());
    text::trailing_run_is_cut_off(dir.push('/') + name, slashes, '/');
    text::last_separator_cuts(dir, name, '/');
}

/// The project file of a directory bears its name, with all its dots, and lies in it.
pub proof fn own_project_file_bears_the_name(dir: Seq<char>, name: Seq<char>)
    requires
        name.len() > 0,
        forall|k: int| 0 <= k < name.len() ==> #[trigger] name[k] != '/',
    ensures
        own_csproj(dir + "/"@ + name) == Some(dir + "/"@ + name + "/"@ + name + ".csproj"@),
        own_csproj(name) == Some(name + "/"@ + name + ".csproj"@),
        project_csproj(dir + "/"@ + name) == dir + "/"@ + name + "/"@ + name + ".csproj"@,
{
    let path = dir + "/"@ + name;
    let none = Seq::<char>::empty();
    name_ends_the_path(dir, name, none);
    assert(path + none =~= path);
    assert(path.last() == name.last());
    one_slash_joins(path, name + ".csproj"@);
    assert(path + "/"@ + (name + ".csproj"@) =~= path + "/"@ + name + ".csproj"@);
    assert(name + none =~= name);
    text::trailing_run_is_cut_off(name, none, '/');
    text::nothing_to_cut(name, '/');
    one_slash_joins(name, name + ".csproj"@);
    assert(name + "/"@ + (name + ".csproj"@) =~= name + "/"@ + name + ".csproj"@);
}

/// Slashes at the end of a directory do not count for its name, and no further one is put before its
/// project file. A directory of nothing but slashes has no name and no project file of its own.
pub proof fn slashes_at_the_end_are_no_name(dir: Seq<char>, name: Seq<char>, slashes: Seq<char>)
    requires
        name.len() > 0,
        forall|k: int| 0 <= k < name.len() ==> #[trigger] name[k] != '/',
        forall|k: int| 0 <= k < slashes.len() ==> #[trigger] slashes[k] == '/',
    ensures
        slashes.len() > 0 ==> own_csproj(dir + "/"@ + name + slashes) == Some(
            dir + "/"@ + name + slashes + name + ".csproj"@,
        ),
        own_csproj(slashes) is None,
{
    let path = dir + "/"@ + name + slashes;
    let none = Seq::<char>::empty();
    reveal_strlit("/");
    name_ends_the_path(dir, name, slashes);
    if slashes.len() > 0 {
        assert(path.subrange(path.len() - 1, path.len() as int) =~= "/"@);
        assert(path + (name + ".csproj"@) =~= path + name + ".csproj"@);
    }
    assert(none + slashes =~= slashes);
    text::trailing_run_is_cut_off(none, slashes, '/');
    text::nothing_to_cut(none, '/');
}

/// The folder of a project has a dot wherever its type has an underscore, and the character of the
/// type everywhere else: no underscore is left.
pub proof fn folder_has_dots_for_underscores(project_type: Seq<char>)
    ensures
        folder(project_type).len() == project_type.len(),
        forall|k: int|
            0 <= k < project_type.len() ==> #[trigger] folder(project_type)[k] == (
            if project_type[k] == '_' {
                '.'
            } else {
                project_type[k]
            }),
        forall|k: int| 0 <= k < project_type.len() ==> #[trigger] folder(project_type)[k] != '_',
{
}

/// A folder is what has dots for the underscores of the type.
proof fn folder_is(project_type: Seq<char>, name: Seq<char>)
    requires
        project_type.len() > 0,
        forall|k: int| 0 <= k < project_type.len() ==> #[trigger] project_type[k] != '/',
        name.len() == project_type.len(),
        forall|k: int|
            0 <= k < name.len() ==> #[trigger] name[k] == (if project_type[k] == '_' {
                '.'
            } else {
                project_type[k]
            }),
    ensures
        folder(project_type) == name,
        !project_type.contains('/'),
{
    folder_has_dots_for_underscores(project_type);
    assert(folder(project_type) =~= name);
}

/// Seen from an AppHost two directories deep, its projects are looked for beside it, then under
/// `src` beside the directory above it, then beside that directory.
pub proof fn projects_lie_near_the_apphost(
    further: Seq<char>,
    above: Seq<char>,
    host: Seq<char>,
    slashes: Seq<char>,
    project_type: Seq<char>,
    name: Seq<char>,
)
    requires
        forall|k: int| 0 <= k < above.len() ==> #[trigger] above[k] != '/',
        host.len() > 0,
        forall|k: int| 0 <= k < host.len() ==> #[trigger] host[k] != '/',
        forall|k: int| 0 <= k < slashes.len() ==> #[trigger] slashes[k] == '/',
        project_type.len() > 0,
        forall|k: int| 0 <= k < project_type.len() ==> #[trigger] project_type[k] != '/',
        name.len() == project_type.len(),
        forall|k: int|
            0 <= k < name.len() ==> #[trigger] name[k] == (if project_type[k] == '_' {
                '.'
            } else {
                project_type[k]
            }),
    ensures
        named_candidates(further + "/"@ + above + "/"@ + host + slashes, project_type) == seq![
            further + "/"@ + above + "/"@ + name,
            further + "/src/"@ + name,
            further + "/"@ + name,
        ],
{
    let root = further + "/"@ + above + "/"@ + host + slashes;
    folder_is(project_type, name);
    name_ends_the_path(further + "/"@ + above, host, slashes);
    reveal_strlit("/");
    assert(further + "/"@ =~= further.push('/'));
    text::last_separator_cuts(further, above, '/');
    candidates_bear_the_folder_name(root, project_type, 0);
}

/// Seen from an AppHost with a single directory above it, or none, its projects are looked for under
/// that directory, or under the AppHost itself.
pub proof fn projects_lie_near_a_shallow_apphost(
    above: Seq<char>,
    host: Seq<char>,
    slashes: Seq<char>,
    project_type: Seq<char>,
    name: Seq<char>,
)
    requires
        forall|k: int| 0 <= k < above.len() ==> #[trigger] above[k] != '/',
        host.len() > 0,
        forall|k: int| 0 <= k < host.len() ==> #[trigger] host[k] != '/',
        forall|k: int| 0 <= k < slashes.len() ==> #[trigger] slashes[k] == '/',
        project_type.len() > 0,
        forall|k: int| 0 <= k < project_type.len() ==> #[trigger] project_type[k] != '/',
        name.len() == project_type.len(),
        forall|k: int|
            0 <= k < name.len() ==> #[trigger] name[k] == (if project_type[k] == '_' {
                '.'
            } else {
                project_type[k]
            }),
    ensures
        named_candidates(above + "/"@ + host + slashes, project_type) == seq![
            above + "/"@ + name,
            above + "/src/"@ + name,
            above + "/"@ + name,
        ],
        named_candidates(host, project_type) == seq![
            host + "/"@ + name,
            host + "/src/"@ + name,
            host + "/"@ + name,
        ],
{
    let none = Seq::<char>::empty();
    folder_is(project_type, name);
    name_ends_the_path(above, host, slashes);
    text::nothing_to_cut(above, '/');
    candidates_bear_the_folder_name(above + "/"@ + host + slashes, project_type, 0);
    assert(host + none =~= host);
    text::trailing_run_is_cut_off(host, none, '/');
    text::nothing_to_cut(host, '/');
    candidates_bear_the_folder_name(host, project_type, 0);
}

/// The project file is the first file that ends with `.csproj`.
pub proof fn project_file_is_the_first_csproj(files: Seq<Seq<char>>)
    ensures
        match csproj_file(files) {
            Some(file) => exists|k: int|
                {
                    &&& 0 <= k < files.len()
                    &&& #[trigger] files[k] == file
                    &&& exists|a: Seq<char>| file == #[trigger] (a + ".csproj"@)
                    &&& forall|j: int, a: Seq<char>|
                        0 <= j < k ==> #[trigger] files[j] != #[trigger] (a + ".csproj"@)
                },
            None => forall|j: int, a: Seq<char>|
                0 <= j < files.len() ==> #[trigger] files[j] != #[trigger] (a + ".csproj"@),
        },
{
    let wanted = |file: Seq<char>| is_csproj(file);
    first_file_is_the_first(files, wanted);
    assert forall|file: Seq<char>| #[trigger] wanted(file) <==> exists|a: Seq<char>|
        file == #[trigger] (a + ".csproj"@) by {
        text::suffix_ends_the_text(".csproj"@, file);
    }
    if let Some(file) = csproj_file(files) {
        let k = choose|k: int|
            {
                &&& 0 <= k < files.len()
                &&& #[trigger] files[k] == file
                &&& wanted(file)
                &&& forall|j: int| 0 <= j < k ==> !wanted(#[trigger] files[j])
            };
        assert forall|j: int, a: Seq<char>| 0 <= j < k implies #[trigger] files[j]
            != #[trigger] (a + ".csproj"@) by {
            assert(!wanted(files[j]));
        }
        assert(files[k] == file);
    } else {
        assert forall|j: int, a: Seq<char>| 0 <= j < files.len() implies #[trigger] files[j]
            != #[trigger] (a + ".csproj"@) by {
            assert(!wanted(files[j]));
        }
    }
}

/// An ASCII name reads `lower` in lower case exactly where it differs from it at most by capital
/// letters.
proof fn reads_in_any_case(name: Seq<char>, lower: Seq<char>)
    requires
        forall|k: int| 0 <= k < name.len() ==> '\0' <= #[trigger] name[k] <= '\u{7f}',
        forall|k: int| 0 <= k < lower.len() ==> !('A' <= #[trigger] lower[k] <= 'Z'),
    ensures
        text::lowercase(name) == lower <==> {
            &&& name.len() == lower.len()
            &&& forall|k: int|
                0 <= k < name.len() ==> (#[trigger] name[k] == lower[k] || ('A' <= name[k] <= 'Z'
                    && lower[k] as u32 - 'a' as u32 == name[k] as u32 - 'A' as u32))
        },
{
    assert forall|k: int| 0 <= k < name.len() implies {
        &&& 'A' <= name[k] <= 'Z' ==> #[trigger] text::lowercase(name)[k] as u32 - 'a' as u32
            == name[k] as u32 - 'A' as u32
        &&& !('A' <= name[k] <= 'Z') ==> text::lowercase(name)[k] == name[k]
    } by {
        text::lowercase_of_ascii(name, k);
    }
    assert(text::lowercase(name).len() == name.len()) by {
        if name.len() > 0 {
            text::lowercase_of_ascii(name, 0);
        } else {
            assert(vstd::utf8::is_ascii_chars(name));
        }
    }
    if name.len() == lower.len() && forall|k: int|
        0 <= k < name.len() ==> (#[trigger] name[k] == lower[k] || ('A' <= name[k] <= 'Z'
            && lower[k] as u32 - 'a' as u32 == name[k] as u32 - 'A' as u32)) {
        assert forall|k: int| 0 <= k < name.len() implies text::lowercase(name)[k] == lower[k] by {
            let c = name[k];
            vstd::utf8::char_u32_cast(text::lowercase(name)[k], lower[k] as u32);
            vstd::utf8::char_u32_cast(lower[k], lower[k] as u32);
        }
        assert(text::lowercase(name) =~= lower);
    }
    if text::lowercase(name) == lower {
        assert forall|k: int| 0 <= k < name.len() implies (#[trigger] name[k] == lower[k] || ('A'
            <= name[k] <= 'Z' && lower[k] as u32 - 'a' as u32 == name[k] as u32 - 'A' as u32)) by {
            assert(text::lowercase(name)[k] == lower[k]);
        }
    }
}

/// Of files with an ASCII name, those that hold the entry point of an AppHost are `Program.cs` and
/// `AppHost.cs` in whatever case, whatever directory they lie in, and no others.
pub proof fn programs_are_told_by_their_name(dir: Seq<char>, name: Seq<char>)
    requires
        forall|k: int| 0 <= k < name.len() ==> '\0' <= #[trigger] name[k] <= '\u{7f}',
        forall|k: int| 0 <= k < name.len() ==> #[trigger] name[k] != '/',
    ensures
        is_program(dir + "/"@ + name) <==> is_program(name),
        is_program(name) <==> exists|lower: Seq<char>|
            {
                &&& lower == "program.cs"@ || lower == "apphost.cs"@
                &&& name.len() == #[trigger] lower.len()
                &&& forall|k: int|
                    0 <= k < name.len() ==> (#[trigger] name[k] == lower[k] || ('A' <= name[k]
                        <= 'Z' && lower[k] as u32 - 'a' as u32 == name[k] as u32 - 'A' as u32))
            },
{
    reveal_strlit("/");
    reveal_strlit("program.cs");
    reveal_strlit("apphost.cs");
    assert(dir + "/"@ =~= dir.push('/'));
    text::last_separator_cuts(dir, name, '/');
    text::nothing_to_cut(name, '/');
    reads_in_any_case(name, "program.cs"@);
    reads_in_any_case(name, "apphost.cs"@);
    assert("program.cs"@.len() == 10 && "apphost.cs"@.len() == 10);
}

/// The entry point of an AppHost is the first file that can be one.
pub proof fn program_is_the_first(files: Seq<Seq<char>>)
    ensures
        match program_file(files) {
            Some(file) => exists|k: int|
                {
                    &&& 0 <= k < files.len()
                    &&& #[trigger] files[k] == file
                    &&& is_program(file)
                    &&& forall|j: int| 0 <= j < k ==> !is_program(#[trigger] files[j])
                },
            None => forall|j: int| 0 <= j < files.len() ==> !is_program(#[trigger] files[j]),
        },
{
    let wanted = |file: Seq<char>| is_program(file);
    first_file_is_the_first(files, wanted);
    if let Some(file) = program_file(files) {
        let k = choose|k: int|
            {
                &&& 0 <= k < files.len()
                &&& #[trigger] files[k] == file
                &&& wanted(file)
                &&& forall|j: int| 0 <= j < k ==> !wanted(#[trigger] files[j])
            };
        assert forall|j: int| 0 <= j < k implies !is_program(#[trigger] files[j]) by {
            assert(!wanted(files[j]));
        }
        assert(files[k] == file && wanted(file));
    } else {
        assert forall|j: int| 0 <= j < files.len() implies !is_program(#[trigger] files[j]) by {
            assert(!wanted(files[j]));
        }
    }
}

/// The sources of a project lie in its directory.
pub proof fn sources_lie_in_the_project(dir: Seq<char>, file: Seq<char>)
    ensures
        project_source(dir, file) == dir + "/"@ + file,
{
}

} // verus!
