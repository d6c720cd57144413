use aspire_plugin::identify::{ProjectFile, SourceFile};
use aspire_plugin::{identify_project, EntryPoint, Identification, ProjectProfile};
use std::collections::HashMap;

const CSPROJ: &str = r#"<Project Sdk="Microsoft.NET.Sdk">
  <Sdk Name="Aspire.AppHost.Sdk" Version="9.0.0" />
  <PropertyGroup><TargetFramework>net9.0</TargetFramework></PropertyGroup>
</Project>"#;

fn strings(items: &[&str]) -> Vec<String> {
    items.iter().map(|s| s.to_string()).collect()
}

/// Runs an identification against `disk`; gives the profile and the files that were asked for.
fn run(root: &str, files: &[&str], disk: &[(&str, &str)]) -> (Option<ProjectProfile>, Vec<String>) {
    let disk: HashMap<&str, &str> = disk.iter().copied().collect();
    let mut asked = Vec::new();
    let mut state = identify_project(root.to_string(), strings(files));
    while let Some(path) = state.wanted_file() {
        let content = disk.get(path.as_str()).map(|c| c.to_string());
        asked.push(path);
        state = state.file_read(content);
    }
    match state {
        Identification::Done(profile) => (profile, asked),
        other => panic!("not done: {:?}", other),
    }
}

fn labels(profile: &ProjectProfile) -> Vec<&str> {
    profile.entry_points.iter().map(|e| e.label.as_str()).collect()
}

#[test]
fn no_project_file_is_no_apphost() {
    let (profile, asked) = run("/repo", &["Program.cs", "readme.md"], &[]);
    assert_eq!(profile, None);
    assert!(asked.is_empty());
}

#[test]
fn unreadable_project_file_is_no_apphost() {
    let (profile, asked) = run("/repo", &["App.csproj"], &[]);
    assert_eq!(profile, None);
    assert_eq!(asked, strings(&["/repo/App.csproj"]));
}

#[test]
fn other_projects_are_no_apphost() {
    let disk = [("/repo/App.csproj", "<Project Sdk=\"Microsoft.NET.Sdk.Web\" />")];
    let (profile, asked) = run("/repo/", &["App.csproj", "Program.cs"], &disk);
    assert_eq!(profile, None);
    assert_eq!(asked, strings(&["/repo/App.csproj"]));
}

#[test]
fn apphost_without_program_has_no_entry_points() {
    let disk = [("/repo/App.csproj", CSPROJ)];
    let (profile, _) = run("/repo", &["App.csproj"], &disk);
    assert_eq!(
        profile,
        Some(ProjectProfile {
            category: "Aspire AppHost".to_string(),
            tags: strings(&[".NET", "C#", "Aspire", "net9.0"]),
            entry_points: vec![],
        })
    );
}

#[test]
fn apphost_with_unreadable_program_has_no_entry_points() {
    let disk = [("/repo/App.csproj", CSPROJ)];
    let (profile, asked) = run("/repo", &["App.csproj", "src/PROGRAM.cs"], &disk);
    assert!(profile.unwrap().entry_points.is_empty());
    assert_eq!(asked, strings(&["/repo/App.csproj", "/repo/src/PROGRAM.cs"]));
}

#[test]
fn resources_become_entry_points() {
    let source = "var builder = X();\nbuilder.AddRedis(\"cache\");\n\nbuilder . AddProject(\"plain\");\n";
    let disk = [("/repo/App.csproj", CSPROJ), ("/repo/AppHost.cs", source)];
    let (profile, asked) = run("/repo", &["App.csproj", "AppHost.cs"], &disk);
    let profile = profile.unwrap();
    assert_eq!(asked.len(), 2);
    assert_eq!(
        profile.entry_points,
        vec![
            EntryPoint {
                label: "container: cache (redis)".to_string(),
                path: "AppHost.cs".to_string(),
                line: Some(2),
                method: Some("CONTAINER".to_string()),
                description: Some("builder.AddRedis(\"cache\")".to_string()),
                detection_source: Some("regex".to_string()),
            },
            EntryPoint {
                label: "project: plain".to_string(),
                path: "AppHost.cs".to_string(),
                line: Some(4),
                method: Some("PROJECT".to_string()),
                description: Some("builder.AddProject(\"plain\")".to_string()),
                detection_source: Some("regex".to_string()),
            },
        ]
    );
}

#[test]
fn documents_of_projects_follow_their_resource() {
    let source = "builder.AddProject<Projects.MyApp_Api>(\"api\");\nbuilder.AddPostgres(\"db\");";
    let disk = [
        ("/repo/src/MyApp.AppHost/H.csproj", CSPROJ),
        ("/repo/src/MyApp.AppHost/Program.cs", source),
        ("/repo/src/MyApp.Api/MyApp.Api.csproj", "<Project/>"),
        ("/repo/src/MyApp.Api/Program.cs", "s.AddOpenApi(); app.MapOpenApi();"),
    ];
    let (profile, asked) = run("/repo/src/MyApp.AppHost/", &["H.csproj", "Program.cs"], &disk);
    let profile = profile.unwrap();
    assert_eq!(
        labels(&profile),
        vec!["project: api", "api: /openapi/v1.json", "container: db (postgres)"]
    );
    assert_eq!(profile.entry_points[1].path, "Program.cs");
    assert_eq!(profile.entry_points[1].line, None);
    assert_eq!(asked.len(), 4);
}

#[test]
fn all_candidates_are_tried_in_order() {
    let source = "builder.AddProject<MyApp_Api>(\"api\")";
    let disk = [
        ("/a/b/host/H.csproj", CSPROJ),
        ("/a/b/host/Program.cs", source),
        ("/a/b/MyApp.Api/MyApp.Api.csproj", "a project without an entry point"),
    ];
    let (profile, asked) = run("/a/b/host", &["H.csproj", "Program.cs"], &disk);
    assert_eq!(labels(&profile.unwrap()), vec!["project: api"]);
    assert_eq!(
        asked,
        strings(&[
            "/a/b/host/H.csproj",
            "/a/b/host/Program.cs",
            "/a/b/MyApp.Api/MyApp.Api.csproj",
            "/a/b/MyApp.Api/Program.cs",
            "/a/b/MyApp.Api/App.cs",
            "/a/b/MyApp.Api/Startup.cs",
            "/a/src/MyApp.Api/MyApp.Api.csproj",
            "/a/MyApp.Api/MyApp.Api.csproj",
        ])
    );
}

#[test]
fn first_complete_candidate_wins() {
    let source = "builder.AddProject<MyApp_Api>(\"api\")";
    let disk = [
        ("/a/b/host/H.csproj", CSPROJ),
        ("/a/b/host/Program.cs", source),
        ("/a/src/MyApp.Api/MyApp.Api.csproj", ""),
        ("/a/src/MyApp.Api/Program.cs", "AddSwaggerGen()"),
        ("/a/MyApp.Api/MyApp.Api.csproj", ""),
        ("/a/MyApp.Api/Program.cs", "AddOpenApi()"),
    ];
    let (profile, _) = run("/a/b/host", &["H.csproj", "Program.cs"], &disk);
    assert_eq!(
        labels(&profile.unwrap()),
        vec!["project: api", "api: /swagger/v1/swagger.json"]
    );
}

#[test]
fn generic_containers_are_not_looked_for() {
    let source = "builder.AddContainer<MyApp_Api>(\"api\")";
    let disk = [("/a/H.csproj", CSPROJ), ("/a/Program.cs", source)];
    let (profile, asked) = run("/a", &["H.csproj", "Program.cs"], &disk);
    assert_eq!(labels(&profile.unwrap()), vec!["container: api (custom)"]);
    assert_eq!(asked.len(), 2);
}

#[test]
fn an_answer_after_the_end_changes_nothing() {
    let state = identify_project("/a".to_string(), vec![]);
    assert_eq!(state, Identification::Done(None));
    assert_eq!(state.file_read(Some(CSPROJ.to_string())), Identification::Done(None));
}

/// Runs an AppHost at `/r/Host` that orchestrates the project `Api`.
fn run_with_api(disk: &[(&str, &str)]) -> (ProjectProfile, Vec<String>) {
    let mut all = vec![
        ("/r/Host/H.csproj", CSPROJ),
        ("/r/Host/Program.cs", "builder.AddProject<Projects.Api>(\"api\");"),
    ];
    all.extend_from_slice(disk);
    let (profile, asked) = run("/r/Host", &["H.csproj", "Program.cs"], &all);
    (profile.unwrap(), asked)
}

#[test]
fn app_cs_stands_in_for_program_cs() {
    let (profile, asked) = run_with_api(&[
        ("/r/Api/Api.csproj", ""),
        ("/r/Api/App.cs", "AddOpenApi(\"app\"); MapOpenApi();"),
        ("/r/Api/Startup.cs", "AddOpenApi(\"startup\"); MapOpenApi();"),
    ]);
    assert_eq!(labels(&profile), vec!["project: api", "api: /openapi/app.json"]);
    assert_eq!(profile.entry_points[1].path, "App.cs");
    assert_eq!(
        asked[2..],
        strings(&["/r/Api/Api.csproj", "/r/Api/Program.cs", "/r/Api/App.cs"])
    );
}

#[test]
fn startup_cs_stands_in_for_both() {
    let (profile, asked) = run_with_api(&[
        ("/r/Api/Api.csproj", ""),
        ("/r/Api/Startup.cs", "AddOpenApi(); MapOpenApi();"),
    ]);
    assert_eq!(labels(&profile), vec!["project: api", "api: /openapi/v1.json"]);
    assert_eq!(profile.entry_points[1].path, "Startup.cs");
    assert_eq!(
        asked[2..],
        strings(&[
            "/r/Api/Api.csproj",
            "/r/Api/Program.cs",
            "/r/Api/App.cs",
            "/r/Api/Startup.cs",
        ])
    );
}

#[test]
fn program_cs_alone_counts_where_it_is_readable() {
    let (profile, asked) = run_with_api(&[
        ("/r/Api/Api.csproj", ""),
        ("/r/Api/Program.cs", "nothing is registered"),
        ("/r/Api/Startup.cs", "AddOpenApi(); MapOpenApi();"),
    ]);
    assert_eq!(labels(&profile), vec!["project: api"]);
    assert_eq!(asked.len(), 4);
}

#[test]
fn sources_without_a_project_file_do_not_count() {
    let (profile, _) = run_with_api(&[("/r/Api/Startup.cs", "AddOpenApi(); MapOpenApi();")]);
    assert_eq!(labels(&profile), vec!["project: api"]);
}

#[test]
fn files_of_a_project_in_their_order() {
    let program = ProjectFile::Source(SourceFile::Program);
    let app = ProjectFile::Source(SourceFile::App);
    let startup = ProjectFile::Source(SourceFile::Startup);
    assert_eq!(ProjectFile::Manifest.otherwise(), None);
    assert_eq!(program.otherwise(), Some(app));
    assert_eq!(app.otherwise(), Some(startup));
    assert_eq!(startup.otherwise(), None);
    assert_eq!(ProjectFile::Manifest.path("/r/Api"), "/r/Api/Api.csproj");
    assert_eq!(startup.path("/r/Api"), "/r/Api/Startup.cs");
    assert_eq!(SourceFile::App.name(), "App.cs");
}

#[test]
fn line_breaks_before_the_source_raise_the_lines() {
    let source = "\nbuilder.AddProject<Api>(\"api\");\nbuilder.AddRedis(\"cache\");";
    let longer = format!("\n\n\n{}", source);
    let profile_of = |program: &str| {
        let disk = [
            ("/r/Host/H.csproj", CSPROJ),
            ("/r/Host/Program.cs", program),
            ("/r/Api/Api.csproj", ""),
            ("/r/Api/Program.cs", "AddOpenApi()"),
        ];
        run("/r/Host", &["H.csproj", "Program.cs"], &disk).0.unwrap()
    };
    let mut expected = profile_of(source);
    let lines: Vec<Option<u32>> = expected.entry_points.iter().map(|e| e.line).collect();
    assert_eq!(lines, vec![Some(2), None, Some(3)]);
    for entry in expected.entry_points.iter_mut() {
        entry.line = entry.line.map(|line| line + 3);
    }
    assert_eq!(profile_of(&longer), expected);
}
