use aspire_plugin::paths::{
    candidate_dirs, find_csproj, find_program, is_program_file, join_path, name_of,
    own_csproj_path, project_csproj_path, project_source_path,
};

fn strings(items: &[&str]) -> Vec<String> {
    items.iter().map(|s| s.to_string()).collect()
}

#[test]
fn joining() {
    assert_eq!(join_path("/a", "b.cs"), "/a/b.cs");
    assert_eq!(join_path("/a/", "b.cs"), "/a/b.cs");
    assert_eq!(join_path("", "b.cs"), "/b.cs");
}

#[test]
fn last_components() {
    assert_eq!(name_of("/a/b"), "b");
    assert_eq!(name_of("/a/b//"), "b");
    assert_eq!(name_of("é"), "é");
    assert_eq!(name_of("///"), "");
    assert_eq!(name_of(""), "");
}

#[test]
fn first_project_file() {
    assert_eq!(
        find_csproj(&strings(&["a.cs", "x/b.csproj", "c.csproj"])),
        Some("x/b.csproj".to_string())
    );
    assert_eq!(find_csproj(&strings(&["a.CSPROJ", "b.csproj.user"])), None);
}

#[test]
fn first_program_file() {
    assert!(is_program_file("Program.cs"));
    assert!(is_program_file("src/APPHOST.CS"));
    assert!(!is_program_file("MyProgram.cs"));
    assert!(!is_program_file("Program.cs/x"));
    assert!(!is_program_file("Prögram.cs"));
    assert_eq!(
        find_program(&strings(&["x.cs", "a/apphost.cs", "Program.cs"])),
        Some("a/apphost.cs".to_string())
    );
    assert_eq!(find_program(&strings(&[])), None);
}

#[test]
fn project_file_named_after_its_directory() {
    assert_eq!(own_csproj_path("/r/App"), Some("/r/App/App.csproj".to_string()));
    assert_eq!(own_csproj_path("/r/App/"), Some("/r/App/App.csproj".to_string()));
    assert_eq!(own_csproj_path("/"), None);
    assert_eq!(own_csproj_path(""), None);
}

#[test]
fn candidates_from_near_to_far() {
    assert_eq!(
        candidate_dirs("/repo/src/MyApp.AppHost/", "MyApp_Api"),
        strings(&["/repo/src/MyApp.Api", "/repo/src/MyApp.Api", "/repo/MyApp.Api"])
    );
    assert_eq!(
        candidate_dirs("host", "A"),
        strings(&["host/A", "host/src/A", "host/A"])
    );
    assert_eq!(candidate_dirs("/host", "A"), strings(&["/A", "/src/A", "/A"]));
}

#[test]
fn candidates_without_a_name_are_left_out() {
    assert_eq!(candidate_dirs("/host", ""), strings(&["/src/"]));
}

#[test]
fn files_of_a_project() {
    assert_eq!(project_csproj_path("/r/My.Api"), "/r/My.Api/My.Api.csproj");
    assert_eq!(project_source_path("/r/My.Api", "Program.cs"), "/r/My.Api/Program.cs");
}
