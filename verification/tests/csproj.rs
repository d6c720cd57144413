use aspire_plugin::csproj::{
    declares_framework, detect_target_framework, is_aspire_apphost, project_tags,
};

#[test]
fn apphost_signals() {
    for signal in [
        "<Project Sdk=\"Aspire.AppHost.Sdk\">",
        "<Project Sdk='Aspire.AppHost.Sdk'>",
        "<Sdk Name=\"Aspire.AppHost.Sdk\" Version=\"9.0.0\" />",
        "<Sdk Name='Aspire.AppHost.Sdk' />",
        "<PackageReference Include=\"Aspire.Hosting.AppHost\" />",
        "<PackageReference Include=\"Aspire.Hosting\" />",
        "<PackageReference Include='Aspire.Hosting' />",
    ] {
        assert!(is_aspire_apphost(signal), "{}", signal);
    }
}

#[test]
fn other_packages_are_no_signal() {
    assert!(!is_aspire_apphost(""));
    assert!(!is_aspire_apphost("<Project Sdk=\"Microsoft.NET.Sdk\">"));
    assert!(!is_aspire_apphost("<PackageReference Include=\"Aspire.Hosting.Redis\" />"));
    assert!(!is_aspire_apphost("sdk=\"aspire.apphost.sdk\""));
}

#[test]
fn newest_known_framework_comes_first() {
    let csproj = "<TargetFramework>net6.0</TargetFramework><TargetFramework>net8.0</TargetFramework>";
    assert_eq!(detect_target_framework(csproj), Some("net8.0".to_string()));
    assert!(declares_framework(csproj, "net6.0"));
    assert!(!declares_framework(csproj, "net9.0"));
}

#[test]
fn unknown_framework_is_taken_as_it_stands() {
    let csproj = "<TargetFramework>net10.0</TargetFramework>\n<TargetFramework>x</TargetFramework>";
    assert_eq!(detect_target_framework(csproj), Some("net10.0".to_string()));
    assert_eq!(
        detect_target_framework("<TargetFramework></TargetFramework>"),
        Some(String::new())
    );
}

#[test]
fn known_frameworks_one_by_one() {
    for framework in ["net9.0", "net8.0", "net7.0", "net6.0"] {
        let csproj = format!("é<TargetFramework>{}</TargetFramework>", framework);
        assert_eq!(detect_target_framework(&csproj), Some(framework.to_string()));
    }
}

#[test]
fn framework_must_stand_on_one_line() {
    assert_eq!(
        detect_target_framework("<TargetFramework>\nnet10.0</TargetFramework>"),
        None
    );
    assert_eq!(detect_target_framework("<TargetFramework>net10.0"), None);
    // The first element that closes on its own line is found, though another opens before it.
    assert_eq!(
        detect_target_framework("<TargetFramework>\n<TargetFramework>a</TargetFramework>"),
        Some("a".to_string())
    );
    // A nested opening tag belongs to the content of the one before it.
    assert_eq!(
        detect_target_framework("<TargetFramework>b<TargetFramework>a</TargetFramework>"),
        Some("b<TargetFramework>a".to_string())
    );
}

#[test]
fn tags_end_with_the_framework() {
    assert_eq!(project_tags(""), vec![".NET", "C#", "Aspire"]);
    assert_eq!(
        project_tags("<TargetFramework>net7.0</TargetFramework>"),
        vec![".NET", "C#", "Aspire", "net7.0"]
    );
}
