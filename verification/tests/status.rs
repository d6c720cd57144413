use aspire_plugin::status::{DASHBOARD_HOST, DASHBOARD_PORT};
use aspire_plugin::{detect_run_status, RunStatus, StatusCheck};

const CSPROJ: &str = "<Project Sdk=\"Aspire.AppHost.Sdk/9.0.0\"><PackageReference Include=\"Aspire.Hosting.AppHost\"/>";

fn check(content: Option<&str>, listening: bool) -> Option<RunStatus> {
    let mut state = detect_run_status("/r/App/".to_string());
    assert_eq!(state, StatusCheck::Manifest { path: "/r/App/App.csproj".to_string() });
    state = state.manifest_read(content.map(|c| c.to_string()));
    if state == StatusCheck::Dashboard {
        state = state.dashboard_probed(listening);
    }
    match state {
        StatusCheck::Done(status) => status,
        other => panic!("not done: {:?}", other),
    }
}

#[test]
fn dashboard_address() {
    assert_eq!(DASHBOARD_HOST, "localhost");
    assert_eq!(DASHBOARD_PORT, 18888);
}

#[test]
fn running() {
    assert_eq!(
        check(Some(CSPROJ), true),
        Some(RunStatus {
            is_running: true,
            url: Some("http://localhost:18888".to_string()),
            pid: None,
            resources: vec![],
        })
    );
}

#[test]
fn not_running() {
    assert_eq!(
        check(Some(CSPROJ), false),
        Some(RunStatus { is_running: false, url: None, pid: None, resources: vec![] })
    );
}

#[test]
fn no_apphost_has_no_status() {
    assert_eq!(check(None, true), None);
    assert_eq!(check(Some("<Project/>"), true), None);
    assert_eq!(detect_run_status("/".to_string()), StatusCheck::Done(None));
}

#[test]
fn answers_out_of_turn_change_nothing() {
    let state = detect_run_status("/r/App".to_string()).dashboard_probed(true);
    assert_eq!(state, StatusCheck::Manifest { path: "/r/App/App.csproj".to_string() });
    let state = state.manifest_read(Some(CSPROJ.to_string())).manifest_read(None);
    assert_eq!(state, StatusCheck::Dashboard);
}
