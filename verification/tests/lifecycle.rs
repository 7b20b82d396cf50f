use fcp_rust::lsp::lifecycle::{LifecycleManager, ServerStatus, StartPlan};

fn manager() -> LifecycleManager {
    LifecycleManager::new("rust-analyzer".to_string(), vec![], "file:///test".to_string())
}

#[test]
fn test_initial_status_not_started() {
    let mgr = manager();
    assert_eq!(mgr.status(), &ServerStatus::NotStarted);
}

#[test]
fn test_track_untrack_document() {
    let mut mgr = manager();

    mgr.track_document("file:///main.rs".to_string(), "fn main() {}".to_string());
    assert_eq!(mgr.tracked_documents().len(), 1);
    assert_eq!(mgr.tracked_documents().get("file:///main.rs").unwrap(), "fn main() {}");

    mgr.untrack_document("file:///main.rs");
    assert!(mgr.tracked_documents().is_empty());
}

#[test]
fn test_untrack_nonexistent() {
    let mut mgr = manager();
    mgr.untrack_document("file:///nonexistent.rs");
}

#[test]
fn test_track_overwrites() {
    let mut mgr = manager();
    mgr.track_document("file:///main.rs".to_string(), "v1".to_string());
    mgr.track_document("file:///main.rs".to_string(), "v2".to_string());
    assert_eq!(mgr.tracked_documents().len(), 1);
    assert_eq!(mgr.tracked_documents().get("file:///main.rs").unwrap(), "v2");
}

#[test]
fn start_plan_follows_status_and_crashes() {
    let mut mgr = manager();
    assert_eq!(mgr.plan_start(false), StartPlan::Start);
    mgr.begin_start();
    assert_eq!(mgr.status(), &ServerStatus::Starting);
    mgr.finish_start(true);
    assert_eq!(mgr.status(), &ServerStatus::Ready);
    assert_eq!(mgr.plan_start(true), StartPlan::UseRunning);
    assert_eq!(mgr.plan_start(false), StartPlan::Start);
}

#[test]
fn three_failed_starts_refuse_a_fourth() {
    let mut mgr = manager();
    for _ in 0..3 {
        assert_eq!(mgr.plan_start(false), StartPlan::Start);
        mgr.begin_start();
        mgr.finish_start(false);
        assert_eq!(mgr.status(), &ServerStatus::Crashed);
    }
    assert_eq!(mgr.restart_count(), 3);
    assert_eq!(mgr.plan_start(false), StartPlan::Refuse);
    mgr.mark_stopped();
    assert_eq!(mgr.status(), &ServerStatus::Stopped);
    assert_eq!(mgr.plan_start(false), StartPlan::Start);
}

#[test]
fn launch_settings_are_kept() {
    let mgr = LifecycleManager::new("ra".to_string(), vec!["--x".to_string()], "file:///w".to_string());
    assert_eq!(mgr.command(), "ra");
    assert_eq!(mgr.args(), &vec!["--x".to_string()]);
    assert_eq!(mgr.root_uri(), "file:///w");
}
