use fcp_rust::lsp::lifecycle::ServerStatus;
use fcp_rust::lsp::types::{Location, Position, Range, SymbolInformation, SymbolKind};
use fcp_rust::mcp::workspace::{
    index_step, index_symbols, is_file_uri, needs_refresh, open_report, query_wants_refresh,
    session_action, should_skip_dir, status_report, status_text, DiagnosticsSettle, IndexStep,
    SessionAction, workspace_uri, file_uris, collect_uris,
};
use fcp_rust::resolver::index::SymbolIndex;
use fcp_rust::text::split_words;

#[test]
fn words_split_on_unicode_whitespace() {
    assert_eq!(split_words("  open\t/a  b \n"), vec!["open", "/a", "b"]);
    assert_eq!(split_words("x\u{3000}y\u{85}z\u{A0}w"), vec!["x", "y", "z", "w"]);
    assert!(split_words(" \t\r\n").is_empty());
    assert!(split_words("").is_empty());
    assert_eq!(split_words("héllo wörld"), vec!["héllo", "wörld"]);
}

#[test]
fn test_rust_session_empty_action() {
    assert_eq!(session_action(""), SessionAction::Refused("! empty session action.".to_string()));
    assert_eq!(session_action("   "), SessionAction::Refused("! empty session action.".to_string()));
}

#[test]
fn session_open_takes_the_second_word() {
    assert_eq!(
        session_action("open /nonexistent/path/that/should/not/exist"),
        SessionAction::Open("/nonexistent/path/that/should/not/exist".to_string())
    );
    assert_eq!(session_action("  open\t/w  extra"), SessionAction::Open("/w".to_string()));
    assert_eq!(session_action("open"), SessionAction::Refused("! open requires a path.".to_string()));
}

#[test]
fn session_status_close_and_unknown() {
    assert_eq!(session_action("status"), SessionAction::Status);
    assert_eq!(session_action("close now"), SessionAction::Close);
    assert_eq!(
        session_action("reopen x"),
        SessionAction::Refused("! unknown session action 'reopen'.".to_string())
    );
    assert_eq!(
        session_action("Status"),
        SessionAction::Refused("! unknown session action 'Status'.".to_string())
    );
}

#[test]
fn status_report_lists_the_counts() {
    assert_eq!(status_text(ServerStatus::NotStarted), "not started");
    assert_eq!(status_text(ServerStatus::Crashed), "crashed");
    let r = status_report(ServerStatus::Ready, "file:///w", 12, 340, 2, 0);
    assert_eq!(
        r,
        "Status: ready\nWorkspace: file:///w\nFiles: 12\nSymbols: 340\nDiagnostics: 2 errors, 0 warnings"
    );
}

#[test]
fn test_rust_session_status_no_workspace() {
    assert_eq!(session_action("status"), SessionAction::Status);
    let text = status_report(ServerStatus::NotStarted, "file:///", 0, 0, 0, 0);
    assert!(text.contains("Status:"));
    assert_eq!(
        text,
        "Status: not started\nWorkspace: file:///\nFiles: 0\nSymbols: 0\nDiagnostics: 0 errors, 0 warnings"
    );
}

#[test]
fn open_report_names_the_workspace() {
    assert_eq!(open_report("/w/p", 3, 41), "Opened workspace: /w/p (3 files, 41 symbols)");
}

#[test]
fn file_uris_and_refresh_queries() {
    assert!(is_file_uri("file:///tmp/x"));
    assert!(!is_file_uri("/tmp/x"));
    assert!(!is_file_uri("file:/"));
    assert!(query_wants_refresh("  diagnose @file:main.rs"));
    assert!(query_wants_refresh("unused"));
    assert!(!query_wants_refresh("find Config"));
    assert!(!query_wants_refresh("diag"));
}

#[test]
fn refresh_needed_when_sources_are_newer() {
    assert!(needs_refresh(Some(10), Some(5)));
    assert!(!needs_refresh(Some(5), Some(5)));
    assert!(!needs_refresh(Some(4), Some(5)));
    assert!(needs_refresh(Some(4), None));
    assert!(!needs_refresh(None, Some(5)));
    assert!(!needs_refresh(None, None));
}

fn settle_round(counts: &[usize]) -> Option<usize> {
    let mut s = DiagnosticsSettle::new();
    for (i, c) in counts.iter().enumerate() {
        if s.observe(*c) {
            return Some(i);
        }
    }
    None
}

#[test]
fn diagnostics_settle_after_three_equal_counts() {
    assert_eq!(settle_round(&[5, 5, 5, 5]), Some(2));
    assert_eq!(settle_round(&[0, 0, 3, 4, 4, 4]), Some(5));
    assert_eq!(settle_round(&[0, 0, 0, 0, 0, 0, 0, 0, 0, 0]), None);
    assert_eq!(settle_round(&[3, 0, 0, 0]), Some(3));
    assert_eq!(settle_round(&[1, 2, 1, 2, 1]), None);
}

#[test]
fn index_attempts_are_bounded() {
    assert_eq!(index_step(0, 12), IndexStep::Done);
    assert_eq!(index_step(0, 0), IndexStep::Retry);
    assert_eq!(index_step(8, 0), IndexStep::Retry);
    assert_eq!(index_step(9, 0), IndexStep::GiveUp);
    assert_eq!(index_step(9, 1), IndexStep::Done);
}

#[test]
fn listed_symbols_fill_the_index() {
    let range = Range { start: Position { line: 3, character: 0 }, end: Position { line: 5, character: 1 } };
    let symbols = vec![
        SymbolInformation {
            name: "main".to_string(),
            kind: SymbolKind::Function,
            location: Location { uri: "file:///w/src/main.rs".to_string(), range },
            container_name: None,
        },
        SymbolInformation {
            name: "Config".to_string(),
            kind: SymbolKind::Struct,
            location: Location { uri: "file:///w/src/lib.rs".to_string(), range },
            container_name: Some("lib".to_string()),
        },
    ];
    let mut index = SymbolIndex::new();
    assert_eq!(index_symbols(&mut index, symbols), 2);
    assert_eq!(index.size(), 2);
    let found = index.lookup_by_name("Config");
    assert_eq!(found.len(), 1);
    assert_eq!(found[0].uri, "file:///w/src/lib.rs");
    assert_eq!(found[0].selection_range, range);
    assert_eq!(index.lookup_by_container("lib").len(), 1);
}

#[test]
fn scans_skip_target_and_hidden_directories() {
    assert!(should_skip_dir("target"));
    assert!(should_skip_dir(".git"));
    assert!(!should_skip_dir("src"));
    assert!(!should_skip_dir("targets"));
    assert!(!should_skip_dir(""));
}

#[test]
fn workspace_uris_from_uris_and_paths() {
    assert_eq!(workspace_uri("file:///tmp/w"), Ok("file:///tmp/w".to_string()));
    assert_eq!(workspace_uri("/tmp/my project"), Ok("file:///tmp/my%20project".to_string()));
    assert_eq!(workspace_uri("relative/path"), Err("! invalid path: relative/path".to_string()));
    let e = workspace_uri("file://[bad").unwrap_err();
    assert!(e.starts_with("! invalid URI: "), "got {}", e);
}

#[test]
fn file_uris_keep_the_absolute_paths() {
    let uris = file_uris(vec!["/w/src/main.rs".to_string(), "lib.rs".to_string(), "/w/a b.rs".to_string()]);
    assert_eq!(uris, vec!["file:///w/src/main.rs", "file:///w/a%20b.rs"]);
}

#[test]
fn collected_uris_keep_order_and_drop_missing() {
    let got = collect_uris(vec![Some("file:///a".to_string()), None, Some("file:///b".to_string())]);
    assert_eq!(got, vec!["file:///a", "file:///b"]);
    assert!(collect_uris(vec![None, None]).is_empty());
}
