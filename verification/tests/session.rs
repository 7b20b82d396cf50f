use fcp_rust::fcpcore::session::{Session, SessionHooks};
use fcp_rust::text_map::TextMap;

#[derive(Debug)]
struct MockModel {
    title: String,
    data: Vec<String>,
}

#[derive(Clone, Debug)]
struct MockEvent(String);

struct MockHooks {
    open_error: Option<String>,
    save_error: Option<String>,
}

impl MockHooks {
    fn new() -> Self {
        MockHooks { open_error: None, save_error: None }
    }
}

impl SessionHooks for MockHooks {
    type Model = MockModel;
    type Event = MockEvent;

    fn on_new(&self, params: &TextMap<String>) -> Result<MockModel, String> {
        let title = params
            .get("title")
            .filter(|t| !t.is_empty())
            .cloned()
            .unwrap_or_else(|| "Untitled".to_string());
        Ok(MockModel { title, data: Vec::new() })
    }

    fn on_open(&self, path: &str) -> Result<MockModel, String> {
        if let Some(ref e) = self.open_error {
            return Err(e.clone());
        }
        Ok(MockModel { title: path.to_string(), data: vec!["loaded".to_string()] })
    }

    fn on_save(&self, _model: &MockModel, _path: &str) -> Result<(), String> {
        if let Some(ref e) = self.save_error {
            return Err(e.clone());
        }
        Ok(())
    }

    fn on_rebuild_indices(&self, _model: &mut MockModel) {}

    fn get_digest(&self, model: &MockModel) -> String {
        format!("[{}: {} items]", model.title, model.data.len())
    }

    fn new_answer(&self, params: &TextMap<String>, r: Result<MockModel, String>) -> bool {
        match (self.on_new(params), r) {
            (Ok(a), Ok(b)) => a.title == b.title && a.data == b.data,
            (Err(a), Err(b)) => a == b,
            _ => false,
        }
    }

    fn open_answer(&self, path: &str, r: Result<MockModel, String>) -> bool {
        match (self.on_open(path), r) {
            (Ok(a), Ok(b)) => a.title == b.title && a.data == b.data,
            (Err(a), Err(b)) => a == b,
            _ => false,
        }
    }

    fn save_answer(&self, model: &MockModel, path: &str, r: Result<(), String>) -> bool {
        self.on_save(model, path) == r
    }

    fn rebuilt(&self, model: MockModel) -> MockModel {
        model
    }

    fn reversed(&self, _event: MockEvent, model: MockModel) -> MockModel {
        model
    }

    fn replayed(&self, _event: MockEvent, model: MockModel) -> MockModel {
        model
    }

    fn reverse(&self, _event: &MockEvent, _model: &mut MockModel) {}

    fn replay(&self, _event: &MockEvent, _model: &mut MockModel) {}
}

fn create_mock_session() -> Session<MockHooks> {
    Session::new(MockHooks::new())
}

#[test]
fn test_session_new_with_title() {
    let mut session = create_mock_session();
    let result = session.dispatch(r#"new "My Song""#);
    assert_eq!(result, r#"new "My Song" created"#);
    assert!(session.model.is_some());
    let m = session.model.as_ref().unwrap();
    assert_eq!(m.title, "My Song");
}

#[test]
fn test_session_new_with_params() {
    let mut session = create_mock_session();
    session.dispatch(r#"new "Test" tempo:120"#);
    let m = session.model.as_ref().unwrap();
    assert_eq!(m.title, "Test");
}

#[test]
fn test_session_new_default_title() {
    let mut session = create_mock_session();
    let result = session.dispatch("new");
    assert_eq!(result, r#"new "Untitled" created"#);
}

#[test]
fn test_session_new_clears_file_path() {
    let mut session = create_mock_session();
    session.dispatch("new Test");
    assert_eq!(session.file_path, "");
}

#[test]
fn test_session_open() {
    let mut session = create_mock_session();
    let result = session.dispatch("open ./test.mid");
    assert_eq!(result, r#"opened "./test.mid""#);
    assert!(session.model.is_some());
    assert_eq!(session.file_path, "./test.mid");
}

#[test]
fn test_session_open_requires_path() {
    let mut session = create_mock_session();
    let result = session.dispatch("open");
    assert_eq!(result, "open requires a file path");
}

#[test]
fn test_session_open_error() {
    let mut session = Session::new(MockHooks {
        open_error: Some("file not found".to_string()),
        save_error: None,
    });
    let result = session.dispatch("open ./missing.mid");
    assert_eq!(result, "error: file not found");
}

#[test]
fn test_session_save() {
    let mut session = create_mock_session();
    session.dispatch("open ./test.mid");
    let result = session.dispatch("save");
    assert_eq!(result, r#"saved "./test.mid""#);
}

#[test]
fn test_session_save_with_as() {
    let mut session = create_mock_session();
    session.dispatch("new Test");
    let result = session.dispatch("save as:./output.mid");
    assert_eq!(result, r#"saved "./output.mid""#);
    assert_eq!(session.file_path, "./output.mid");
}

#[test]
fn test_session_save_no_model() {
    let mut session = create_mock_session();
    let result = session.dispatch("save");
    assert_eq!(result, "error: no model to save");
}

#[test]
fn test_session_save_no_path() {
    let mut session = create_mock_session();
    session.dispatch("new Test");
    let result = session.dispatch("save");
    assert_eq!(result, "error: no file path. Use save as:./file");
}

#[test]
fn test_session_checkpoint() {
    let mut session = create_mock_session();
    let result = session.dispatch("checkpoint v1");
    assert_eq!(result, r#"checkpoint "v1" created"#);
    assert!(session.log.cursor() > 0);
}

#[test]
fn test_session_checkpoint_requires_name() {
    let mut session = create_mock_session();
    let result = session.dispatch("checkpoint");
    assert_eq!(result, "checkpoint requires a name");
}

#[test]
fn test_session_undo() {
    let mut session = create_mock_session();
    session.dispatch("new Test");
    session.log.append(MockEvent("event1".to_string()));
    session.log.append(MockEvent("event2".to_string()));
    let result = session.dispatch("undo");
    assert_eq!(result, "undone 1 event");
}

#[test]
fn test_session_undo_no_model() {
    let mut session = create_mock_session();
    let result = session.dispatch("undo");
    assert_eq!(result, "nothing to undo");
}

#[test]
fn test_session_undo_to_checkpoint() {
    let mut session = create_mock_session();
    session.dispatch("new Test");
    session.log.append(MockEvent("event1".to_string()));
    session.dispatch("checkpoint v1");
    session.log.append(MockEvent("event2".to_string()));
    session.log.append(MockEvent("event3".to_string()));
    let result = session.dispatch("undo to:v1");
    assert_eq!(result, r#"undone 2 events to checkpoint "v1""#);
}

#[test]
fn test_session_undo_calls_rebuild() {
    let mut session = create_mock_session();
    session.dispatch("new Test");
    session.log.append(MockEvent("event1".to_string()));
    let result = session.dispatch("undo");
    assert_eq!(result, "undone 1 event");
}

#[test]
fn test_session_redo() {
    let mut session = create_mock_session();
    session.dispatch("new Test");
    session.log.append(MockEvent("event1".to_string()));
    session.log.undo(1);
    let result = session.dispatch("redo");
    assert_eq!(result, "redone 1 event");
}

#[test]
fn test_session_redo_no_model() {
    let mut session = create_mock_session();
    let result = session.dispatch("redo");
    assert_eq!(result, "nothing to redo");
}

#[test]
fn test_session_redo_calls_rebuild() {
    let mut session = create_mock_session();
    session.dispatch("new Test");
    session.log.append(MockEvent("event1".to_string()));
    session.log.undo(1);
    let result = session.dispatch("redo");
    assert_eq!(result, "redone 1 event");
}

#[test]
fn test_session_unknown_command() {
    let mut session = create_mock_session();
    let result = session.dispatch("explode");
    assert_eq!(result, r#"unknown session action "explode""#);
}

#[test]
fn test_session_empty_action() {
    let mut session = create_mock_session();
    let result = session.dispatch("");
    assert_eq!(result, "empty action");
}

#[test]
fn test_session_status_placeholder() {
    let mut session = create_mock_session();
    let result = session.dispatch("status");
    assert_eq!(result, "status: placeholder");
}

#[test]
fn test_session_close_placeholder() {
    let mut session = create_mock_session();
    let result = session.dispatch("close");
    assert_eq!(result, "close: placeholder");
}

#[test]
fn test_session_new_resets_log() {
    let mut session = create_mock_session();
    session.dispatch("new Test");
    session.log.append(MockEvent("e1".to_string()));
    session.log.append(MockEvent("e2".to_string()));
    assert_eq!(session.log.cursor(), 2);
    session.dispatch("new Other");
    assert_eq!(session.log.cursor(), 0);
}

#[test]
fn test_session_open_resets_log() {
    let mut session = create_mock_session();
    session.dispatch("new Test");
    session.log.append(MockEvent("e1".to_string()));
    assert_eq!(session.log.cursor(), 1);
    session.dispatch("open ./file.mid");
    assert_eq!(session.log.cursor(), 0);
}

#[test]
fn session_save_error_keeps_file_path() {
    let mut session = Session::new(MockHooks { open_error: None, save_error: Some("disk full".to_string()) });
    session.dispatch("open ./a.mid");
    let result = session.dispatch("save as:./b.mid");
    assert_eq!(result, "error: disk full");
    assert_eq!(session.file_path, "./a.mid");
}

#[test]
fn session_command_word_is_case_insensitive() {
    let mut session = create_mock_session();
    assert_eq!(session.dispatch("NEW Song"), r#"new "Song" created"#);
    assert_eq!(session.dispatch("Status"), "status: placeholder");
}

#[test]
fn session_undo_to_unknown_checkpoint_is_refused() {
    let mut session = create_mock_session();
    session.dispatch("new Test");
    session.log.append(MockEvent("e1".to_string()));
    assert_eq!(session.dispatch("undo to:nope"), r#"cannot undo to "nope""#);
    assert_eq!(session.log.cursor(), 1);
}

#[test]
fn session_undo_to_counts_one_event_in_singular() {
    let mut session = create_mock_session();
    session.dispatch("new Test");
    session.dispatch("checkpoint v1");
    session.log.append(MockEvent("e1".to_string()));
    assert_eq!(session.dispatch("undo to:v1"), r#"undone 1 event to checkpoint "v1""#);
}

#[test]
fn session_undo_with_only_checkpoints_reports_nothing() {
    let mut session = create_mock_session();
    session.dispatch("new Test");
    session.dispatch("checkpoint v1");
    assert_eq!(session.dispatch("undo"), "nothing to undo");
    assert_eq!(session.dispatch("redo"), "nothing to redo");
}

#[test]
fn session_finish_functions_apply_hook_results() {
    let mut session = create_mock_session();
    let params: TextMap<String> = TextMap::new();
    let r = session.finish_new(&params, Err("boom".to_string()));
    assert_eq!(r, "error: boom");
    assert!(session.model.is_none());
    let r = session.finish_open("p.mid", Ok(MockModel { title: "p".to_string(), data: vec![] }));
    assert_eq!(r, r#"opened "p.mid""#);
    assert_eq!(session.file_path, "p.mid");
    let r = session.finish_save("q.mid".to_string(), Ok(()));
    assert_eq!(r, r#"saved "q.mid""#);
    assert_eq!(session.file_path, "q.mid");
}

/// Hooks whose model records every reverse, replay and rebuild.
struct RecordingHooks;

impl SessionHooks for RecordingHooks {
    type Model = Vec<String>;
    type Event = String;

    fn on_new(&self, _params: &TextMap<String>) -> Result<Vec<String>, String> {
        Ok(Vec::new())
    }

    fn on_open(&self, _path: &str) -> Result<Vec<String>, String> {
        Ok(Vec::new())
    }

    fn on_save(&self, _model: &Vec<String>, _path: &str) -> Result<(), String> {
        Ok(())
    }

    fn new_answer(&self, _params: &TextMap<String>, r: Result<Vec<String>, String>) -> bool {
        r == Ok(Vec::new())
    }

    fn open_answer(&self, _path: &str, r: Result<Vec<String>, String>) -> bool {
        r == Ok(Vec::new())
    }

    fn save_answer(&self, _model: &Vec<String>, _path: &str, r: Result<(), String>) -> bool {
        r == Ok(())
    }

    fn rebuilt(&self, mut model: Vec<String>) -> Vec<String> {
        model.push("rebuild".to_string());
        model
    }

    fn on_rebuild_indices(&self, model: &mut Vec<String>) {
        model.push("rebuild".to_string());
    }

    fn get_digest(&self, model: &Vec<String>) -> String {
        model.join(",")
    }

    fn reversed(&self, event: String, mut model: Vec<String>) -> Vec<String> {
        model.push(format!("-{}", event));
        model
    }

    fn replayed(&self, event: String, mut model: Vec<String>) -> Vec<String> {
        model.push(format!("+{}", event));
        model
    }

    fn reverse(&self, event: &String, model: &mut Vec<String>) {
        model.push(format!("-{}", event));
    }

    fn replay(&self, event: &String, model: &mut Vec<String>) {
        model.push(format!("+{}", event));
    }
}

#[test]
fn undo_and_redo_run_the_hooks_in_order() {
    let mut session = Session::new(RecordingHooks);
    session.dispatch("new T");
    session.log.append("a".to_string());
    session.dispatch("checkpoint v");
    session.log.append("b".to_string());
    session.log.append("c".to_string());
    assert_eq!(session.dispatch("undo to:v"), r#"undone 2 events to checkpoint "v""#);
    assert_eq!(session.model, Some(vec!["-c".to_string(), "-b".to_string(), "rebuild".to_string()]));
    assert_eq!(session.dispatch("redo"), "redone 1 event");
    assert_eq!(
        session.model,
        Some(vec!["-c".to_string(), "-b".to_string(), "rebuild".to_string(), "+b".to_string(), "rebuild".to_string()])
    );
    assert_eq!(session.dispatch("undo"), "undone 1 event");
    assert_eq!(session.model.as_ref().unwrap()[5..], ["-b".to_string(), "rebuild".to_string()]);
}
