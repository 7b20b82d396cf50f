use fcp_rust::lsp::types::{DiagnosticSeverity, SymbolKind, WorkspaceEdit};

#[test]
fn test_symbol_kind_as_u32() {
    assert_eq!(serde_json::Value::from(SymbolKind::Function.to_u32()), serde_json::Value::from(12));
    assert_eq!(serde_json::Value::from(SymbolKind::Method.to_u32()), serde_json::Value::from(6));
    assert_eq!(serde_json::Value::from(SymbolKind::Struct.to_u32()), serde_json::Value::from(23));
    assert_eq!(serde_json::Value::from(SymbolKind::Enum.to_u32()), serde_json::Value::from(10));

    let deser = SymbolKind::from_u32(serde_json::Value::from(12).as_u64().unwrap() as u32);
    assert_eq!(deser, SymbolKind::Function);
    let deser = SymbolKind::from_u32(serde_json::Value::from(23).as_u64().unwrap() as u32);
    assert_eq!(deser, SymbolKind::Struct);
}

#[test]
fn symbol_kind_codes() {
    assert_eq!(SymbolKind::from_u32(99), SymbolKind::Other(99));
    assert_eq!(SymbolKind::Other(99).to_u32(), 99);
    assert_eq!(SymbolKind::from_u32(SymbolKind::Other(5).to_u32()), SymbolKind::Class);
}

#[test]
fn symbol_kind_names() {
    assert_eq!(SymbolKind::TypeParameter.kind_name(), "TypeParameter");
    assert_eq!(SymbolKind::Other(42).kind_name(), "SymbolKind(42)");
}

#[test]
fn test_diagnostic_severity_as_u32() {
    assert_eq!(serde_json::Value::from(DiagnosticSeverity::Error.to_u32()), serde_json::Value::from(1));
    assert_eq!(serde_json::Value::from(DiagnosticSeverity::Warning.to_u32()), serde_json::Value::from(2));
    assert_eq!(serde_json::Value::from(DiagnosticSeverity::Information.to_u32()), serde_json::Value::from(3));
    assert_eq!(serde_json::Value::from(DiagnosticSeverity::Hint.to_u32()), serde_json::Value::from(4));

    let deser = DiagnosticSeverity::from_u32(serde_json::Value::from(1).as_u64().unwrap() as u32);
    assert_eq!(deser, Some(DiagnosticSeverity::Error));
}

#[test]
fn diagnostic_severity_codes() {
    assert_eq!(DiagnosticSeverity::Error.to_u32(), 1);
    assert_eq!(DiagnosticSeverity::Warning.to_u32(), 2);
    assert_eq!(DiagnosticSeverity::Information.to_u32(), 3);
    assert_eq!(DiagnosticSeverity::Hint.to_u32(), 4);
    assert_eq!(DiagnosticSeverity::from_u32(1), Some(DiagnosticSeverity::Error));
    assert_eq!(DiagnosticSeverity::from_u32(0), None);
    assert_eq!(DiagnosticSeverity::from_u32(5), None);
}

#[test]
fn workspace_edit_default_is_empty() {
    let e = WorkspaceEdit::default();
    assert!(e.changes.is_none());
    assert!(e.document_changes.is_none());
}
