//! LSP 3.17 type definitions: the hand-rolled subset used by the server, as
//! plain data, with the numeric codes of symbol kinds and diagnostic
//! severities.
use vstd::prelude::*;
use crate::text::{concat3, decimal, usize_text};
use crate::text_map::TextMap;

verus! {

#[derive(Debug, Clone, Copy, PartialEq, Eq, Structural)]
pub struct Position {
    pub line: u32,
    pub character: u32,
}

#[derive(Debug, Clone, Copy, PartialEq, Eq, Structural)]
pub struct Range {
    pub start: Position,
    pub end: Position,
}

#[derive(Debug, Clone, PartialEq)]
pub struct Location {
    pub uri: String,
    pub range: Range,
}

#[derive(Debug, Clone, PartialEq)]
pub struct TextDocumentIdentifier {
    pub uri: String,
}

#[derive(Debug, Clone, PartialEq)]
pub struct TextDocumentPositionParams {
    pub text_document: TextDocumentIdentifier,
    pub position: Position,
}

#[derive(Debug, Clone, PartialEq)]
pub struct VersionedTextDocumentIdentifier {
    pub uri: String,
    pub version: i32,
}

#[derive(Debug, Clone, PartialEq)]
pub struct TextDocumentItem {
    pub uri: String,
    pub language_id: String,
    pub version: i32,
    pub text: String,
}

#[derive(Debug, Clone, PartialEq, Default)]
pub struct ClientCapabilities {
    pub general: Option<GeneralCapabilities>,
}

#[derive(Debug, Clone, PartialEq, Default)]
pub struct GeneralCapabilities {
    pub position_encodings: Option<Vec<String>>,
}

/// The kind of a symbol; codes outside the LSP range are kept as `Other`.
#[derive(Debug, Clone, Copy, PartialEq, Eq, Hash, Structural)]
pub enum SymbolKind {
    File,
    Module,
    Namespace,
    Package,
    Class,
    Method,
    Property,
    Field,
    Constructor,
    Enum,
    Interface,
    Function,
    Variable,
    Constant,
    String,
    Number,
    Boolean,
    Array,
    Object,
    Key,
    Null,
    EnumMember,
    Struct,
    Event,
    Operator,
    TypeParameter,
    Other(u32),
}

/// The LSP code of a symbol kind.
pub open spec fn kind_code(k: SymbolKind) -> u32 {
    match k {
            SymbolKind::File => 1,
            SymbolKind::Module => 2,
            SymbolKind::Namespace => 3,
            SymbolKind::Package => 4,
            SymbolKind::Class => 5,
            SymbolKind::Method => 6,
            SymbolKind::Property => 7,
            SymbolKind::Field => 8,
            SymbolKind::Constructor => 9,
            SymbolKind::Enum => 10,
            SymbolKind::Interface => 11,
            SymbolKind::Function => 12,
            SymbolKind::Variable => 13,
            SymbolKind::Constant => 14,
            SymbolKind::String => 15,
            SymbolKind::Number => 16,
            SymbolKind::Boolean => 17,
            SymbolKind::Array => 18,
            SymbolKind::Object => 19,
            SymbolKind::Key => 20,
            SymbolKind::Null => 21,
            SymbolKind::EnumMember => 22,
            SymbolKind::Struct => 23,
            SymbolKind::Event => 24,
            SymbolKind::Operator => 25,
            SymbolKind::TypeParameter => 26,
            SymbolKind::Other(v) => v,
    }
}

/// The symbol kind that an LSP code stands for.
pub open spec fn kind_of_code(v: u32) -> SymbolKind {
    match v {
        1 => SymbolKind::File,
        2 => SymbolKind::Module,
        3 => SymbolKind::Namespace,
        4 => SymbolKind::Package,
        5 => SymbolKind::Class,
        6 => SymbolKind::Method,
        7 => SymbolKind::Property,
        8 => SymbolKind::Field,
        9 => SymbolKind::Constructor,
        10 => SymbolKind::Enum,
        11 => SymbolKind::Interface,
        12 => SymbolKind::Function,
        13 => SymbolKind::Variable,
        14 => SymbolKind::Constant,
        15 => SymbolKind::String,
        16 => SymbolKind::Number,
        17 => SymbolKind::Boolean,
        18 => SymbolKind::Array,
        19 => SymbolKind::Object,
        20 => SymbolKind::Key,
        21 => SymbolKind::Null,
        22 => SymbolKind::EnumMember,
        23 => SymbolKind::Struct,
        24 => SymbolKind::Event,
        25 => SymbolKind::Operator,
        26 => SymbolKind::TypeParameter,
        _ => SymbolKind::Other(v),
    }
}

/// The text that names a symbol kind: its variant name, or `SymbolKind(N)`
/// for an unknown code.
pub open spec fn kind_name_text(k: SymbolKind) -> Seq<char> {
    match k {
            SymbolKind::File => "File"@,
            SymbolKind::Module => "Module"@,
            SymbolKind::Namespace => "Namespace"@,
            SymbolKind::Package => "Package"@,
            SymbolKind::Class => "Class"@,
            SymbolKind::Method => "Method"@,
            SymbolKind::Property => "Property"@,
            SymbolKind::Field => "Field"@,
            SymbolKind::Constructor => "Constructor"@,
            SymbolKind::Enum => "Enum"@,
            SymbolKind::Interface => "Interface"@,
            SymbolKind::Function => "Function"@,
            SymbolKind::Variable => "Variable"@,
            SymbolKind::Constant => "Constant"@,
            SymbolKind::String => "String"@,
            SymbolKind::Number => "Number"@,
            SymbolKind::Boolean => "Boolean"@,
            SymbolKind::Array => "Array"@,
            SymbolKind::Object => "Object"@,
            SymbolKind::Key => "Key"@,
            SymbolKind::Null => "Null"@,
            SymbolKind::EnumMember => "EnumMember"@,
            SymbolKind::Struct => "Struct"@,
            SymbolKind::Event => "Event"@,
            SymbolKind::Operator => "Operator"@,
            SymbolKind::TypeParameter => "TypeParameter"@,
            SymbolKind::Other(v) => "SymbolKind("@ + decimal(v as nat) + ")"@,
    }
}

impl SymbolKind {
    /// The LSP code of this kind.
    pub fn to_u32(self) -> (c: u32)
        ensures
            c == kind_code(self),
    {
        match self {
            SymbolKind::File => 1,
            SymbolKind::Module => 2,
            SymbolKind::Namespace => 3,
            SymbolKind::Package => 4,
            SymbolKind::Class => 5,
            SymbolKind::Method => 6,
            SymbolKind::Property => 7,
            SymbolKind::Field => 8,
            SymbolKind::Constructor => 9,
            SymbolKind::Enum => 10,
            SymbolKind::Interface => 11,
            SymbolKind::Function => 12,
            SymbolKind::Variable => 13,
            SymbolKind::Constant => 14,
            SymbolKind::String => 15,
            SymbolKind::Number => 16,
            SymbolKind::Boolean => 17,
            SymbolKind::Array => 18,
            SymbolKind::Object => 19,
            SymbolKind::Key => 20,
            SymbolKind::Null => 21,
            SymbolKind::EnumMember => 22,
            SymbolKind::Struct => 23,
            SymbolKind::Event => 24,
            SymbolKind::Operator => 25,
            SymbolKind::TypeParameter => 26,
            SymbolKind::Other(v) => v,
        }
    }

    /// The kind that an LSP code stands for; unknown codes become `Other`.
    pub fn from_u32(value: u32) -> (k: SymbolKind)
        ensures
            k == kind_of_code(value),
    {
        match value {
            1 => SymbolKind::File,
            2 => SymbolKind::Module,
            3 => SymbolKind::Namespace,
            4 => SymbolKind::Package,
            5 => SymbolKind::Class,
            6 => SymbolKind::Method,
            7 => SymbolKind::Property,
            8 => SymbolKind::Field,
            9 => SymbolKind::Constructor,
            10 => SymbolKind::Enum,
            11 => SymbolKind::Interface,
            12 => SymbolKind::Function,
            13 => SymbolKind::Variable,
            14 => SymbolKind::Constant,
            15 => SymbolKind::String,
            16 => SymbolKind::Number,
            17 => SymbolKind::Boolean,
            18 => SymbolKind::Array,
            19 => SymbolKind::Object,
            20 => SymbolKind::Key,
            21 => SymbolKind::Null,
            22 => SymbolKind::EnumMember,
            23 => SymbolKind::Struct,
            24 => SymbolKind::Event,
            25 => SymbolKind::Operator,
            26 => SymbolKind::TypeParameter,
            v => SymbolKind::Other(v),
        }
    }

    /// The name of this kind as its `Debug` text reads: the variant name, or
    /// `SymbolKind(N)` for an unknown code.
    pub fn kind_name(&self) -> (s: String)
        ensures
            s@ == kind_name_text(*self),
    {
        match *self {
            SymbolKind::File => String::from_str("File"),
            SymbolKind::Module => String::from_str("Module"),
            SymbolKind::Namespace => String::from_str("Namespace"),
            SymbolKind::Package => String::from_str("Package"),
            SymbolKind::Class => String::from_str("Class"),
            SymbolKind::Method => String::from_str("Method"),
            SymbolKind::Property => String::from_str("Property"),
            SymbolKind::Field => String::from_str("Field"),
            SymbolKind::Constructor => String::from_str("Constructor"),
            SymbolKind::Enum => String::from_str("Enum"),
            SymbolKind::Interface => String::from_str("Interface"),
            SymbolKind::Function => String::from_str("Function"),
            SymbolKind::Variable => String::from_str("Variable"),
            SymbolKind::Constant => String::from_str("Constant"),
            SymbolKind::String => String::from_str("String"),
            SymbolKind::Number => String::from_str("Number"),
            SymbolKind::Boolean => String::from_str("Boolean"),
            SymbolKind::Array => String::from_str("Array"),
            SymbolKind::Object => String::from_str("Object"),
            SymbolKind::Key => String::from_str("Key"),
            SymbolKind::Null => String::from_str("Null"),
            SymbolKind::EnumMember => String::from_str("EnumMember"),
            SymbolKind::Struct => String::from_str("Struct"),
            SymbolKind::Event => String::from_str("Event"),
            SymbolKind::Operator => String::from_str("Operator"),
            SymbolKind::TypeParameter => String::from_str("TypeParameter"),
            SymbolKind::Other(v) => concat3("SymbolKind(", usize_text(v as usize).as_str(), ")"),
        }
    }
}

/// The names of the LSP symbol kinds, in the order of their codes 1 to 26,
/// as the LSP specification lists them.
pub open spec fn lsp_symbol_kind_names() -> Seq<Seq<char>> {
    seq![
        "File"@,
        "Module"@,
        "Namespace"@,
        "Package"@,
        "Class"@,
        "Method"@,
        "Property"@,
        "Field"@,
        "Constructor"@,
        "Enum"@,
        "Interface"@,
        "Function"@,
        "Variable"@,
        "Constant"@,
        "String"@,
        "Number"@,
        "Boolean"@,
        "Array"@,
        "Object"@,
        "Key"@,
        "Null"@,
        "EnumMember"@,
        "Struct"@,
        "Event"@,
        "Operator"@,
        "TypeParameter"@,
    ]
}

/// The name of the kind that each code from 1 to 26 stands for is the LSP
/// specification's name for that code.
pub proof fn law_kind_names_follow_lsp(c: u32)
    requires
        1 <= c <= 26,
    ensures
        kind_name_text(kind_of_code(c)) == lsp_symbol_kind_names()[c - 1],
{
}

/// Reading back the code of a kind gives the kind, except for `Other` codes
/// that name a known kind.
pub proof fn law_kind_code_roundtrip(k: SymbolKind)
    requires
        !(k matches SymbolKind::Other(v) && 1 <= v <= 26),
    ensures
        kind_of_code(kind_code(k)) == k,
{
}

/// Every code reads back to itself through its kind.
pub proof fn law_code_kind_roundtrip(v: u32)
    ensures
        kind_code(kind_of_code(v)) == v,
{
}

#[derive(Debug, Clone, Copy, PartialEq, Eq, Structural)]
pub enum DiagnosticSeverity {
    Error,
    Warning,
    Information,
    Hint,
}

/// The LSP code of a diagnostic severity.
pub open spec fn severity_code(s: DiagnosticSeverity) -> u32 {
    match s {
        DiagnosticSeverity::Error => 1,
        DiagnosticSeverity::Warning => 2,
        DiagnosticSeverity::Information => 3,
        DiagnosticSeverity::Hint => 4,
    }
}

/// The severity that an LSP code stands for, if any.
pub open spec fn severity_of_code(v: u32) -> Option<DiagnosticSeverity> {
    match v {
        1 => Some(DiagnosticSeverity::Error),
        2 => Some(DiagnosticSeverity::Warning),
        3 => Some(DiagnosticSeverity::Information),
        4 => Some(DiagnosticSeverity::Hint),
        _ => None,
    }
}

impl DiagnosticSeverity {
    /// The LSP code of this severity.
    pub fn to_u32(self) -> (c: u32)
        ensures
            c == severity_code(self),
    {
        match self {
            DiagnosticSeverity::Error => 1,
            DiagnosticSeverity::Warning => 2,
            DiagnosticSeverity::Information => 3,
            DiagnosticSeverity::Hint => 4,
        }
    }

    /// The severity that an LSP code stands for; `None` for codes other than
    /// 1 to 4.
    pub fn from_u32(value: u32) -> (s: Option<DiagnosticSeverity>)
        ensures
            s == severity_of_code(value),
    {
        match value {
            1 => Some(DiagnosticSeverity::Error),
            2 => Some(DiagnosticSeverity::Warning),
            3 => Some(DiagnosticSeverity::Information),
            4 => Some(DiagnosticSeverity::Hint),
            _ => None,
        }
    }
}

/// A severity reads back from its code, and exactly the codes 1 to 4 name a
/// severity.
pub proof fn law_severity_code_roundtrip(s: DiagnosticSeverity, v: u32)
    ensures
        severity_of_code(severity_code(s)) == Some(s),
        severity_of_code(v) is Some <==> 1 <= v <= 4,
        severity_of_code(v) matches Some(t) ==> severity_code(t) == v,
{
}

#[derive(Debug, Clone, PartialEq)]
pub struct SymbolInformation {
    pub name: String,
    pub kind: SymbolKind,
    pub location: Location,
    pub container_name: Option<String>,
}

#[derive(Debug, PartialEq)]
pub struct DocumentSymbol {
    pub name: String,
    pub kind: SymbolKind,
    pub range: Range,
    pub selection_range: Range,
    pub children: Option<Vec<DocumentSymbol>>,
}

#[derive(Debug, Clone, PartialEq)]
pub struct Hover {
    pub contents: HoverContents,
    pub range: Option<Range>,
}

#[derive(Debug, Clone, PartialEq)]
pub enum HoverContents {
    MarkedString(String),
    MarkupContent(MarkupContent),
    MarkedStringArray(Vec<String>),
}

#[derive(Debug, Clone, PartialEq)]
pub struct MarkupContent {
    pub kind: String,
    pub value: String,
}

#[derive(Debug, Clone, PartialEq)]
pub struct CallHierarchyItem {
    pub name: String,
    pub kind: SymbolKind,
    pub uri: String,
    pub range: Range,
    pub selection_range: Range,
}

#[derive(Debug, Clone, PartialEq)]
pub struct CallHierarchyIncomingCall {
    pub from: CallHierarchyItem,
    pub from_ranges: Vec<Range>,
}

#[derive(Debug, Clone, PartialEq)]
pub struct CallHierarchyOutgoingCall {
    pub to: CallHierarchyItem,
    pub from_ranges: Vec<Range>,
}

#[derive(Debug, Clone, PartialEq)]
pub struct WorkspaceSymbolParams {
    pub query: String,
}

#[derive(Debug, Clone, PartialEq)]
pub struct DidOpenTextDocumentParams {
    pub text_document: TextDocumentItem,
}

#[derive(Debug, Clone, PartialEq)]
pub struct DidCloseTextDocumentParams {
    pub text_document: TextDocumentIdentifier,
}

#[derive(Debug, Clone, PartialEq)]
pub struct TextEdit {
    pub range: Range,
    pub new_text: String,
}

#[derive(Debug, Clone, PartialEq)]
pub struct OptionalVersionedTextDocumentIdentifier {
    pub uri: String,
    pub version: Option<i32>,
}

#[derive(Debug, Clone, PartialEq)]
pub struct TextDocumentEdit {
    pub text_document: OptionalVersionedTextDocumentIdentifier,
    pub edits: Vec<TextEdit>,
}

/// LSP ResourceOperation for file create/rename/delete.
#[derive(Debug, Clone, PartialEq)]
pub enum ResourceOperation {
    Create { uri: String },
    Rename { old_uri: String, new_uri: String },
    Delete { uri: String },
}

/// A document change is either a TextDocumentEdit or a ResourceOperation.
#[derive(Debug, Clone, PartialEq)]
pub enum DocumentChange {
    Edit(TextDocumentEdit),
    Operation(ResourceOperation),
}

#[derive(Debug, Clone)]
pub struct WorkspaceEdit {
    /// Simple form: uri to edits.
    pub changes: Option<TextMap<Vec<TextEdit>>>,
    /// Rich form (preferred by rust-analyzer): ordered document changes.
    pub document_changes: Option<Vec<DocumentChange>>,
}

#[derive(Debug, Clone)]
pub struct CodeAction {
    pub title: String,
    pub kind: Option<String>,
    pub edit: Option<WorkspaceEdit>,
    pub is_preferred: Option<bool>,
}

impl Default for WorkspaceEdit {
    /// An edit with neither form present.
    fn default() -> (e: Self)
        ensures
            e.changes is None,
            e.document_changes is None,
    {
        WorkspaceEdit { changes: None, document_changes: None }
    }
}

} // verus!
