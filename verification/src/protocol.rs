//! Data types of the language server protocol, as far as this server uses
//! or announces them.
use vstd::prelude::*;

verus! {

/// Opaque JSON value carried through unchanged.
#[verifier::external_type_specification]
#[verifier::external_body]
pub struct ExJsonValue(serde_json::Value);

/// A position in a text document: zero-based line and UTF-16 code unit offset.
#[derive(Clone, Copy, Debug, PartialEq, Eq, Structural)]
pub struct Position {
    pub line: u32,
    pub character: u32,
}

/// A span between two positions; `end` is exclusive.
#[derive(Clone, Copy, Debug, PartialEq, Eq, Structural)]
pub struct Range {
    pub start: Position,
    pub end: Position,
}

/// `a` comes before `b`: an earlier line, or the same line and an earlier
/// character.
pub open spec fn position_before(a: Position, b: Position) -> bool {
    a.line < b.line || (a.line == b.line && a.character < b.character)
}

/// `a` comes before `b` or equals it.
pub open spec fn position_at_or_before(a: Position, b: Position) -> bool {
    position_before(a, b) || a == b
}

/// `outer` spans all of `inner`.
pub open spec fn range_contains(outer: Range, inner: Range) -> bool {
    position_at_or_before(outer.start, inner.start) && position_at_or_before(inner.end, outer.end)
}

impl Position {
    pub fn before(&self, other: &Position) -> (r: bool)
        ensures
            r == position_before(*self, *other),
    {
        self.line < other.line || (self.line == other.line && self.character < other.character)
    }

    pub fn at_or_before(&self, other: &Position) -> (r: bool)
        ensures
            r == position_at_or_before(*self, *other),
    {
        self.line < other.line || (self.line == other.line && self.character <= other.character)
    }
}

impl Range {
    /// Whether this range spans all of `other`.
    pub fn contains(&self, other: &Range) -> (r: bool)
        ensures
            r == range_contains(*self, *other),
    {
        self.start.at_or_before(&other.start) && other.end.at_or_before(&self.end)
    }
}

#[derive(Clone, Debug, PartialEq)]
pub struct TextDocumentContentChangeEvent {
    pub range: Range,
    pub text: String,
}

#[derive(Clone, Debug, PartialEq)]
pub struct TextDocumentIdentifier {
    pub uri: DocumentUri,
}

#[derive(Clone, Debug, PartialEq)]
pub struct VersionedTextDocumentIdentifier {
    pub uri: DocumentUri,
    pub version: i64,
}

#[derive(Clone, Debug, PartialEq)]
pub struct DidChangeTextDocumentParams {
    pub text_document: VersionedTextDocumentIdentifier,
    pub content_changes: Vec<TextDocumentContentChangeEvent>,
}

#[derive(Clone, Debug, PartialEq)]
pub struct DidCloseTextDocumentParams {
    pub text_document: TextDocumentIdentifier,
}

#[derive(Clone, Debug, PartialEq)]
pub struct FoldingRange {
    pub start_line: u32,
    pub start_character: Option<u32>,
    pub end_line: u32,
    pub end_character: Option<u32>,
    pub kind: Option<FoldingRangeKind>,
    pub collapsed_text: Option<String>,
}

#[derive(Clone, Debug, PartialEq)]
pub struct FoldingRangeParams {
    pub text_document: TextDocumentIdentifier,
}

#[derive(Clone, Debug, PartialEq)]
pub struct SemanticTokens {
    pub result_id: Option<String>,
    pub data: Vec<u32>,
}

#[derive(Clone, Debug, PartialEq)]
pub struct SemanticTokensParams {
    pub text_document: TextDocumentIdentifier,
}

#[derive(Clone, Debug, PartialEq)]
pub struct SemanticTokensRangeParams {
    pub text_document: TextDocumentIdentifier,
    pub range: Range,
}

#[derive(Clone, Debug, PartialEq)]
pub struct Location {
    pub uri: DocumentUri,
    pub range: Range,
}

#[derive(Clone, Debug, PartialEq)]
pub struct LocationLink {
    pub origin_selection_range: Option<Range>,
    pub target_uri: DocumentUri,
    pub target_range: Range,
    pub target_selection_range: Range,
}

#[derive(Clone, Debug, PartialEq)]
pub struct WorkDoneProgressBegin {
    pub title: String,
    pub cancellable: Option<bool>,
    pub message: Option<String>,
    pub percentage: Option<u32>,
}

#[derive(Clone, Debug, PartialEq)]
pub struct WorkDoneProgressReport {
    pub cancellable: Option<bool>,
    pub message: Option<String>,
    pub percentage: Option<u32>,
}

#[derive(Clone, Debug, PartialEq)]
pub struct WorkDoneProgressEnd {
    pub message: Option<String>,
}

#[derive(Clone, Debug, PartialEq)]
pub enum WorkDoneProgressValue {
    Begin(WorkDoneProgressBegin),
    Report(WorkDoneProgressReport),
    End(WorkDoneProgressEnd),
}

#[derive(Clone, Debug, PartialEq)]
pub struct ProgressParams {
    pub token: ProgressToken,
    pub value: WorkDoneProgressValue,
}

#[derive(Clone, Debug, PartialEq)]
pub struct WorkDoneProgressCreateParams {
    pub token: ProgressToken,
}

#[derive(Clone, Debug, PartialEq)]
pub struct WorkDoneProgressCancelParams {
    pub token: ProgressToken,
}

#[derive(Clone, Copy, Debug, PartialEq, Eq, Structural)]
pub struct ReferenceContext {
    pub include_declaration: bool,
}

#[derive(Clone, Debug, PartialEq)]
pub struct ReferenceParams {
    pub text_document: TextDocumentIdentifier,
    pub position: Position,
    pub context: ReferenceContext,
}

#[derive(Clone, Debug, PartialEq)]
pub struct DefinitionParams {
    pub text_document: TextDocumentIdentifier,
    pub position: Position,
}

#[derive(Clone, Debug, PartialEq)]
pub struct FileRename {
    pub old_uri: String,
    pub new_uri: String,
}

#[derive(Clone, Debug, PartialEq)]
pub struct RenameFilesParams {
    pub files: Vec<FileRename>,
}

pub type DocumentUri = String;
pub type DocumentSelector = Vec<DocumentFilter>;
pub type ProgressToken = NumberOrString;
pub type Uri = String;

#[derive(Debug, PartialEq)]
pub enum ErrorCodes {
    ParseError,
    InvalidRequest,
    MethodNotFound,
    InvalidParams,

    #[allow(dead_code)]
    InternalError,
    ServerNotInitialized,

    #[allow(dead_code)]
    UnknownErrorCode,

    #[allow(dead_code)]
    RequestFailed,

    #[allow(dead_code)]
    ServerCancelled,

    #[allow(dead_code)]
    ContentModified,

    #[allow(dead_code)]
    RequestCancelled,
}

#[derive(Debug, PartialEq)]
pub enum ResourceOperationKind {
    Create,
    Rename,
    Delete,
}

#[derive(Debug, PartialEq)]
pub enum FailureHandlingKind {
    Abort,
    Transactional,
    Undo,
    TextOnlyTransactional,
}

#[derive(Debug, PartialEq)]
pub enum SymbolKind {
    File,
    Module,
    Namespace,
    Package,
    Class,
    Method,
    Property,
    Field,
    Constructor,
    Enum,
    Interface,
    Function,
    Variable,
    Constant,
    String,
    Number,
    Boolean,
    Array,
    Object,
    Key,
    Null,
    EnumMember,
    Struct,
    Event,
    Operator,
    TypeParameter,
}

#[derive(Debug, PartialEq)]
pub enum SymbolTag {
    Deprecated,
}

#[derive(Debug, PartialEq)]
pub enum CompletionItemTag {
    Deprecated,
}

#[derive(Debug, PartialEq)]
pub enum InsertTextMode {
    AsIs,
    AdjustIndentation,
}

#[derive(Debug, PartialEq)]
pub enum CompletionItemKind {
    Text,
    Method,
    Function,
    Constructor,
    Field,
    Variable,
    Class,
    Interface,
    Module,
    Property,
    Unit,
    Value,
    Enum,
    Keyword,
    Snippet,
    Color,
    File,
    Reference,
    Folder,
    EnumMember,
    Constant,
    Struct,
    Event,
    Operator,
    TypeParameter,
}

#[derive(Debug, PartialEq)]
pub enum CodeActionTag {
    LlmGenerated,
}

#[derive(Debug, PartialEq)]
pub enum PrepareSupportDefaultBehavior {
    Identifier,
}

#[derive(Debug, PartialEq)]
pub enum DiagnosticTag {
    Unnecessary,
    Deprecated,
}

#[allow(dead_code)]
#[derive(Debug, PartialEq)]
pub enum InitializeErrorCodes {
    UnknownProtocolVersion,
}

#[allow(dead_code)]
#[derive(Debug, PartialEq)]
pub enum TextDocumentSyncKind {
    NoSync,
    Full,
    Incremental,
}

#[derive(Debug, PartialEq)]
pub enum MarkupKind {
    PlainText,
    Markdown,
}

#[derive(Debug, PartialEq)]
pub enum CodeActionKind {
    Empty,

    QuickFix,

    Refactor,

    RefactorExtract,

    RefactorInline,

    RefactorMove,

    RefactorRewrite,

    Source,

    SourceOrganizeImports,

    SourceFixAll,

    Notebook,
}

#[derive(Clone, Copy, Debug, PartialEq, Eq, Structural)]
pub enum FoldingRangeKind {
    Comment,
    Imports,
    Region,
}

#[allow(dead_code)]
#[derive(Debug, PartialEq)]
pub enum SemanticTokenFullRequestsCapabilities {
    Bool(bool),
    Delta {
        delta: Option<bool>,
    },
}

#[derive(Debug, PartialEq)]
pub enum TokenFormat {
    Relative,
}

#[derive(Debug, PartialEq)]
pub enum PositionEncodingKind {
    Utf8,

    Utf16,

    Utf32,
}

#[derive(Copy, Clone, Debug, PartialEq, Eq, Structural)]
pub enum TraceValue {
    Off,
    Messages,
    Verbose,
}

#[allow(dead_code)]
#[derive(Debug, PartialEq)]
pub enum ProgressTokenKind {
    Number(i32),
    String(String),
}

#[derive(Debug, Clone, PartialEq, Eq)]
pub enum NumberOrString {
    Number(i64),
    String(String),
}

#[derive(Debug, PartialEq)]
pub enum TextDocumentSyncServerCapabilities {
    TextDocumentSyncOptions,
    TextDocumentSyncKind,
}

#[derive(Debug, PartialEq)]
pub enum NotebookDocumentSyncServerCapabilities {
    NotebookDocumentSyncOptions(NotebookDocumentSyncOptions),
    NotebookDocumentSyncRegistrationOptions(NotebookDocumentSyncRegistrationOptions),
}

#[derive(Debug, PartialEq)]
pub enum NotebookSelector {
    NotebookSelectorByNotebook(NotebookSelectorByNotebook),
    NotebookSelectorByCell(NotebookSelectorByCell),
}

#[derive(Debug, PartialEq)]
pub enum NotebookSelectorNotebook {
    String(String),
    NotebookDocumentFilter,
}

#[allow(dead_code)]
#[derive(Debug, PartialEq)]
pub enum NotebookDocumentFilter {
    NotebookDocumentFilterByType(NotebookDocumentFilterByType),
    NotebookDocumentFilterByScheme(NotebookDocumentFilterByScheme),
    NotebookDocumentFilterByPattern(NotebookDocumentFilterByPattern),
}

#[derive(Debug, PartialEq)]
pub enum GlobPattern {
    String(String),
    RelativePattern(RelativePattern),
}

#[derive(Debug, PartialEq)]
pub enum HoverProvider {
    Bool(bool),
    HoverOptions(HoverOptions),
}

#[derive(Debug, PartialEq)]
pub enum DeclarationProvider {
    Bool(bool),
    DeclarationOptions(DeclarationOptions),
    DeclarationRegistrationOptions(DeclarationRegistrationOptions),
}

#[derive(Debug, PartialEq)]
pub enum DefinitionProvider {
    Bool(bool),
    DefinitionOptions(DefinitionOptions),
}

#[derive(Debug, PartialEq)]
pub enum TypeDefinitionProvider {
    Bool(bool),
    TypeDefinitionOptions(TypeDefinitionOptions),
    TypeDefinitionRegistrationOptions(TypeDefinitionRegistrationOptions),
}

#[derive(Debug, PartialEq)]
pub enum ImplementationProvider {
    Bool(bool),
    ImplementationOptions(ImplementationOptions),
    ImplementationRegistrationOptions(ImplementationRegistrationOptions),
}

#[derive(Debug, PartialEq)]
pub enum ReferencesProvider {
    Bool(bool),
    ReferenceOptions(ReferenceOptions),
}

#[derive(Debug, PartialEq)]
pub enum DocumentHighlightProvider {
    Bool(bool),
    DocumentHighlightOptions(DocumentHighlightOptions),
}

#[derive(Debug, PartialEq)]
pub enum DocumentSymbolProvider {
    Bool(bool),
    DocumentSymbolOptions(DocumentSymbolOptions),
}

#[derive(Debug, PartialEq)]
pub enum CodeActionProvider {
    Bool(bool),
    CodeActionOptions(CodeActionOptions),
}

#[derive(Debug, PartialEq)]
pub enum ColorProvider {
    Bool(bool),
    DocumentColorOptions(DocumentColorOptions),
    DocumentColorRegistrationOptions(DocumentColorRegistrationOptions),
}

#[derive(Debug, PartialEq)]
pub enum DocumentFormattingProvider {
    Bool(bool),
    DocumentFormattingOptions(DocumentFormattingOptions),
}

#[derive(Debug, PartialEq)]
pub enum DocumentRangeFormattingProvider {
    Bool(bool),
    DocumentRangeFormattingOptions(DocumentRangeFormattingOptions),
}

#[derive(Debug, PartialEq)]
pub enum RenameProvider {
    Bool(bool),
    RenameOptions(RenameOptions),
}

#[derive(Debug, PartialEq)]
pub enum FoldingRangeProvider {
    Bool(bool),
    FoldingRangeOptions(FoldingRangeOptions),
    FoldingRangeRegistrationOptions(FoldingRangeRegistrationOptions),
}

#[derive(Debug, PartialEq)]
pub enum SelectionRangeProvider {
    Bool(bool),
    SelectionRangeOptions(SelectionRangeOptions),
    SelectionRangeRegistrationOptions(SelectionRangeRegistrationOptions),
}

#[derive(Debug, PartialEq)]
pub enum LinkedEditingRangeProvider {
    Bool(bool),
    LinkedEditingRangeOptions(LinkedEditingRangeOptions),
    LinkedEditingRangeRegistrationOptions(LinkedEditingRangeRegistrationOptions),
}

#[derive(Debug, PartialEq)]
pub enum CallHierarchyProvider {
    Bool(bool),
    CallHierarchyOptions(CallHierarchyOptions),
    CallHierarchyRegistrationOptions(CallHierarchyRegistrationOptions),
}

#[derive(Debug, PartialEq)]
pub enum SemanticTokensProvider {
    SemanticTokensOptions(SemanticTokensOptions),
    SemanticTokensRegistrationOptions(SemanticTokensRegistrationOptions),
}

#[derive(Debug, PartialEq)]
pub enum SemanticTokensFullDocumentCapabilities {
    Bool(bool),
    Delta {
        delta: Option<bool>,
    },
}

#[derive(Debug, PartialEq)]
pub enum MonikerProvider {
    Bool(bool),
    MonikerOptions(MonikerOptions),
    MonikerRegistrationOptions(MonikerRegistrationOptions),
}

#[derive(Debug, PartialEq)]
pub enum TypeHierarchyProvider {
    Bool(bool),
    TypeHierarchyOptions(TypeHierarchyOptions),
    TypeHierarchyRegistrationOptions(TypeHierarchyRegistrationOptions),
}

#[derive(Debug, PartialEq)]
pub enum InlineValueProvider {
    Bool(bool),
    InlineValueOptions(InlineValueOptions),
    InlineValueRegistrationOptions(InlineValueRegistrationOptions),
}

#[derive(Debug, PartialEq)]
pub enum InlayHintProvider {
    Bool(bool),
    InlayHintOptions(InlayHintOptions),
    InlayHintRegistrationOptions(InlayHintRegistrationOptions),
}

#[derive(Debug, PartialEq)]
pub enum DiagnosticProvider {
    DiagnosticOptions(DiagnosticOptions),
    DiagnosticRegistrationOptions(DiagnosticRegistrationOptions),
}

#[derive(Debug, PartialEq)]
pub enum WorkspaceSymbolProvider {
    Bool(bool),
    WorkspaceSymbolOptions(WorkspaceSymbolOptions),
}

#[derive(Debug, PartialEq)]
pub enum InlineCompletionProvider {
    Bool(bool),
    InlineCompletionOptions(InlineCompletionOptions),
}

#[derive(Debug, PartialEq)]
pub enum ChangeNotifications {
    String(String),
    Bool(bool),
}

#[derive(Debug, PartialEq)]
pub enum FileOperationPatternKind {
    File,
    Folder,
}

#[derive(Debug, PartialEq)]
pub struct ResponseError {
    pub code: i64,
    pub message: String,

    pub data: Option<serde_json::Value>,
}

#[derive(Debug, PartialEq)]
pub struct InitializedParams {}

#[derive(Debug, PartialEq)]
pub struct InitializeParams {
    pub process_id: Option<i64>,

    #[allow(dead_code)]
    pub client_info: Option<ClientInfo>,

    #[allow(dead_code)]
    pub locale: Option<String>,

    #[allow(dead_code)]
    pub root_path: Option<String>,

    #[allow(dead_code)]
    pub root_uri: Option<Uri>,

    #[allow(dead_code)]
    pub initialization_options: Option<serde_json::Value>,

    #[allow(dead_code)]
    pub capabilities: ClientCapabilities,

    pub trace: Option<TraceValue>,

    #[allow(dead_code)]
    pub workspace_folders: Option<Vec<WorkspaceFolder>>,

    #[allow(dead_code)]
    pub work_done_token: Option<WorkDoneProgressParams>,
}

#[allow(dead_code)]
#[derive(Debug, PartialEq)]
pub struct ClientInfo {
    name: String,

    version: Option<String>,
}

#[allow(dead_code)]
#[derive(Debug, PartialEq)]
pub struct ClientCapabilities {
    pub workspace: Option<WorkspaceClientCapabilities>,

    pub text_document: Option<TextDocumentClientCapabilities>,

    pub notebook_document: Option<NotebookDocumentClientCapabilities>,

    pub window: Option<WindowClientCapabilities>,

    pub general: Option<GeneralClientCapabilities>,

    pub experimental: Option<serde_json::Value>,
}

#[allow(dead_code)]
#[derive(Debug, PartialEq)]
pub struct WorkspaceClientCapabilities {
    apply_edit: Option<bool>,

    workspace_edit: Option<WorkspaceEditClientCapabilities>,

    did_change_configuration: Option<DidChangeConfigurationClientCapabilities>,

    did_change_watched_files: Option<DidChangeWatchedFilesClientCapabilities>,

    symbol: Option<WorkspaceSymbolClientCapabilities>,

    execute_command: Option<ExecuteCommandClientCapabilities>,

    workspace_folders: Option<bool>,

    configuration: Option<bool>,

    semantic_tokens: Option<SemanticTokensWorkspaceClientCapabilities>,

    code_lens: Option<CodeLensWorkspaceClientCapabilities>,

    file_operations: Option<FileOperationsWorkspaceClientCapabilities>,

    inline_value: Option<InlineValueWorkspaceClientCapabilities>,

    inlay_hint: Option<InlayHintWorkspaceClientCapabilities>,

    diagnostics: Option<DiagnosticWorkspaceClientCapabilities>,
}

#[allow(dead_code)]
#[derive(Debug, PartialEq)]
pub struct WorkspaceEditClientCapabilities {
    document_changes: Option<bool>,

    resource_operations: Option<Vec<ResourceOperationKind>>,

    failure_handling: Option<FailureHandlingKind>,

    normalizes_line_endings: Option<bool>,

    change_annotation_support: Option<ChangeAnnotation>,

    metadata_support: Option<bool>,

    snippet_edit_support: Option<bool>,
}

#[allow(dead_code)]
#[derive(Debug, PartialEq)]
pub struct ChangeAnnotation {
    groups_on_label: Option<bool>,
}

#[allow(dead_code)]
#[derive(Debug, PartialEq)]
pub struct DidChangeConfigurationClientCapabilities {
    dynamic_registration: Option<bool>,
}

#[allow(dead_code)]
#[derive(Debug, PartialEq)]
pub struct DidChangeWatchedFilesClientCapabilities {
    dynamic_registration: Option<bool>,

    relative_pattern_support: Option<bool>,
}

#[allow(dead_code)]
#[derive(Debug, PartialEq)]
pub struct WorkspaceSymbolClientCapabilities {
    dynamic_registration: Option<bool>,

    symbol_kind: Option<SymbolKindCapabilities>,

    tag_support: Option<SymbolTagSupportCapabilities>,

    resolve_support: Option<ResolveSupportWorkspaceSymbolClientCapabilities>,
}

#[allow(dead_code)]
#[derive(Debug, PartialEq)]
pub struct SymbolKindCapabilities {
    value_set: Option<Vec<SymbolKind>>,
}

#[allow(dead_code)]
#[derive(Debug, PartialEq)]
pub struct SymbolTagSupportCapabilities {
    value_set: Vec<SymbolTag>,
}

#[allow(dead_code)]
#[derive(Debug, PartialEq)]
pub struct ResolveSupportWorkspaceSymbolClientCapabilities {
    properties: Vec<String>,
}

#[allow(dead_code)]
#[derive(Debug, PartialEq)]
pub struct ExecuteCommandClientCapabilities {
    dynamic_registration: Option<bool>,
}

#[allow(dead_code)]
#[derive(Debug, PartialEq)]
pub struct SemanticTokensWorkspaceClientCapabilities {
    refresh_support: Option<bool>,
}

#[allow(dead_code)]
#[derive(Debug, PartialEq)]
pub struct CodeLensWorkspaceClientCapabilities {
    refresh_support: Option<bool>,
}

#[allow(dead_code)]
#[derive(Debug, PartialEq)]
pub struct FileOperationsWorkspaceClientCapabilities {
    dynamic_registration: Option<bool>,

    did_create: Option<bool>,

    will_create: Option<bool>,

    did_rename: Option<bool>,

    will_rename: Option<bool>,

    did_delete: Option<bool>,

    will_delete: Option<bool>,
}

#[allow(dead_code)]
#[derive(Debug, PartialEq)]
pub struct InlineValueWorkspaceClientCapabilities {
    refresh_support: Option<bool>,
}

#[allow(dead_code)]
#[derive(Debug, PartialEq)]
pub struct InlayHintWorkspaceClientCapabilities {
    refresh_support: Option<bool>,
}

#[allow(dead_code)]
#[derive(Debug, PartialEq)]
pub struct DiagnosticWorkspaceClientCapabilities {
    refresh_support: Option<bool>,
}

#[allow(dead_code)]
#[derive(Debug, PartialEq)]
pub struct TextDocumentClientCapabilities {
    synchronization: Option<TextDocumentSyncClientCapabilities>,

    filters: Option<TextDocumentFilterClientCapabilities>,

    completion: Option<CompletionClientCapabilities>,

    hover: Option<HoverClientCapabilities>,

    signature_help: Option<SignatureHelpClientCapabilities>,

    declaration: Option<DeclarationClientCapabilities>,

    definition: Option<DefinitionClientCapabilities>,

    type_definition: Option<TypeDefinitionClientCapabilities>,

    implementation: Option<ImplementationClientCapabilities>,

    references: Option<ReferenceClientCapabilities>,

    document_highlight: Option<DocumentHighlightClientCapabilities>,

    document_symbol: Option<DocumentSymbolClientCapabilities>,

    code_action: Option<CodeActionClientCapabilities>,

    code_lens: Option<CodeLensClientCapabilities>,

    document_link: Option<DocumentLinkClientCapabilities>,

    color_provider: Option<DocumentColorClientCapabilities>,

    formatting: Option<DocumentFormattingClientCapabilities>,

    range_formatting: Option<DocumentRangeFormattingClientCapabilities>,

    on_type_formatting: Option<DocumentOnTypeFormattingClientCapabilities>,

    rename: Option<RenameClientCapabilities>,

    publish_diagnostics: Option<PublishDiagnosticsClientCapabilities>,

    folding_range: Option<FoldingRangeClientCapabilities>,

    selection_range: Option<SelectionRangeClientCapabilities>,

    linked_editing_range: Option<LinkedEditingRangeClientCapabilities>,

    call_hierarchy: Option<CallHierarchyClientCapabilities>,

    semantic_tokens: Option<SemanticTokensClientCapabilities>,

    moniker: Option<MonikerClientCapabilities>,

    type_hierarchy: Option<TypeHierarchyClientCapabilities>,

    inline_value: Option<InlineValueClientCapabilities>,

    inlay_hint: Option<InlayHintClientCapabilities>,

    diagnostic: Option<DiagnosticClientCapabilities>,

    inline_completion: Option<InlineCompletionClientCapabilities>,
}

#[allow(dead_code)]
#[derive(Debug, PartialEq)]
pub struct TextDocumentSyncClientCapabilities {
    dynamic_registration: Option<bool>,

    will_save: Option<bool>,

    will_save_wait_until: Option<bool>,

    did_save: Option<bool>,
}

#[allow(dead_code)]
#[derive(Debug, PartialEq)]
pub struct TextDocumentFilterClientCapabilities {
    relative_pattern_support: Option<bool>,
}

#[allow(dead_code)]
#[derive(Debug, PartialEq)]
pub struct CompletionClientCapabilities {
    dynamic_registration: Option<bool>,

    completion_item: Option<CompletionItemCompletionClientCapabilities>,

    completion_item_kind: Option<CompletionItemKindCompletionClientCapabilities>,

    context_support: Option<bool>,

    insert_text_mode: InsertTextMode,

    completion_list: Option<CompletionListCompletionClientCapabilities>,
}

#[allow(dead_code)]
#[derive(Debug, PartialEq)]
pub struct CompletionItemCompletionClientCapabilities {
    snippet_support: Option<bool>,

    commit_characters_support: Option<bool>,

    documentation_format: Option<Vec<MarkupKind>>,

    deprecated_support: Option<bool>,

    preselect_support: Option<bool>,

    tag_support: Option<TagSupportCompletionItemCompletionClientCapabilities>,

    insert_replace_support: Option<bool>,

    resolve_support: Option<ResolveSupportCompletionItemCompletionClientCapabilities>,

    insert_text_mode_support:
        Option<InsertTextModeSupportCompletionItemCompletionClientCapabilities>,

    label_details_support: Option<bool>,
}

#[allow(dead_code)]
#[derive(Debug, PartialEq)]
pub struct TagSupportCompletionItemCompletionClientCapabilities {
    value_set: Vec<CompletionItemTag>,
}

#[allow(dead_code)]
#[derive(Debug, PartialEq)]
pub struct ResolveSupportCompletionItemCompletionClientCapabilities {
    properties: Vec<String>,
}

#[allow(dead_code)]
#[derive(Debug, PartialEq)]
pub struct InsertTextModeSupportCompletionItemCompletionClientCapabilities {
    value_set: Vec<InsertTextMode>,
}

#[allow(dead_code)]
#[derive(Debug, PartialEq)]
pub struct CompletionItemKindCompletionClientCapabilities {
    value_set: Vec<CompletionItemKind>,
}

#[allow(dead_code)]
#[derive(Debug, PartialEq)]
pub struct CompletionListCompletionClientCapabilities {
    item_defaults: Option<String>,

    apply_kind_support: Option<bool>,
}

#[allow(dead_code)]
#[derive(Debug, PartialEq)]
pub struct HoverClientCapabilities {
    dynamic_registration: Option<bool>,

    content_format: Option<MarkupKind>,
}

#[allow(dead_code)]
#[derive(Debug, PartialEq)]
pub struct SignatureHelpClientCapabilities {
    dynamic_registration: Option<bool>,

    signature_information: Option<SignatureInformationCapabilities>,

    context_support: Option<bool>,
}

#[allow(dead_code)]
#[derive(Debug, PartialEq)]
pub struct SignatureInformationCapabilities {
    documentation_format: Option<Vec<MarkupKind>>,

    parameter_information: Option<ParameterInformationCapabilities>,

    active_parameter_support: Option<bool>,

    no_active_parameter_support: Option<bool>,
}

#[allow(dead_code)]
#[derive(Debug, PartialEq)]
pub struct ParameterInformationCapabilities {
    label_offset_support: Option<bool>,
}

#[allow(dead_code)]
#[derive(Debug, PartialEq)]
pub struct DeclarationClientCapabilities {
    dynamic_registration: Option<bool>,

    link_support: Option<bool>,
}

#[allow(dead_code)]
#[derive(Debug, PartialEq)]
pub struct DefinitionClientCapabilities {
    dynamic_registration: Option<bool>,

    link_support: Option<bool>,
}

#[allow(dead_code)]
#[derive(Debug, PartialEq)]
pub struct TypeDefinitionClientCapabilities {
    dynamic_registration: Option<bool>,

    link_support: Option<bool>,
}

#[allow(dead_code)]
#[derive(Debug, PartialEq)]
pub struct ImplementationClientCapabilities {
    dynamic_registration: Option<bool>,

    link_support: Option<bool>,
}

#[allow(dead_code)]
#[derive(Debug, PartialEq)]
pub struct ReferenceClientCapabilities {
    dynamic_registration: Option<bool>,
}

#[allow(dead_code)]
#[derive(Debug, PartialEq)]
pub struct DocumentHighlightClientCapabilities {
    dynamic_registration: Option<bool>,
}

#[allow(dead_code)]
#[derive(Debug, PartialEq)]
pub struct DocumentSymbolClientCapabilities {
    dynamic_registration: Option<bool>,

    symbol_kind: Option<SymbolKindCapabilities>,

    hierarchical_document_symbol_support: Option<bool>,

    tag_support: Option<SymbolTagSupportCapabilities>,

    label_support: Option<bool>,
}

#[allow(dead_code)]
#[derive(Debug, PartialEq)]
pub struct CodeActionClientCapabilities {
    dynamic_registration: Option<bool>,

    code_action_literal_support: Option<CodeActionLiteralSupportCapabilities>,

    is_preferred_support: Option<bool>,

    disabled_support: Option<bool>,

    data_support: Option<bool>,

    resolve_support: Option<ResolveSupportCapabilities>,

    honors_change_annotations: Option<bool>,

    documentation_support: Option<bool>,

    tag_support: Option<CodeActionTagSupportCapabilities>,
}

#[allow(dead_code)]
#[derive(Debug, PartialEq)]
pub struct CodeActionLiteralSupportCapabilities {
    code_action_kind: CodeActionKindCapabilities,
}

#[allow(dead_code)]
#[derive(Debug, PartialEq)]
pub struct CodeActionKindCapabilities {
    value_set: Vec<CodeActionKind>,
}

#[allow(dead_code)]
#[derive(Debug, PartialEq)]
pub struct ResolveSupportCapabilities {
    properties: Vec<String>,
}

#[allow(dead_code)]
#[derive(Debug, PartialEq)]
pub struct CodeActionTagSupportCapabilities {
    value_set: Vec<CodeActionTag>,
}

#[allow(dead_code)]
#[derive(Debug, PartialEq)]
pub struct CodeLensClientCapabilities {
    dynamic_registration: Option<bool>,

    resolve_support: Option<ClientCodeLensResolveOptions>,
}

#[allow(dead_code)]
#[derive(Debug, PartialEq)]
pub struct ClientCodeLensResolveOptions {
    properties: Vec<String>,
}

#[allow(dead_code)]
#[derive(Debug, PartialEq)]
pub struct DocumentLinkClientCapabilities {
    dynamic_registration: Option<bool>,

    tooltip_support: Option<bool>,
}

#[allow(dead_code)]
#[derive(Debug, PartialEq)]
pub struct DocumentColorClientCapabilities {
    dynamic_registration: Option<bool>,
}

#[allow(dead_code)]
#[derive(Debug, PartialEq)]
pub struct DocumentFormattingClientCapabilities {
    dynamic_registration: Option<bool>,
}

#[allow(dead_code)]
#[derive(Debug, PartialEq)]
pub struct DocumentRangeFormattingClientCapabilities {
    dynamic_registration: Option<bool>,

    ranges_support: Option<bool>,
}

#[allow(dead_code)]
#[derive(Debug, PartialEq)]
pub struct DocumentOnTypeFormattingClientCapabilities {
    dynamic_registration: Option<bool>,
}

#[allow(dead_code)]
#[derive(Debug, PartialEq)]
pub struct RenameClientCapabilities {
    dynamic_registration: Option<bool>,

    prepare_support: Option<bool>,

    prepare_support_default_behavior: Option<PrepareSupportDefaultBehavior>,

    honors_change_annotations: Option<bool>,
}

#[allow(dead_code)]
#[derive(Debug, PartialEq)]
pub struct PublishDiagnosticsClientCapabilities {
    related_information: Option<bool>,

    tag_support: Option<DiagnosticTagSupportCapability>,

    version_support: Option<bool>,

    code_description_support: Option<bool>,

    data_support: Option<bool>,
}

#[allow(dead_code)]
#[derive(Debug, PartialEq)]
pub struct DiagnosticTagSupportCapability {
    value_set: Vec<DiagnosticTag>,
}

#[allow(dead_code)]
#[derive(Debug, PartialEq)]
pub struct FoldingRangeClientCapabilities {
    dynamic_registration: Option<bool>,

    range_limit: Option<u32>,

    line_folding_only: Option<bool>,

    folding_range_kind: Option<FoldingRangeKindCapabilities>,

    folding_range: Option<FoldingRangeCapabilities>,
}

#[allow(dead_code)]
#[derive(Debug, PartialEq)]
pub struct FoldingRangeKindCapabilities {
    value_set: Vec<FoldingRangeKind>,
}

#[allow(dead_code)]
#[derive(Debug, PartialEq)]
pub struct FoldingRangeCapabilities {
    collapsed_text: Option<bool>,
}

#[allow(dead_code)]
#[derive(Debug, PartialEq)]
pub struct SelectionRangeClientCapabilities {
    dynamic_registration: Option<bool>,
}

#[allow(dead_code)]
#[derive(Debug, PartialEq)]
pub struct LinkedEditingRangeClientCapabilities {
    dynamic_registration: Option<bool>,
}

#[allow(dead_code)]
#[derive(Debug, PartialEq)]
pub struct CallHierarchyClientCapabilities {
    dynamic_registration: Option<bool>,
}

#[allow(dead_code)]
#[derive(Debug, PartialEq)]
pub struct SemanticTokensClientCapabilities {
    dynamic_registration: Option<bool>,
    requests: Option<SemanticTokenRequestsCapabilities>,
    token_types: Vec<String>,
    token_modifiers: Vec<String>,
    formats: Vec<TokenFormat>,

    overlapping_token_support: Option<bool>,

    multiline_token_support: Option<bool>,

    server_cancel_support: Option<bool>,

    augments_syntax_tokens: Option<bool>,
}

#[allow(dead_code)]
#[derive(Debug, PartialEq)]
pub struct SemanticTokenRequestsCapabilities {
    range: Option<bool>,
    full: Option<SemanticTokenFullRequestsCapabilities>,
}

#[allow(dead_code)]
#[derive(Debug, PartialEq)]
pub struct MonikerClientCapabilities {
    dynamic_registration: Option<bool>,
}

#[allow(dead_code)]
#[derive(Debug, PartialEq)]
pub struct TypeHierarchyClientCapabilities {
    dynamic_registration: Option<bool>,
}

#[allow(dead_code)]
#[derive(Debug, PartialEq)]
pub struct InlineValueClientCapabilities {
    dynamic_registration: Option<bool>,
}

#[allow(dead_code)]
#[derive(Debug, PartialEq)]
pub struct InlayHintClientCapabilities {
    dynamic_registration: Option<bool>,

    resolve_support: Option<ResolveSupportCapabilities>,
}

#[allow(dead_code)]
#[derive(Debug, PartialEq)]
pub struct DiagnosticClientCapabilities {
    dynamic_registration: Option<bool>,

    related_document_support: Option<bool>,

    markup_message_support: Option<bool>,
}

#[allow(dead_code)]
#[derive(Debug, PartialEq)]
pub struct InlineCompletionClientCapabilities {
    dynamic_registration: Option<bool>,
}

#[allow(dead_code)]
#[derive(Debug, PartialEq)]
pub struct NotebookDocumentClientCapabilities {
    synchronization: NotebookDocumentSyncClientCapabilities,
}

#[allow(dead_code)]
#[derive(Debug, PartialEq)]
pub struct NotebookDocumentSyncClientCapabilities {
    dynamic_registration: Option<bool>,

    execution_summary_support: Option<bool>,
}

#[allow(dead_code)]
#[derive(Debug, PartialEq)]
pub struct WindowClientCapabilities {
    work_done_progress: Option<bool>,

    show_message: Option<ShowMessageRequestClientCapabilities>,

    show_document: Option<ShowDocumentClientCapabilities>,
}

#[allow(dead_code)]
#[derive(Debug, PartialEq)]
pub struct ShowMessageRequestClientCapabilities {
    message_action_item: Option<MessageActionItemClientCapabilities>,
}

#[allow(dead_code)]
#[derive(Debug, PartialEq)]
pub struct MessageActionItemClientCapabilities {
    additional_properties_support: Option<bool>,
}

#[allow(dead_code)]
#[derive(Debug, PartialEq)]
pub struct ShowDocumentClientCapabilities {
    support: bool,
}

#[allow(dead_code)]
#[derive(Debug, PartialEq)]
pub struct GeneralClientCapabilities {
    stale_request_support: Option<StaleRequestSupportClientCapabilities>,

    regular_expressions: Option<RegularExpressionsClientCapabilities>,

    markdown: Option<MarkdownClientCapabilities>,

    position_encodings: Option<Vec<PositionEncodingKind>>,
}

#[allow(dead_code)]
#[derive(Debug, PartialEq)]
pub struct StaleRequestSupportClientCapabilities {
    cancel: bool,
    retry_on_content_modified: Vec<String>,
}

#[allow(dead_code)]
#[derive(Debug, PartialEq)]
pub struct RegularExpressionsClientCapabilities {
    engine: String,

    version: Option<bool>,
}

#[allow(dead_code)]
#[derive(Debug, PartialEq)]
pub struct MarkdownClientCapabilities {
    parser: String,

    version: Option<String>,

    allowed_tags: Option<Vec<String>>,
}

#[derive(Clone, Debug, PartialEq)]
pub struct WorkspaceFolder {
    pub uri: Uri,
    pub name: String,
}

#[allow(dead_code)]
#[derive(Debug, PartialEq)]
pub struct WorkDoneProgressParams {
    work_done_token: Option<ProgressToken>,
}

#[allow(dead_code)]

#[derive(Debug, PartialEq)]
pub struct TextDocumentSyncOptions {
    open_close: Option<bool>,

    change: Option<TextDocumentSyncKind>,
}

#[derive(Debug, PartialEq)]
pub struct NotebookDocumentSyncOptions {
    notebook_selector: Vec<NotebookSelector>,

    save: Option<bool>,
}

#[derive(Debug, PartialEq)]
pub struct NotebookDocumentSyncRegistrationOptions {
    notebook_selector: Vec<NotebookSelector>,

    save: Option<bool>,

    id: Option<String>,
}

#[derive(Debug, PartialEq)]
pub struct NotebookSelectorByNotebook {
    notebook: NotebookSelectorNotebook,

    cells: Option<Vec<NotebookSelectorCell>>,
}

#[derive(Debug, PartialEq)]
pub struct NotebookSelectorByCell {
    notebook: Option<NotebookSelectorNotebook>,

    cells: Vec<NotebookSelectorCell>,
}

#[derive(Debug, PartialEq)]
pub struct NotebookDocumentFilterByType {
    notebook_type: String,

    scheme: Option<String>,

    pattern: Option<GlobPattern>,
}

#[derive(Debug, PartialEq)]
pub struct NotebookDocumentFilterByScheme {
    notebook_type: Option<String>,

    scheme: String,

    pattern: Option<GlobPattern>,
}

#[derive(Debug, PartialEq)]
pub struct NotebookDocumentFilterByPattern {
    notebook_type: Option<String>,

    scheme: Option<String>,
    pattern: GlobPattern,
}

#[derive(Debug, PartialEq)]
pub struct RelativePattern {
    base_uri: WorkspaceFolder,
    pattern: String,
}

#[derive(Debug, PartialEq)]
pub struct NotebookSelectorCell {
    language: String,
}

#[derive(Debug, PartialEq)]
pub struct CompletionOptions {
    trigger_characters: Option<Vec<String>>,

    all_commit_characters: Option<Vec<String>>,

    resolve_provider: Option<bool>,

    completion_item: Option<CompletionOptionsCompletionItemCapability>,

    work_done_progress: Option<bool>,
}

#[derive(Debug, PartialEq)]
pub struct CompletionOptionsCompletionItemCapability {
    label_details_support: Option<bool>,
}

#[derive(Debug, PartialEq)]
pub struct HoverOptions {
    work_done_progress: Option<bool>,
}

#[derive(Debug, PartialEq)]
pub struct SignatureHelpOptions {
    trigger_characters: Option<Vec<String>>,

    retrigger_characters: Option<Vec<String>>,
}

#[derive(Debug, PartialEq)]
pub struct DeclarationOptions {
    work_done_progress: Option<bool>,
}

#[derive(Debug, PartialEq)]
pub struct DeclarationRegistrationOptions {
    work_done_progress: Option<bool>,

    document_selector: Option<DocumentSelector>,

    id: Option<String>,
}

#[derive(Debug, PartialEq)]
pub struct DocumentFilter {
    language: Option<String>,

    scheme: Option<String>,

    pattern: Option<GlobPattern>,
}

#[derive(Debug, PartialEq)]
pub struct DefinitionOptions {
    work_done_progress: Option<bool>,
}

#[derive(Debug, PartialEq)]
pub struct TypeDefinitionOptions {
    work_done_progress: Option<bool>,
}

#[derive(Debug, PartialEq)]
pub struct TypeDefinitionRegistrationOptions {
    document_selector: Option<DocumentSelector>,

    work_done_progress: Option<bool>,

    id: Option<String>,
}

#[derive(Debug, PartialEq)]
pub struct ImplementationOptions {
    work_done_progress: Option<bool>,
}

#[derive(Debug, PartialEq)]
pub struct ImplementationRegistrationOptions {
    document_selector: Option<DocumentSelector>,

    work_done_progress: Option<bool>,

    id: Option<String>,
}

#[derive(Debug, PartialEq)]
pub struct ReferenceOptions {
    work_done_progress: Option<bool>,
}

#[derive(Debug, PartialEq)]
pub struct DocumentHighlightOptions {
    work_done_progress: Option<bool>,
}

#[derive(Debug, PartialEq)]
pub struct DocumentSymbolOptions {
    label: Option<String>,

    work_done_progress: Option<bool>,
}

#[derive(Debug, PartialEq)]
pub struct CodeActionOptions {
    code_action_kinds: Option<Vec<CodeActionKind>>,

    documentation: Option<Vec<CodeActionKindDocumentation>>,

    resolve_provider: Option<bool>,

    work_done_progress: Option<bool>,
}

#[derive(Debug, PartialEq)]
pub struct CodeActionKindDocumentation {
    kind: CodeActionKind,
    command: Command,
}

#[derive(Debug, PartialEq)]
pub struct Command {
    title: String,

    tooltip: Option<String>,
    command: String,

    arguments: Option<Vec<serde_json::Value>>,
}

#[derive(Debug, PartialEq)]
pub struct CodeLensOptions {
    resolve_provider: Option<bool>,

    work_done_progress: Option<bool>,
}

#[derive(Debug, PartialEq)]
pub struct DocumentLinkOptions {
    resolve_provider: Option<bool>,

    work_done_progress: Option<bool>,
}

#[derive(Debug, PartialEq)]
pub struct DocumentColorOptions {
    work_done_progress: Option<bool>,
}

#[derive(Debug, PartialEq)]
pub struct DocumentColorRegistrationOptions {
    document_selector: Option<DocumentSelector>,

    id: Option<String>,

    work_done_progress: Option<bool>,
}

#[derive(Debug, PartialEq)]
pub struct DocumentFormattingOptions {
    work_done_progress: Option<bool>,
}

#[derive(Debug, PartialEq)]
pub struct DocumentRangeFormattingOptions {
    ranges_support: Option<bool>,

    work_done_progress: Option<bool>,
}

#[derive(Debug, PartialEq)]
pub struct DocumentOnTypeFormattingOptions {
    first_trigger_character: String,

    more_trigger_character: Option<Vec<String>>,
}

#[derive(Debug, PartialEq)]
pub struct RenameOptions {
    prepare_provider: Option<bool>,

    work_done_progress: Option<bool>,
}

#[derive(Debug, PartialEq)]
pub struct FoldingRangeOptions {
    work_done_progress: Option<bool>,
}

#[derive(Debug, PartialEq)]
pub struct FoldingRangeRegistrationOptions {
    document_selector: Option<DocumentSelector>,

    work_done_progress: Option<bool>,

    id: Option<String>,
}

#[derive(Debug, PartialEq)]
pub struct ExecuteCommandOptions {
    commands: Vec<String>,

    work_done_progress: Option<bool>,
}

#[derive(Debug, PartialEq)]
pub struct SelectionRangeOptions {
    work_done_progress: Option<bool>,
}

#[derive(Debug, PartialEq)]
pub struct SelectionRangeRegistrationOptions {
    work_done_progress: Option<bool>,

    document_selector: Option<DocumentSelector>,

    id: Option<String>,
}

#[derive(Debug, PartialEq)]
pub struct LinkedEditingRangeOptions {
    work_done_progress: Option<bool>,
}

#[derive(Debug, PartialEq)]
pub struct LinkedEditingRangeRegistrationOptions {
    document_selector: Option<DocumentSelector>,

    work_done_progress: Option<bool>,

    id: Option<String>,
}

#[derive(Debug, PartialEq)]
pub struct CallHierarchyOptions {
    work_done_progress: Option<bool>,
}

#[derive(Debug, PartialEq)]
pub struct CallHierarchyRegistrationOptions {
    document_selector: Option<DocumentSelector>,

    work_done_progress: Option<bool>,

    id: Option<String>,
}

#[derive(Debug, PartialEq)]
pub struct SemanticTokensOptions {
    legend: SemanticTokensLegend,

    range: Option<bool>,

    full: Option<SemanticTokensFullDocumentCapabilities>,

    work_done_progress: Option<bool>,
}

#[derive(Debug, PartialEq)]
pub struct SemanticTokensLegend {
    token_types: Vec<String>,
    token_modifiers: Vec<String>,
}

#[derive(Debug, PartialEq)]
pub struct SemanticTokensRegistrationOptions {
    document_selector: Option<DocumentSelector>,
    legend: SemanticTokensLegend,

    range: Option<bool>,

    full: Option<SemanticTokensFullDocumentCapabilities>,

    work_done_progress: Option<bool>,

    id: Option<String>,
}

#[derive(Debug, PartialEq)]
pub struct MonikerOptions {
    work_done_progress: Option<bool>,
}

#[derive(Debug, PartialEq)]
pub struct MonikerRegistrationOptions {
    document_selector: Option<DocumentSelector>,

    work_done_progress: Option<bool>,
}

#[derive(Debug, PartialEq)]
pub struct TypeHierarchyOptions {
    work_done_progress: Option<bool>,
}

#[derive(Debug, PartialEq)]
pub struct TypeHierarchyRegistrationOptions {
    document_selector: Option<DocumentSelector>,

    work_done_progress: Option<bool>,

    id: Option<String>,
}

#[derive(Debug, PartialEq)]
pub struct InlineValueOptions {
    work_done_progress: Option<bool>,
}

#[derive(Debug, PartialEq)]
pub struct InlineValueRegistrationOptions {
    document_selector: Option<DocumentSelector>,

    work_done_progress: Option<bool>,

    id: Option<String>,
}

#[derive(Debug, PartialEq)]
pub struct InlayHintOptions {
    resolve_provider: Option<bool>,

    work_done_progress: Option<bool>,
}

#[derive(Debug, PartialEq)]
pub struct InlayHintRegistrationOptions {
    resolve_provider: Option<bool>,

    work_done_progress: Option<bool>,
    document_selector: Option<DocumentSelector>,

    id: Option<String>,
}

#[derive(Debug, PartialEq)]
pub struct DiagnosticOptions {
    identifier: Option<String>,
    inter_file_dependencies: bool,
    workspace_diagnostics: bool,

    work_done_progress: Option<bool>,
}

#[derive(Debug, PartialEq)]
pub struct DiagnosticRegistrationOptions {
    document_selector: Option<DocumentSelector>,

    identifier: Option<String>,
    inter_file_dependencies: bool,
    workspace_diagnostics: bool,

    work_done_progress: Option<bool>,

    id: Option<String>,
}

#[derive(Debug, PartialEq)]
pub struct WorkspaceSymbolOptions {
    resolve_provider: Option<bool>,

    work_done_progress: Option<bool>,
}

#[derive(Debug, PartialEq)]
pub struct InlineCompletionOptions {
    work_done_progress: Option<bool>,
}

#[derive(Debug, PartialEq)]
pub struct TextDocumentServerCapabilities {
    diagnostic: Option<TextDocumentDiagnosticServerCapabilities>,
}

#[derive(Debug, PartialEq)]
pub struct TextDocumentDiagnosticServerCapabilities {
    markup_message_support: Option<bool>,
}

#[derive(Debug, PartialEq)]
pub struct WorkspaceServerCapabilities {
    workspace_folders: Option<WorkspaceFoldersServerCapabilities>,

    file_operations: Option<WorkspaceFileOperations>,
}

#[derive(Debug, PartialEq)]
pub struct WorkspaceFoldersServerCapabilities {
    supported: Option<bool>,

    change_notifications: Option<ChangeNotifications>,
}

#[derive(Debug, PartialEq)]
pub struct WorkspaceFileOperations {
    did_create: Option<FileOperationRegistrationOptions>,

    will_create: Option<FileOperationRegistrationOptions>,

    did_rename: Option<FileOperationRegistrationOptions>,

    will_rename: Option<FileOperationRegistrationOptions>,

    did_delete: Option<FileOperationRegistrationOptions>,

    will_delete: Option<FileOperationRegistrationOptions>,
}

#[derive(Debug, PartialEq)]
pub struct FileOperationRegistrationOptions {
    filters: Vec<FileOperationFilter>,
}

#[derive(Debug, PartialEq)]
pub struct FileOperationFilter {
    scheme: Option<String>,

    pattern: FileOperationPattern,
}

#[derive(Debug, PartialEq)]
pub struct FileOperationPattern {
    glob: String,

    matches: Option<FileOperationPatternKind>,

    options: Option<FileOperationPatternOptions>,
}

#[derive(Debug, PartialEq)]
pub struct FileOperationPatternOptions {
    ignore_case: Option<bool>,
}

#[derive(Debug, PartialEq)]
pub struct InitializeResult {
    pub capabilities: ServerCapabilities,

    pub server_info: Option<ServerInfo>,
}

#[derive(Debug, PartialEq)]
pub struct InitializeError {
    pub retry: bool,
}

#[derive(Debug, PartialEq)]
pub struct ServerInfo {
    pub name: String,

    pub version: Option<String>,
}

#[derive(Debug, PartialEq)]
pub struct ServerCapabilities {
    pub position_encoding: Option<PositionEncodingKind>,

    pub text_document_sync: Option<TextDocumentSyncServerCapabilities>,

    pub notebook_document_sync: Option<NotebookDocumentSyncServerCapabilities>,

    pub completion_provider: Option<CompletionOptions>,

    pub hover_provider: Option<HoverProvider>,

    pub signature_help_provider: Option<SignatureHelpOptions>,

    pub declaration_provider: Option<DeclarationProvider>,

    pub definition_provider: Option<DefinitionProvider>,

    pub type_definition_provider: Option<TypeDefinitionProvider>,

    pub implementation_provider: Option<ImplementationProvider>,

    pub references_provider: Option<ReferencesProvider>,

    pub document_highlight_provider: Option<DocumentHighlightProvider>,

    pub document_symbol_provider: Option<DocumentSymbolProvider>,

    pub code_action_provider: Option<CodeActionProvider>,

    pub code_lens_provider: Option<CodeLensOptions>,

    pub document_link_provider: Option<DocumentLinkOptions>,

    pub color_provider: Option<ColorProvider>,

    pub document_formatting_provider: Option<DocumentFormattingProvider>,

    pub document_range_formatting_provider: Option<DocumentRangeFormattingProvider>,

    pub document_on_type_formatting_provider: Option<DocumentOnTypeFormattingOptions>,

    pub rename_provider: Option<RenameProvider>,

    pub folding_range_provider: Option<FoldingRangeProvider>,

    pub execute_command_provider: Option<ExecuteCommandOptions>,

    pub selection_range_provider: Option<SelectionRangeProvider>,

    pub linked_editing_range_provider: Option<LinkedEditingRangeProvider>,

    pub call_hierarchy_provider: Option<CallHierarchyProvider>,

    pub semantic_tokens_provider: Option<SemanticTokensProvider>,

    pub moniker_provider: Option<MonikerProvider>,

    pub type_hierarchy_provider: Option<TypeHierarchyProvider>,

    pub inline_value_provider: Option<InlineValueProvider>,

    pub inlay_hint_provider: Option<InlayHintProvider>,

    pub diagnostic_provider: Option<DiagnosticProvider>,

    pub workspace_symbol_provider: Option<WorkspaceSymbolProvider>,

    pub inline_completion_provider: Option<InlineCompletionProvider>,

    pub text_document: Option<TextDocumentServerCapabilities>,

    pub workspace: Option<WorkspaceServerCapabilities>,

    pub experimental: Option<serde_json::Value>,
}

#[derive(Debug, PartialEq)]
pub struct SetTraceParams {
    pub value: TraceValue,
}

#[derive(Debug, PartialEq)]
pub struct LogTraceParams {
    pub message: String,

    pub verbose: Option<String>,
}

#[derive(Debug, PartialEq)]
pub struct DidOpenTextDocumentParams {
    pub text_document: TextDocumentItem,
}

#[derive(Clone, Debug, PartialEq)]
pub struct TextDocumentItem {
    pub uri: DocumentUri,
    pub language_id: String,
    pub version: i64,
    pub text: String,
}

impl ErrorCodes {
    /// The numeric code that JSON-RPC transmits for the error.
    pub fn code(&self) -> (c: i64)
        ensures
            c == error_code(*self),
    {
        match self {
            ErrorCodes::ParseError => -32700,
            ErrorCodes::InvalidRequest => -32600,
            ErrorCodes::MethodNotFound => -32601,
            ErrorCodes::InvalidParams => -32602,
            ErrorCodes::InternalError => -32603,
            ErrorCodes::ServerNotInitialized => -32002,
            ErrorCodes::UnknownErrorCode => -32001,
            ErrorCodes::RequestFailed => -32803,
            ErrorCodes::ServerCancelled => -32802,
            ErrorCodes::ContentModified => -32801,
            ErrorCodes::RequestCancelled => -32800,
        }
    }
}

/// The JSON-RPC error code of each error kind.
pub open spec fn error_code(e: ErrorCodes) -> int {
    match e {
        ErrorCodes::ParseError => -32700,
        ErrorCodes::InvalidRequest => -32600,
        ErrorCodes::MethodNotFound => -32601,
        ErrorCodes::InvalidParams => -32602,
        ErrorCodes::InternalError => -32603,
        ErrorCodes::ServerNotInitialized => -32002,
        ErrorCodes::UnknownErrorCode => -32001,
        ErrorCodes::RequestFailed => -32803,
        ErrorCodes::ServerCancelled => -32802,
        ErrorCodes::ContentModified => -32801,
        ErrorCodes::RequestCancelled => -32800,
    }
}

} // verus!
