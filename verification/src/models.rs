//! The records that the importer, the parsers and the queries exchange.
use vstd::prelude::*;

verus! {

/// Where the application keeps its data.
#[derive(Debug, Default)]
pub struct AppInfo {
    pub default_codex_root: String,
    pub database_path: String,
    pub session_index_path: String,
    pub platform: String,
}

/// The filters of the dashboard, as the user gave them.
#[derive(Debug, Default)]
pub struct DashboardFilters {
    pub preset: Option<String>,
    pub granularity: Option<String>,
    pub date_from: Option<String>,
    pub date_to: Option<String>,
    pub project: Option<String>,
}

/// The date range that a dashboard covers.
#[derive(Debug, Default)]
pub struct DashboardScope {
    pub preset: String,
    pub granularity: String,
    pub date_from: String,
    pub date_to: String,
    pub available_from: Option<String>,
    pub available_to: Option<String>,
    pub total_days: i64,
}

/// The account that the local Codex installation is signed in with, masked.
#[derive(Debug, Default)]
pub struct AccountInfo {
    pub masked_email: Option<String>,
    pub plan_type: Option<String>,
    pub masked_account_user_id: Option<String>,
    pub current_model: Option<String>,
    pub current_reasoning_effort: Option<String>,
    pub current_speed_tier: Option<String>,
    pub last_refresh: Option<String>,
}

/// One labelled count of a chart.
#[derive(Debug, Default)]
pub struct ChartDatum {
    pub label: String,
    pub value: i64,
}

/// One count of a category within a time bucket.
#[derive(Debug, Default)]
pub struct BreakdownDatum {
    pub bucket: String,
    pub category: String,
    pub value: i64,
}

/// Token totals.
#[derive(Debug, Default)]
pub struct TokenUsageSummary {
    pub input_tokens: i64,
    pub output_tokens: i64,
    pub cached_input_tokens: i64,
    pub reasoning_output_tokens: i64,
    pub total_tokens: i64,
}

/// A turn in a ranking of turns.
#[derive(Debug, Default)]
pub struct RankedTurnRecord {
    pub session_id: String,
    pub project: String,
    pub thread_title: Option<String>,
    pub prompt_preview: Option<String>,
    pub total_tokens: i64,
    pub input_tokens: i64,
    pub output_tokens: i64,
    pub cached_input_tokens: i64,
    pub reasoning_output_tokens: i64,
    pub first_response_sec: Option<i64>,
    pub completion_sec: Option<i64>,
    pub timestamp: Option<String>,
}

/// A session window of a project.
#[derive(Debug, Default)]
pub struct ProjectWindowRecord {
    pub session_id: String,
    pub project: String,
    pub thread_title: Option<String>,
    pub started_at: Option<String>,
    pub updated_at: Option<String>,
    pub duration_sec: i64,
    pub turn_count: i64,
    pub total_tokens: i64,
    pub question_count: i64,
    pub tool_call_count: i64,
}

/// The activity of one date or time bucket.
#[derive(Debug, Default)]
pub struct ActivityPoint {
    pub date: String,
    pub sessions: i64,
    pub questions: i64,
    pub avg_first_response_sec: i64,
    pub avg_turn_completion_sec: i64,
}

/// A past import run.
#[derive(Debug, Default)]
pub struct RecentImport {
    pub id: String,
    pub source_label: String,
    pub status: String,
    pub mode: String,
    pub files_total: i64,
    pub files_success: i64,
    pub files_failed: i64,
    pub warnings_count: i64,
    pub errors_count: i64,
    pub started_at: String,
    pub finished_at: Option<String>,
}

/// An issue that an import recorded.
#[derive(Debug, Default)]
pub struct ImportIssueRecord {
    pub id: String,
    pub severity: String,
    pub code: String,
    pub message: String,
    pub line_no: Option<i64>,
    pub raw_excerpt: Option<String>,
    pub created_at: String,
    pub path: Option<String>,
}

/// The stored summary of one session.
#[derive(Debug, Default)]
pub struct SessionSummary {
    pub id: String,
    pub thread_title: Option<String>,
    pub cwd: Option<String>,
    pub source: Option<String>,
    pub updated_at: Option<String>,
    pub started_at: Option<String>,
    pub duration_sec: i64,
    pub user_message_count: i64,
    pub assistant_message_count: i64,
    pub tool_call_count: i64,
    pub turn_count: i64,
    pub warning_count: i64,
    pub first_user_message: Option<String>,
}

/// A stored message of a session.
#[derive(Debug, Default)]
pub struct SessionMessageRecord {
    pub id: String,
    pub turn_id: Option<String>,
    pub role: Option<String>,
    pub kind: String,
    pub text: Option<String>,
    pub ts: Option<String>,
    pub tool_name: Option<String>,
    pub phase: Option<String>,
    pub image_urls: Vec<String>,
}

/// A session with its messages.
#[derive(Debug, Default)]
pub struct SessionDetail {
    pub session: SessionSummary,
    pub messages: Vec<SessionMessageRecord>,
}

/// The filters of the session list.
#[derive(Debug, Default)]
pub struct SessionListFilters {
    pub query: Option<String>,
    pub cwd: Option<String>,
    pub source: Option<String>,
    pub date_from: Option<String>,
    pub date_to: Option<String>,
    pub limit: Option<u32>,
    pub offset: Option<u32>,
    pub session_id: Option<String>,
}

/// A page of the session list.
#[derive(Debug, Default)]
pub struct SessionListResponse {
    pub total: i64,
    pub items: Vec<SessionSummary>,
    pub selected: Option<SessionDetail>,
}

/// The outcome of an import run.
#[derive(Debug, Default)]
pub struct ImportRunResult {
    pub import_id: String,
    pub source_label: String,
    pub root_path: String,
    pub status: String,
    pub files_total: i64,
    pub files_success: i64,
    pub files_failed: i64,
    pub warnings_count: i64,
    pub errors_count: i64,
    pub issues: Vec<ImportIssueRecord>,
}

/// The format of an exported report.
#[derive(Debug, Clone, Copy, PartialEq, Eq, Structural)]
pub enum ExportFormat {
    Csv,
    Json,
    Markdown,
}

impl Default for ExportFormat {
    fn default() -> (r: Self)
        ensures
            r == ExportFormat::Json,
    {
        ExportFormat::Json
    }
}

/// The file extension of a format.
pub open spec fn format_extension(format: ExportFormat) -> Seq<char> {
    match format {
        ExportFormat::Csv => "csv"@,
        ExportFormat::Json => "json"@,
        ExportFormat::Markdown => "md"@,
    }
}

impl ExportFormat {
    /// The file extension of the format, which is also its stored name.
    pub fn extension(self) -> (r: &'static str)
        ensures
            r@ == format_extension(self),
    {
        match self {
            ExportFormat::Csv => "csv",
            ExportFormat::Json => "json",
            ExportFormat::Markdown => "md",
        }
    }
}

/// What a report exports.
#[derive(Debug, Clone, Copy, PartialEq, Eq, Structural)]
pub enum ExportKind {
    Dashboard,
    Sessions,
}

impl Default for ExportKind {
    fn default() -> (r: Self)
        ensures
            r == ExportKind::Dashboard,
    {
        ExportKind::Dashboard
    }
}

/// A request to export a report to a file.
#[derive(Debug, Default)]
pub struct ExportRequest {
    pub kind: ExportKind,
    pub format: ExportFormat,
    pub path: String,
    pub filters: Option<SessionListFilters>,
    pub dashboard_filters: Option<DashboardFilters>,
}

/// The outcome of an export.
#[derive(Debug, Default)]
pub struct ExportResult {
    pub id: String,
    pub path: String,
    pub format: ExportFormat,
    pub bytes_written: u64,
}

/// What the Codex session index says of a session.
#[derive(Debug, Default)]
pub struct SessionIndexEntry {
    pub thread_name: Option<String>,
    pub updated_at: Option<String>,
}

/// A file that the parser registry is asked about.
#[derive(Debug, Default)]
pub struct ParserTarget {
    pub abs_path: String,
    pub rel_path: Option<String>,
    pub extension: String,
    pub sample: String,
}

/// A problem found while parsing a file.
#[derive(Debug, Default)]
pub struct ParseWarning {
    pub severity: String,
    pub code: String,
    pub message: String,
    pub line_no: Option<i64>,
    pub raw_excerpt: Option<String>,
}

/// A parsed session, as it is stored.
#[derive(Debug, Default)]
pub struct ParsedSession {
    pub id: String,
    pub thread_title: Option<String>,
    pub cwd: Option<String>,
    pub originator: Option<String>,
    pub source: Option<String>,
    pub model_provider: Option<String>,
    pub cli_version: Option<String>,
    pub started_at: Option<String>,
    pub updated_at: Option<String>,
    pub first_user_message: Option<String>,
    pub raw_event_count: i64,
    pub user_message_count: i64,
    pub assistant_message_count: i64,
    pub tool_call_count: i64,
    pub turn_count: i64,
    pub duration_sec: i64,
    pub warning_count: i64,
    pub warnings_json: String,
}

/// One raw event of a session file.
#[derive(Debug, Default)]
pub struct ParsedRawEvent {
    pub seq: i64,
    pub ts: Option<String>,
    pub outer_type: String,
    pub inner_type: Option<String>,
    pub payload_json: String,
    pub warning_code: Option<String>,
}

/// One message of a session.
#[derive(Debug, Default)]
pub struct ParsedMessage {
    pub turn_id: Option<String>,
    pub role: Option<String>,
    pub kind: String,
    pub text: Option<String>,
    pub ts: Option<String>,
    pub tool_name: Option<String>,
    pub phase: Option<String>,
    pub meta_json: String,
}

/// An optional `String` seen as an optional text.
pub open spec fn opt_view(o: Option<String>) -> Option<Seq<char>> {
    match o {
        Some(s) => Some(s@),
        None => None,
    }
}

/// The texts of a message.
pub struct MessageView {
    pub turn_id: Option<Seq<char>>,
    pub role: Option<Seq<char>>,
    pub kind: Seq<char>,
    pub text: Option<Seq<char>>,
    pub ts: Option<Seq<char>>,
    pub tool_name: Option<Seq<char>>,
    pub phase: Option<Seq<char>>,
    pub meta_json: Seq<char>,
}

impl View for ParsedMessage {
    type V = MessageView;

    open spec fn view(&self) -> MessageView {
        MessageView {
            turn_id: opt_view(self.turn_id),
            role: opt_view(self.role),
            kind: self.kind@,
            text: opt_view(self.text),
            ts: opt_view(self.ts),
            tool_name: opt_view(self.tool_name),
            phase: opt_view(self.phase),
            meta_json: self.meta_json@,
        }
    }
}

/// The texts and counts of a parsed session.
pub struct SessionView {
    pub id: Seq<char>,
    pub thread_title: Option<Seq<char>>,
    pub cwd: Option<Seq<char>>,
    pub originator: Option<Seq<char>>,
    pub source: Option<Seq<char>>,
    pub model_provider: Option<Seq<char>>,
    pub cli_version: Option<Seq<char>>,
    pub started_at: Option<Seq<char>>,
    pub updated_at: Option<Seq<char>>,
    pub first_user_message: Option<Seq<char>>,
    pub raw_event_count: i64,
    pub user_message_count: i64,
    pub assistant_message_count: i64,
    pub tool_call_count: i64,
    pub turn_count: i64,
    pub duration_sec: i64,
    pub warning_count: i64,
    pub warnings_json: Seq<char>,
}

impl View for ParsedSession {
    type V = SessionView;

    open spec fn view(&self) -> SessionView {
        SessionView {
            id: self.id@,
            thread_title: opt_view(self.thread_title),
            cwd: opt_view(self.cwd),
            originator: opt_view(self.originator),
            source: opt_view(self.source),
            model_provider: opt_view(self.model_provider),
            cli_version: opt_view(self.cli_version),
            started_at: opt_view(self.started_at),
            updated_at: opt_view(self.updated_at),
            first_user_message: opt_view(self.first_user_message),
            raw_event_count: self.raw_event_count,
            user_message_count: self.user_message_count,
            assistant_message_count: self.assistant_message_count,
            tool_call_count: self.tool_call_count,
            turn_count: self.turn_count,
            duration_sec: self.duration_sec,
            warning_count: self.warning_count,
            warnings_json: self.warnings_json@,
        }
    }
}

/// The texts of a raw event.
pub struct EventView {
    pub seq: i64,
    pub ts: Option<Seq<char>>,
    pub outer_type: Seq<char>,
    pub inner_type: Option<Seq<char>>,
    pub payload_json: Seq<char>,
    pub warning_code: Option<Seq<char>>,
}

impl View for ParsedRawEvent {
    type V = EventView;

    open spec fn view(&self) -> EventView {
        EventView {
            seq: self.seq,
            ts: opt_view(self.ts),
            outer_type: self.outer_type@,
            inner_type: opt_view(self.inner_type),
            payload_json: self.payload_json@,
            warning_code: opt_view(self.warning_code),
        }
    }
}

/// The texts of a parse warning.
pub struct WarningView {
    pub severity: Seq<char>,
    pub code: Seq<char>,
    pub message: Seq<char>,
    pub line_no: Option<i64>,
    pub raw_excerpt: Option<Seq<char>>,
}

impl View for ParseWarning {
    type V = WarningView;

    open spec fn view(&self) -> WarningView {
        WarningView {
            severity: self.severity@,
            code: self.code@,
            message: self.message@,
            line_no: self.line_no,
            raw_excerpt: opt_view(self.raw_excerpt),
        }
    }
}

/// The texts of a session index entry.
pub struct IndexEntryView {
    pub thread_name: Option<Seq<char>>,
    pub updated_at: Option<Seq<char>>,
}

impl View for SessionIndexEntry {
    type V = IndexEntryView;

    open spec fn view(&self) -> IndexEntryView {
        IndexEntryView { thread_name: opt_view(self.thread_name), updated_at: opt_view(self.updated_at) }
    }
}

/// What a parser makes of a file.
#[derive(Debug, Default)]
pub struct ParseResult {
    pub parser_key: String,
    pub parser_version: String,
    pub session: Option<ParsedSession>,
    pub events: Vec<ParsedRawEvent>,
    pub messages: Vec<ParsedMessage>,
    pub warnings: Vec<ParseWarning>,
    pub fingerprint: String,
}

} // verus!
