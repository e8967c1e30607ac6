use vstd::prelude::*;

use crate::clock::LocalTime;
use crate::text::{copy_opt_string, copy_strings, owned};

verus! {

/// The recognition model that a fresh configuration names.
pub const DEFAULT_MODEL: &'static str = "mlx-community/Qwen3-VL-4B-Instruct-4bit";

/// The summary model that a fresh configuration names.
pub const DEFAULT_SUMMARY_MODEL: &'static str = "deepseek-chat";

/// The summary provider that a fresh configuration names.
pub const DEFAULT_SUMMARY_PROVIDER: &'static str = "deepseek";

/// Seconds between two recordings when the configuration does not say.
pub fn default_interval_seconds() -> (s: u64)
    ensures
        s == 60,
{
    60
}

/// The summary model when the configuration does not say.
pub fn default_summary_model() -> (s: String)
    ensures
        s@ == DEFAULT_SUMMARY_MODEL@,
{
    owned(DEFAULT_SUMMARY_MODEL)
}

/// The summary provider when the configuration does not say.
pub fn default_summary_provider() -> (s: String)
    ensures
        s@ == DEFAULT_SUMMARY_PROVIDER@,
{
    owned(DEFAULT_SUMMARY_PROVIDER)
}

/// Whether summaries are on when the configuration does not say.
pub fn default_summary_enabled() -> (b: bool)
    ensures
        b,
{
    true
}

/// The recognition model when the configuration does not say.
pub fn default_model() -> (s: String)
    ensures
        s@ == DEFAULT_MODEL@,
{
    owned(DEFAULT_MODEL)
}

/// What the user set up: today's project and how recording and summaries run.
#[derive(Debug, Clone, PartialEq, Eq)]
pub struct AppConfig {
    pub project_name: String,
    pub project_description: String,
    pub interval_seconds: u64,
    pub model: String,
    pub summary_model: String,
    pub summary_provider: String,
    pub summary_enabled: bool,
}

impl Default for AppConfig {
    fn default() -> (config: Self)
        ensures
            config.project_name@ == Seq::<char>::empty(),
            config.project_description@ == Seq::<char>::empty(),
            config.interval_seconds == 60,
            config.model@ == DEFAULT_MODEL@,
            config.summary_model@ == DEFAULT_SUMMARY_MODEL@,
            config.summary_provider@ == DEFAULT_SUMMARY_PROVIDER@,
            config.summary_enabled,
    {
        AppConfig {
            project_name: String::new(),
            project_description: String::new(),
            interval_seconds: default_interval_seconds(),
            model: default_model(),
            summary_model: default_summary_model(),
            summary_provider: default_summary_provider(),
            summary_enabled: default_summary_enabled(),
        }
    }
}

/// One recorded moment: what the recognizer saw on screen and whether it serves the project.
///
/// `confidence_bits` holds the bits of the recognizer's `f32` confidence
/// (`f32::to_bits`); nothing here computes with it.
#[derive(Debug, Clone, PartialEq, Eq)]
pub struct LogEntry {
    pub timestamp: LocalTime,
    pub project: String,
    pub screenshot_thumb: String,
    pub model: String,
    pub intent: String,
    pub is_on_project: bool,
    pub confidence_bits: u32,
    pub reason: String,
    pub visible_context: String,
    pub error: Option<String>,
}

/// A log entry with its strings taken by their characters.
pub ghost struct LogEntryView {
    pub timestamp: LocalTime,
    pub project: Seq<char>,
    pub screenshot_thumb: Seq<char>,
    pub model: Seq<char>,
    pub intent: Seq<char>,
    pub is_on_project: bool,
    pub confidence_bits: u32,
    pub reason: Seq<char>,
    pub visible_context: Seq<char>,
    pub error: Option<Seq<char>>,
}

impl View for LogEntry {
    type V = LogEntryView;

    open spec fn view(&self) -> LogEntryView {
        LogEntryView {
            timestamp: self.timestamp,
            project: self.project@,
            screenshot_thumb: self.screenshot_thumb@,
            model: self.model@,
            intent: self.intent@,
            is_on_project: self.is_on_project,
            confidence_bits: self.confidence_bits,
            reason: self.reason@,
            visible_context: self.visible_context@,
            error: self.error.deep_view(),
        }
    }
}

impl DeepView for LogEntry {
    type V = LogEntryView;

    open spec fn deep_view(&self) -> LogEntryView {
        self@
    }
}

impl LogEntry {
    /// A copy of this entry.
    pub fn duplicate(&self) -> (r: LogEntry)
        ensures
            r@ == self@,
    {
        LogEntry {
            timestamp: self.timestamp,
            project: self.project.clone(),
            screenshot_thumb: self.screenshot_thumb.clone(),
            model: self.model.clone(),
            intent: self.intent.clone(),
            is_on_project: self.is_on_project,
            confidence_bits: self.confidence_bits,
            reason: self.reason.clone(),
            visible_context: self.visible_context.clone(),
            error: copy_opt_string(&self.error),
        }
    }
}

/// What the status bar shows.
#[derive(Debug, Clone, PartialEq, Eq)]
pub struct AppStatus {
    pub is_recording: bool,
    pub today: String,
    pub project_name: String,
    pub last_error: Option<String>,
}

/// How a half hour went.
#[derive(Debug, Clone, Copy, PartialEq, Eq, Structural)]
pub enum SummaryBlockStatus {
    OnProject,
    OffProject,
    Uncertain,
    InsufficientData,
}

/// How a day went.
#[derive(Debug, Clone, Copy, PartialEq, Eq, Structural)]
pub enum SummaryAssessment {
    Focused,
    Mixed,
    Drifted,
    InsufficientData,
}

/// The share of a day's records that served the project, and the verdict drawn from it.
#[derive(Debug, Clone, Copy, PartialEq, Eq, Structural)]
pub struct ProjectAlignment {
    pub on_project_ratio: u8,
    pub assessment: SummaryAssessment,
}

/// The summary of one half-hour window.
#[derive(Debug, Clone, PartialEq, Eq)]
pub struct SummaryTimeBlock {
    pub start: String,
    pub end: String,
    pub status: SummaryBlockStatus,
    pub summary: String,
    pub evidence: Vec<String>,
    pub record_count: usize,
    pub on_project_ratio: u8,
    pub error: Option<String>,
}

pub ghost struct SummaryTimeBlockView {
    pub start: Seq<char>,
    pub end: Seq<char>,
    pub status: SummaryBlockStatus,
    pub summary: Seq<char>,
    pub evidence: Seq<Seq<char>>,
    pub record_count: usize,
    pub on_project_ratio: u8,
    pub error: Option<Seq<char>>,
}

impl View for SummaryTimeBlock {
    type V = SummaryTimeBlockView;

    open spec fn view(&self) -> SummaryTimeBlockView {
        SummaryTimeBlockView {
            start: self.start@,
            end: self.end@,
            status: self.status,
            summary: self.summary@,
            evidence: self.evidence.deep_view(),
            record_count: self.record_count,
            on_project_ratio: self.on_project_ratio,
            error: self.error.deep_view(),
        }
    }
}

impl DeepView for SummaryTimeBlock {
    type V = SummaryTimeBlockView;

    open spec fn deep_view(&self) -> SummaryTimeBlockView {
        self@
    }
}

impl SummaryTimeBlock {
    /// A copy of this block.
    pub fn duplicate(&self) -> (r: SummaryTimeBlock)
        ensures
            r@ == self@,
    {
        let evidence = copy_strings(&self.evidence);
        assert(evidence.deep_view() =~= self.evidence.deep_view());
        SummaryTimeBlock {
            start: self.start.clone(),
            end: self.end.clone(),
            status: self.status,
            summary: self.summary.clone(),
            evidence,
            record_count: self.record_count,
            on_project_ratio: self.on_project_ratio,
            error: copy_opt_string(&self.error),
        }
    }
}

/// A moment of the day that strayed from the project.
#[derive(Debug, Clone, PartialEq, Eq)]
pub struct NotableDrift {
    pub time: String,
    pub reason: String,
}

pub ghost struct NotableDriftView {
    pub time: Seq<char>,
    pub reason: Seq<char>,
}

impl View for NotableDrift {
    type V = NotableDriftView;

    open spec fn view(&self) -> NotableDriftView {
        NotableDriftView { time: self.time@, reason: self.reason@ }
    }
}

impl DeepView for NotableDrift {
    type V = NotableDriftView;

    open spec fn deep_view(&self) -> NotableDriftView {
        self@
    }
}

/// A whole day's summary, from the summary agent or from the local rules.
#[derive(Debug, Clone, PartialEq, Eq)]
pub struct SummaryAgentResult {
    pub overview: String,
    pub project_alignment: ProjectAlignment,
    pub time_blocks: Vec<SummaryTimeBlock>,
    pub notable_drifts: Vec<NotableDrift>,
    pub reflection_prompts: Vec<String>,
    pub error: Option<String>,
}

pub ghost struct SummaryAgentResultView {
    pub overview: Seq<char>,
    pub project_alignment: ProjectAlignment,
    pub time_blocks: Seq<SummaryTimeBlockView>,
    pub notable_drifts: Seq<NotableDriftView>,
    pub reflection_prompts: Seq<Seq<char>>,
    pub error: Option<Seq<char>>,
}

impl View for SummaryAgentResult {
    type V = SummaryAgentResultView;

    open spec fn view(&self) -> SummaryAgentResultView {
        SummaryAgentResultView {
            overview: self.overview@,
            project_alignment: self.project_alignment,
            time_blocks: self.time_blocks.deep_view(),
            notable_drifts: self.notable_drifts.deep_view(),
            reflection_prompts: self.reflection_prompts.deep_view(),
            error: self.error.deep_view(),
        }
    }
}


impl AppStatus {
    /// The status shown for a recording flag, today's date, the configuration and the last error.
    pub fn from_parts(
        is_recording: bool,
        today: crate::clock::CivilDate,
        config: &AppConfig,
        last_error: Option<String>,
    ) -> (status: Self)
        requires
            today.wf(),
        ensures
            status.is_recording == is_recording,
            status.today@ == today.spec_text(),
            status.project_name@ == config.project_name@,
            status.last_error == last_error,
    {
        AppStatus {
            is_recording,
            today: today.text(),
            project_name: config.project_name.clone(),
            last_error,
        }
    }
}

} // verus!
