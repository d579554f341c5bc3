//! Configuration and assistant-facing data carried alongside the
//! session engine: plan and usage records, redaction rule settings,
//! assistant chat data, prompt templates, and the palette and layout
//! vocabulary. These are plain values; the layers that read disks,
//! networks or clocks convert at the boundary.

use vstd::prelude::*;

verus! {

/// A request to an assistant backend.
#[derive(Debug, Clone)]
pub struct AiRequest {
    pub provider: String,
    pub model: String,
    pub system: String,
    pub user: String,
}

/// An assistant backend's reply.
#[derive(Debug, Clone)]
pub struct AiResponse {
    pub content: String,
}

/// Why an assistant request failed.
#[derive(Debug, Clone)]
pub enum AiError {
    MissingApiKey(&'static str),
    Http(String),
    InvalidResponse(String),
}

impl AiError {
    /// The error rendered for display: its kind's label, then the
    /// carried detail.
    pub fn message(&self) -> (r: String)
        ensures
            r@ == (match self {
                AiError::MissingApiKey(name) => "Missing API key: "@ + name@,
                AiError::Http(msg) => "HTTP error: "@ + msg@,
                AiError::InvalidResponse(msg) => "Invalid response: "@ + msg@,
            }),
    {
        let mut out: String;
        match self {
            AiError::MissingApiKey(name) => {
                out = String::from_str("Missing API key: ");
                out.append(name);
            },
            AiError::Http(msg) => {
                out = String::from_str("HTTP error: ");
                out.append(msg.as_str());
            },
            AiError::InvalidResponse(msg) => {
                out = String::from_str("Invalid response: ");
                out.append(msg.as_str());
            },
        }
        out
    }
}

/// The assistant settings a session carries.
#[derive(Debug, Clone)]
pub struct AiSettings {
    pub enabled: bool,
    pub send_current_command: bool,
    pub send_last_n_blocks: usize,
    pub send_repo_context: bool,
    pub provider: String,
    pub api_key: Option<String>,
    pub redact_secrets: bool,
    pub allow_sensitive: bool,
}

/// The plan a profile is on.
#[derive(Debug, Clone, Copy, PartialEq, Eq, Structural)]
pub enum PlanTier {
    Free,
    Pro,
    Team,
}

/// The quota limits of a plan.
#[derive(Debug, Clone, Copy)]
pub struct PlanLimits {
    pub daily_messages: u32,
    pub daily_chars: u32,
    pub max_context_chars: usize,
    pub allow_streaming: bool,
}

/// Application-level configuration.
#[derive(Debug, Clone)]
pub struct AppConfig {
    pub ai_onboarding_seen: bool,
    pub ai_share_link_enabled: bool,
    pub plan_tier: PlanTier,
}

/// The share-link switch starts enabled.
pub fn default_ai_share_link_enabled() -> (r: bool)
    ensures
        r,
{
    true
}

/// New profiles start on the free plan.
pub fn default_plan_tier() -> (r: PlanTier)
    ensures
        r == PlanTier::Free,
{
    PlanTier::Free
}

impl Default for AppConfig {
    /// A fresh configuration: onboarding unseen, share links on, free
    /// plan.
    fn default() -> (r: AppConfig)
        ensures
            !r.ai_onboarding_seen,
            r.ai_share_link_enabled,
            r.plan_tier == PlanTier::Free,
    {
        AppConfig { ai_onboarding_seen: false, ai_share_link_enabled: true, plan_tier: PlanTier::Free }
    }
}

/// Usage counted against today's quota.
#[derive(Debug, Clone, Copy)]
pub struct UsageSnapshot {
    pub used_messages: u32,
    pub used_chars: u32,
    pub remaining_messages: u32,
    pub remaining_chars: u32,
}

/// One configured redaction rule.
#[derive(Debug, Clone)]
pub struct RedactionRuleConfig {
    pub label: String,
    pub pattern: String,
}

/// The configured redaction rules.
#[derive(Debug, Clone)]
pub struct RedactionConfig {
    pub rules: Vec<RedactionRuleConfig>,
}

/// How much of the session an assistant request may see.
#[derive(Debug, Clone, Copy, PartialEq, Eq, Structural)]
pub enum AiContextScope {
    CurrentCommand,
    LastNBlocks,
    SelectedBlocks,
    EntireSession,
}

/// Who wrote a chat message.
#[derive(Debug, Clone, Copy, PartialEq, Eq, Structural)]
pub enum AiChatRole {
    User,
    Assistant,
}

/// A block an assistant answer cites.
#[derive(Debug, Clone)]
pub struct AiCitation {
    pub block_index: Option<usize>,
    pub label: String,
}

/// One message of the assistant chat.
#[derive(Debug, Clone)]
pub struct AiChatMessage {
    pub role: AiChatRole,
    pub content: String,
    pub sources: Vec<AiCitation>,
}

/// One-click assistant actions.
#[derive(Debug, Clone, Copy, PartialEq, Eq, Structural)]
pub enum AiQuickAction {
    ExplainError,
    SummarizeOutput,
    GenerateCommand,
}

/// The built-in prompt templates, by name.
#[derive(Debug, Clone, Copy, PartialEq, Eq, Structural, Hash)]
pub enum AiPromptTemplateId {
    ExplainError,
    DebugCommand,
    SummarizeOutput,
    GenerateCommand,
    RefactorSnippet,
}

/// One built-in prompt template.
#[derive(Debug, Clone)]
pub struct AiPromptTemplate {
    pub id: AiPromptTemplateId,
    pub label: &'static str,
    pub prompt: &'static str,
    pub tip: &'static str,
}

/// The label of a built-in template.
pub open spec fn template_label(id: AiPromptTemplateId) -> Seq<char> {
    match id {
        AiPromptTemplateId::ExplainError => "Explain error"@,
        AiPromptTemplateId::DebugCommand => "Debug command"@,
        AiPromptTemplateId::SummarizeOutput => "Summarize output"@,
        AiPromptTemplateId::GenerateCommand => "Generate command"@,
        AiPromptTemplateId::RefactorSnippet => "Refactor snippet"@,
    }
}

/// The prompt text of a built-in template.
pub open spec fn template_prompt(id: AiPromptTemplateId) -> Seq<char> {
    match id {
        AiPromptTemplateId::ExplainError => "Explain the error below and the most likely cause.\n\nError:\n"@,
        AiPromptTemplateId::DebugCommand => "Help me debug this command. Explain what is failing and how to fix it.\n\nCommand:\n\nOutput:\n"@,
        AiPromptTemplateId::SummarizeOutput => "Summarize the output below in a few bullets.\n\nOutput:\n"@,
        AiPromptTemplateId::GenerateCommand => "Generate a command that does the following task.\n\nTask:\n"@,
        AiPromptTemplateId::RefactorSnippet => "Refactor the code below for clarity and best practices.\n\nCode:\n"@,
    }
}

/// Hands back the built-in template for an identifier; every
/// identifier has one, with the stated label and prompt.
pub fn get_ai_prompt_template(id: AiPromptTemplateId) -> (r: Option<AiPromptTemplate>)
    ensures
        r matches Some(t) && t.id == id && t.label@ == template_label(id) && t.prompt@
            == template_prompt(id),
{
    match id {
        AiPromptTemplateId::ExplainError => Some(
            AiPromptTemplate {
                id,
                label: "Explain error",
                prompt: "Explain the error below and the most likely cause.\n\nError:\n",
                tip: "Tip: include the exact error message and the command you ran.",
            },
        ),
        AiPromptTemplateId::DebugCommand => Some(
            AiPromptTemplate {
                id,
                label: "Debug command",
                prompt: "Help me debug this command. Explain what is failing and how to fix it.\n\nCommand:\n\nOutput:\n",
                tip: "Tip: add the full command output and any environment details.",
            },
        ),
        AiPromptTemplateId::SummarizeOutput => Some(
            AiPromptTemplate {
                id,
                label: "Summarize output",
                prompt: "Summarize the output below in a few bullets.\n\nOutput:\n",
                tip: "Tip: include only the relevant section of output you want summarized.",
            },
        ),
        AiPromptTemplateId::GenerateCommand => Some(
            AiPromptTemplate {
                id,
                label: "Generate command",
                prompt: "Generate a command that does the following task.\n\nTask:\n",
                tip: "Tip: specify OS, tools, and any constraints (e.g., no sudo).",
            },
        ),
        AiPromptTemplateId::RefactorSnippet => Some(
            AiPromptTemplate {
                id,
                label: "Refactor snippet",
                prompt: "Refactor the code below for clarity and best practices.\n\nCode:\n",
                tip: "Tip: mention the language, style preferences, and any constraints.",
            },
        ),
    }
}

/// A split direction in the pane layout.
#[derive(Debug, Clone, Copy, PartialEq, Eq, Structural)]
pub enum Axis {
    Horizontal,
    Vertical,
}

/// One command-palette action.
#[derive(Debug, Clone)]
pub enum PaletteAction {
    SplitPaneHorizontal,
    SplitPaneVertical,
    ClosePane,
    SwitchTab(usize),
    RunPinnedCommand(usize),
    ToggleAi,
    ToggleAiPanel,
    SetAiContextScope(AiContextScope),
    ApplyAiTemplate(AiPromptTemplateId),
    ExportTheme,
    ImportTheme,
    OpenBilling,
}

/// How much context an assistant request would carry.
#[derive(Debug, Clone, Copy)]
pub struct AiContextPreview {
    pub block_count: usize,
    pub char_count: usize,
    pub token_estimate: usize,
}

} // verus!
