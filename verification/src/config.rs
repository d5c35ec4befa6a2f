//! The parts of the configuration that decisions depend on.
use vstd::prelude::*;
use crate::secrets::Secret;

verus! {

/// The kinds of messaging channels.
#[derive(Debug, Clone, Copy, PartialEq, Eq, Structural)]
pub enum GatewayChannelKind {
    Discord,
}

/// How a provider is authorized.
#[derive(Debug, Clone, Copy, PartialEq, Eq, Structural)]
pub enum ProviderAuthMode {
    ApiKey,
    Oauth,
}

/// The settings of a Gemini provider.
#[derive(PartialEq, Eq)]
pub struct GeminiProviderConfig {
    pub api_base: String,
    pub model: String,
    pub api_key: Option<Secret<String>>,
}

/// The settings of a Moonshot provider.
#[derive(PartialEq, Eq)]
pub struct MoonshotProviderConfig {
    pub mode: ProviderAuthMode,
    pub api_base: String,
    pub model: String,
    pub api_key: Option<String>,
}

/// The settings of an OpenAI Codex provider.
#[derive(PartialEq, Eq)]
pub struct OpenAiCodexProviderConfig {
    pub model: String,
}

/// The settings of one provider.
#[derive(PartialEq, Eq)]
pub enum ProviderEntryConfig {
    Gemini(GeminiProviderConfig),
    Moonshot(MoonshotProviderConfig),
    OpenAiCodex(OpenAiCodexProviderConfig),
}

/// The kinds of providers.
#[derive(Debug, Clone, Copy, PartialEq, Eq, Structural)]
pub enum ProviderKind {
    Gemini,
    Moonshot,
    OpenAiCodex,
}

impl Clone for GeminiProviderConfig {
    fn clone(&self) -> (r: Self)
        ensures
            r == *self,
    {
        GeminiProviderConfig {
            api_base: self.api_base.clone(),
            model: self.model.clone(),
            api_key: match &self.api_key {
                Some(key) => Some(key.clone()),
                None => None,
            },
        }
    }
}

impl Clone for MoonshotProviderConfig {
    fn clone(&self) -> (r: Self)
        ensures
            r == *self,
    {
        MoonshotProviderConfig {
            mode: self.mode,
            api_base: self.api_base.clone(),
            model: self.model.clone(),
            api_key: match &self.api_key {
                Some(key) => Some(key.clone()),
                None => None,
            },
        }
    }
}

impl Clone for OpenAiCodexProviderConfig {
    fn clone(&self) -> (r: Self)
        ensures
            r == *self,
    {
        OpenAiCodexProviderConfig { model: self.model.clone() }
    }
}

impl ProviderKind {
    /// The name of the kind.
    pub open spec fn label(self) -> Seq<char> {
        match self {
            ProviderKind::Gemini => "gemini"@,
            ProviderKind::Moonshot => "moonshot"@,
            ProviderKind::OpenAiCodex => "openai_codex"@,
        }
    }

    /// The name of the kind.
    pub fn as_str(self) -> (r: &'static str)
        ensures
            r@ == self.label(),
    {
        match self {
            ProviderKind::Gemini => "gemini",
            ProviderKind::Moonshot => "moonshot",
            ProviderKind::OpenAiCodex => "openai_codex",
        }
    }
}

impl ProviderEntryConfig {
    /// The kind of the provider.
    pub open spec fn kind_view(self) -> ProviderKind {
        match self {
            ProviderEntryConfig::Gemini(_) => ProviderKind::Gemini,
            ProviderEntryConfig::Moonshot(_) => ProviderKind::Moonshot,
            ProviderEntryConfig::OpenAiCodex(_) => ProviderKind::OpenAiCodex,
        }
    }

    /// The kind of the provider.
    pub fn kind(&self) -> (r: ProviderKind)
        ensures
            r == self.kind_view(),
    {
        match self {
            ProviderEntryConfig::Gemini(_) => ProviderKind::Gemini,
            ProviderEntryConfig::Moonshot(_) => ProviderKind::Moonshot,
            ProviderEntryConfig::OpenAiCodex(_) => ProviderKind::OpenAiCodex,
        }
    }
}

/// The settings of all providers, by their keys.
#[derive(PartialEq, Eq)]
pub struct ProvidersConfig {
    pub entries: Vec<(String, ProviderEntryConfig)>,
}

impl GatewayChannelKind {
    /// The name of the kind.
    pub open spec fn label(self) -> Seq<char> {
        match self {
            GatewayChannelKind::Discord => "discord"@,
        }
    }

    /// The name of the kind.
    pub fn as_str(self) -> (r: &'static str)
        ensures
            r@ == self.label(),
    {
        match self {
            GatewayChannelKind::Discord => "discord",
        }
    }
}

/// The settings of the cron tool.
#[derive(Debug, Clone, Copy, PartialEq, Eq, Structural)]
pub struct CronToolConfig {
    pub max_jobs_per_agent: Option<u32>,
    pub guard_timeout_seconds: Option<u64>,
}

/// How far a tool may reach out of its sandbox.
#[derive(Debug, PartialEq, Eq)]
pub struct ToolSandboxConfig {
    pub enabled: bool,
    pub extra_readable_paths: Vec<String>,
    pub extra_writable_paths: Vec<String>,
    pub network_enabled: Option<bool>,
}

impl Default for ToolSandboxConfig {
    fn default() -> (r: Self)
        ensures
            r.enabled,
            r.extra_readable_paths@ == Seq::<String>::empty(),
            r.extra_writable_paths@ == Seq::<String>::empty(),
            r.network_enabled is None,
    {
        ToolSandboxConfig {
            enabled: true,
            extra_readable_paths: Vec::new(),
            extra_writable_paths: Vec::new(),
            network_enabled: None,
        }
    }
}

/// The settings of the exec tool.
#[derive(Debug, PartialEq, Eq)]
pub struct ExecToolConfig {
    pub timeout_seconds: Option<u64>,
    pub allow_background: bool,
    pub sandbox: ToolSandboxConfig,
}

impl Default for ExecToolConfig {
    fn default() -> (r: Self)
        ensures
            r.timeout_seconds is None,
            !r.allow_background,
            r.sandbox.enabled,
            r.sandbox.extra_readable_paths@ == Seq::<String>::empty(),
            r.sandbox.extra_writable_paths@ == Seq::<String>::empty(),
            r.sandbox.network_enabled is None,
    {
        ExecToolConfig {
            timeout_seconds: None,
            allow_background: false,
            sandbox: ToolSandboxConfig::default(),
        }
    }
}

/// The settings of a tool that works on files.
#[derive(Debug, PartialEq, Eq)]
pub struct FileToolConfig {
    pub timeout_seconds: Option<u64>,
    pub sandbox: ToolSandboxConfig,
}

impl Default for FileToolConfig {
    fn default() -> (r: Self)
        ensures
            r.timeout_seconds is None,
            r.sandbox.enabled,
            r.sandbox.extra_readable_paths@ == Seq::<String>::empty(),
            r.sandbox.extra_writable_paths@ == Seq::<String>::empty(),
            r.sandbox.network_enabled is None,
    {
        FileToolConfig { timeout_seconds: None, sandbox: ToolSandboxConfig::default() }
    }
}

/// The kinds of models have names of their own, and an entry is of the kind that it sets up.
pub proof fn law_kinds_have_names_of_their_own(
    a: ProviderKind,
    b: ProviderKind,
    entry: ProviderEntryConfig,
)
    ensures
        a.label() == b.label() ==> a == b,
        entry is Gemini <==> entry.kind_view() == ProviderKind::Gemini,
        entry is Moonshot <==> entry.kind_view() == ProviderKind::Moonshot,
        entry is OpenAiCodex <==> entry.kind_view() == ProviderKind::OpenAiCodex,
{
    reveal_strlit("gemini");
    reveal_strlit("moonshot");
    reveal_strlit("openai_codex");
    assert("gemini"@.len() == 6);
    assert("moonshot"@.len() == 8);
    assert("openai_codex"@.len() == 12);
}

} // verus!
