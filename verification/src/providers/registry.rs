//! The known kinds of providers, and the providers of a configuration.
use vstd::prelude::*;
use crate::config::{ProviderEntryConfig, ProviderKind, ProvidersConfig};
use crate::error::{ErrorView, FrameworkError};
use crate::error;
use crate::providers::gemini::GeminiProvider;
use crate::providers::moonshot_compatible::MoonshotCompatibleProvider;
use crate::providers::moonshot_compatible;
use crate::providers::openai_codex::OpenAiCodexProvider;
use crate::text;

verus! {

/// What is known of a kind of provider.
pub struct ProviderMetadata {
    pub kind: ProviderKind,
    pub supports_native_tools: bool,
    pub known_models: Vec<&'static str>,
}

/// What is known of a kind of provider, as it reads.
#[verifier::ext_equal]
pub struct MetadataView {
    pub kind: ProviderKind,
    pub supports_native_tools: bool,
    pub known_models: Seq<Seq<char>>,
}

impl View for ProviderMetadata {
    type V = MetadataView;

    open spec fn view(&self) -> MetadataView {
        MetadataView {
            kind: self.kind,
            supports_native_tools: self.supports_native_tools,
            known_models: Seq::new(self.known_models@.len(), |i: int| self.known_models@[i]@),
        }
    }
}

/// What is known of each kind.
pub open spec fn metadata_of(kind: ProviderKind) -> MetadataView {
    MetadataView {
        kind,
        supports_native_tools: true,
        known_models: match kind {
            ProviderKind::Gemini => seq![
                "gemini-2.5-flash"@,
                "gemini-2.5-pro"@,
                "gemini-2.0-flash"@,
                "gemini-2.0-flash-lite"@,
            ],
            ProviderKind::Moonshot => Seq::empty(),
            ProviderKind::OpenAiCodex => seq![
                "gpt-5.3-codex"@,
                "gpt-5-codex"@,
                "gpt-5.1-codex-mini"@,
            ],
        },
    }
}

/// A provider of one of the kinds.
pub enum AnyProvider {
    Gemini(GeminiProvider),
    Moonshot(MoonshotCompatibleProvider),
    OpenAiCodex(OpenAiCodexProvider),
}

/// Whether a provider is the one that an entry describes.
pub open spec fn fits(provider: AnyProvider, entry: ProviderEntryConfig) -> bool {
    match (provider, entry) {
        (AnyProvider::Gemini(provider), ProviderEntryConfig::Gemini(config)) => provider.settings()
            == config,
        (AnyProvider::Moonshot(provider), ProviderEntryConfig::Moonshot(config)) => Ok::<
            moonshot_compatible::SettingsView,
            ErrorView,
        >(provider@) == moonshot_compatible::configured(config),
        (AnyProvider::OpenAiCodex(provider), ProviderEntryConfig::OpenAiCodex(config)) => {
            provider.model_view() == config.model@
        },
        _ => false,
    }
}

/// The error of making a provider of a kind from an entry, if there is one.
pub open spec fn creation_error(kind: ProviderKind, entry: ProviderEntryConfig) -> Option<
    ErrorView,
> {
    match kind {
        ProviderKind::Gemini => if entry is Gemini {
            None
        } else {
            Some(ErrorView::Config("gemini provider received wrong provider config variant"@))
        },
        ProviderKind::Moonshot => match entry {
            ProviderEntryConfig::Moonshot(config) => match moonshot_compatible::configured(config) {
                Ok(_) => None,
                Err(error) => Some(error),
            },
            _ => Some(
                ErrorView::Config(
                    "moonshot provider adapter received wrong provider config variant"@,
                ),
            ),
        },
        ProviderKind::OpenAiCodex => if entry is OpenAiCodex {
            None
        } else {
            Some(
                ErrorView::Config(
                    "openai_codex provider adapter received wrong provider config variant"@,
                ),
            )
        },
    }
}

/// Whether a result is what making a provider has to give.
pub open spec fn created(
    r: Result<AnyProvider, FrameworkError>,
    entry: ProviderEntryConfig,
    error: Option<ErrorView>,
) -> bool {
    match (r, error) {
        (Ok(provider), None) => fits(provider, entry),
        (Err(told), Some(error)) => told@ == error,
        _ => false,
    }
}

/// Makes the providers of one kind.
pub trait ProviderAdapter {
    /// The kind of providers that it makes.
    spec fn kind_view(&self) -> ProviderKind;

    /// What is known of the kind.
    fn metadata(&self) -> (r: ProviderMetadata)
        ensures
            r@ == metadata_of(self.kind_view()),
    ;

    /// Makes the provider that an entry describes.
    fn create(&self, provider_key: &str, entry: &ProviderEntryConfig) -> (r: Result<
        AnyProvider,
        FrameworkError,
    >)
        ensures
            created(r, *entry, creation_error(self.kind_view(), *entry)),
    ;
}

/// Makes Gemini providers.
pub struct GeminiProviderAdapter;

impl ProviderAdapter for GeminiProviderAdapter {
    open spec fn kind_view(&self) -> ProviderKind {
        ProviderKind::Gemini
    }

    fn metadata(&self) -> (r: ProviderMetadata) {
        let r = ProviderMetadata {
            kind: ProviderKind::Gemini,
            supports_native_tools: true,
            known_models: vec![
                "gemini-2.5-flash",
                "gemini-2.5-pro",
                "gemini-2.0-flash",
                "gemini-2.0-flash-lite",
            ],
        };
        assert(r@ =~= metadata_of(ProviderKind::Gemini));
        r
    }

    fn create(&self, provider_key: &str, entry: &ProviderEntryConfig) -> (r: Result<
        AnyProvider,
        FrameworkError,
    >) {
        match GeminiProvider::from_entry(entry) {
            Ok(provider) => Ok(AnyProvider::Gemini(provider)),
            Err(error) => Err(error),
        }
    }
}

/// Makes Moonshot providers.
pub struct MoonshotProviderAdapter;

impl ProviderAdapter for MoonshotProviderAdapter {
    open spec fn kind_view(&self) -> ProviderKind {
        ProviderKind::Moonshot
    }

    fn metadata(&self) -> (r: ProviderMetadata) {
        let r = ProviderMetadata {
            kind: ProviderKind::Moonshot,
            supports_native_tools: true,
            known_models: Vec::new(),
        };
        assert(r@ =~= metadata_of(ProviderKind::Moonshot));
        r
    }

    fn create(&self, provider_key: &str, entry: &ProviderEntryConfig) -> (r: Result<
        AnyProvider,
        FrameworkError,
    >) {
        match entry {
            ProviderEntryConfig::Moonshot(config) => {
                match MoonshotCompatibleProvider::from_moonshot_config(
                    provider_key,
                    config.clone(),
                ) {
                    Ok(provider) => Ok(AnyProvider::Moonshot(provider)),
                    Err(error) => Err(error),
                }
            },
            _ => Err(
                error::config_error(
                    "moonshot provider adapter received wrong provider config variant",
                ),
            ),
        }
    }
}

/// Makes OpenAI Codex providers.
pub struct OpenAiCodexProviderAdapter;

impl ProviderAdapter for OpenAiCodexProviderAdapter {
    open spec fn kind_view(&self) -> ProviderKind {
        ProviderKind::OpenAiCodex
    }

    fn metadata(&self) -> (r: ProviderMetadata) {
        let r = ProviderMetadata {
            kind: ProviderKind::OpenAiCodex,
            supports_native_tools: true,
            known_models: vec!["gpt-5.3-codex", "gpt-5-codex", "gpt-5.1-codex-mini"],
        };
        assert(r@ =~= metadata_of(ProviderKind::OpenAiCodex));
        r
    }

    fn create(&self, provider_key: &str, entry: &ProviderEntryConfig) -> (r: Result<
        AnyProvider,
        FrameworkError,
    >) {
        match entry {
            ProviderEntryConfig::OpenAiCodex(config) => Ok(
                AnyProvider::OpenAiCodex(OpenAiCodexProvider::from_config(config.clone())),
            ),
            _ => Err(
                error::config_error(
                    "openai_codex provider adapter received wrong provider config variant",
                ),
            ),
        }
    }
}

/// The kinds of providers that can be made.
pub struct ProviderRegistry {
    gemini: Option<GeminiProviderAdapter>,
    moonshot: Option<MoonshotProviderAdapter>,
    openai_codex: Option<OpenAiCodexProviderAdapter>,
}

/// The error about a kind that is not registered.
pub open spec fn not_registered(kind: ProviderKind) -> ErrorView {
    ErrorView::Config("provider kind '"@ + kind.label() + "' is not registered"@)
}

impl ProviderRegistry {
    /// Whether a kind is registered.
    pub closed spec fn has(&self, kind: ProviderKind) -> bool {
        match kind {
            ProviderKind::Gemini => self.gemini is Some,
            ProviderKind::Moonshot => self.moonshot is Some,
            ProviderKind::OpenAiCodex => self.openai_codex is Some,
        }
    }

    /// A registry of all kinds.
    pub fn new() -> (r: Self)
        ensures
            forall|kind: ProviderKind| r.has(kind),
    {
        Self {
            gemini: Some(GeminiProviderAdapter),
            moonshot: Some(MoonshotProviderAdapter),
            openai_codex: Some(OpenAiCodexProviderAdapter),
        }
    }

    /// The error about a kind that is not registered.
    fn missing(kind: ProviderKind) -> (r: FrameworkError)
        ensures
            r@ == not_registered(kind),
    {
        FrameworkError::Config(
            text::concat3("provider kind '", kind.as_str(), "' is not registered"),
        )
    }

    /// Makes the provider that an entry describes.
    pub fn create_provider(&self, provider_key: &str, entry: &ProviderEntryConfig) -> (r: Result<
        AnyProvider,
        FrameworkError,
    >)
        ensures
            created(
                r,
                *entry,
                if self.has(entry.kind_view()) {
                    creation_error(entry.kind_view(), *entry)
                } else {
                    Some(not_registered(entry.kind_view()))
                },
            ),
    {
        let kind = entry.kind();
        match kind {
            ProviderKind::Gemini => {
                if let Some(adapter) = &self.gemini {
                    return adapter.create(provider_key, entry);
                }
            },
            ProviderKind::Moonshot => {
                if let Some(adapter) = &self.moonshot {
                    return adapter.create(provider_key, entry);
                }
            },
            ProviderKind::OpenAiCodex => {
                if let Some(adapter) = &self.openai_codex {
                    return adapter.create(provider_key, entry);
                }
            },
        }
        Err(Self::missing(kind))
    }

    /// What is known of a kind.
    pub fn metadata_for_kind(&self, kind: ProviderKind) -> (r: Result<
        ProviderMetadata,
        FrameworkError,
    >)
        ensures
            match r {
                Ok(metadata) => self.has(kind) && metadata@ == metadata_of(kind),
                Err(error) => !self.has(kind) && error@ == not_registered(kind),
            },
    {
        match kind {
            ProviderKind::Gemini => {
                if let Some(adapter) = &self.gemini {
                    return Ok(adapter.metadata());
                }
            },
            ProviderKind::Moonshot => {
                if let Some(adapter) = &self.moonshot {
                    return Ok(adapter.metadata());
                }
            },
            ProviderKind::OpenAiCodex => {
                if let Some(adapter) = &self.openai_codex {
                    return Ok(adapter.metadata());
                }
            },
        }
        Err(Self::missing(kind))
    }
}

/// A provider that is in use.
pub struct ProviderEntry<P> {
    pub provider: P,
    pub supports_native_tools: bool,
}

/// The providers in use, by their keys.
pub struct ProviderFactory<P> {
    entries: Vec<(String, ProviderEntry<P>)>,
}

/// The entry under a key; of two under one key the later one counts.
pub open spec fn entry_at<P>(entries: Seq<(String, ProviderEntry<P>)>, key: Seq<char>) -> Option<
    ProviderEntry<P>,
>
    decreases entries.len(),
{
    if entries.len() == 0 {
        None
    } else if entries.last().0@ == key {
        Some(entries.last().1)
    } else {
        entry_at(entries.drop_last(), key)
    }
}

/// The error of the first entry whose provider cannot be made.
pub open spec fn first_error(entries: Seq<(String, ProviderEntryConfig)>) -> Option<ErrorView>
    decreases entries.len(),
{
    if entries.len() == 0 {
        None
    } else {
        match first_error(entries.drop_last()) {
            Some(error) => Some(error),
            None => creation_error(entries.last().1.kind_view(), entries.last().1),
        }
    }
}

/// Whether the providers are those that the settings describe, one for one.
pub open spec fn built(
    entries: Seq<(String, ProviderEntry<AnyProvider>)>,
    settings: Seq<(String, ProviderEntryConfig)>,
) -> bool {
    &&& entries.len() == settings.len()
    &&& forall|i: int|
        0 <= i < settings.len() ==> (#[trigger] entries[i]).0@ == settings[i].0@ && fits(
            entries[i].1.provider,
            settings[i].1,
        ) && entries[i].1.supports_native_tools == metadata_of(
            settings[i].1.kind_view(),
        ).supports_native_tools
}

impl ProviderFactory<AnyProvider> {
    /// The providers of a configuration.
    pub fn from_config(config: &ProvidersConfig) -> (r: Result<Self, FrameworkError>)
        ensures
            match r {
                Ok(factory) => first_error(config.entries@) is None && built(
                    factory.entries_view(),
                    config.entries@,
                ),
                Err(error) => first_error(config.entries@) == Some(error@),
            },
    {
        let registry = ProviderRegistry::new();
        let mut entries: Vec<(String, ProviderEntry<AnyProvider>)> = Vec::new();
        let ghost all = config.entries@;
        let mut i: usize = 0;
        while i < config.entries.len()
            invariant
                i <= config.entries@.len(),
                all == config.entries@,
                forall|kind: ProviderKind| registry.has(kind),
                first_error(all.take(i as int)) is None,
                built(entries@, all.take(i as int)),
            decreases config.entries@.len() - i,
        {
            let (key, entry) = &config.entries[i];
            proof {
                assert(all.take(i + 1).drop_last() =~= all.take(i as int));
                assert(all.take(i + 1).last() == all[i as int]);
            }
            let provider = match registry.create_provider(key.as_str(), entry) {
                Ok(provider) => provider,
                Err(error) => {
                    proof {
                        lemma_first_error(all, i + 1);
                    }
                    return Err(error);
                },
            };
            let metadata = match registry.metadata_for_kind(entry.kind()) {
                Ok(metadata) => metadata,
                Err(error) => {
                    return Err(error);
                },
            };
            entries.push(
                (
                    key.clone(),
                    ProviderEntry {
                        provider,
                        supports_native_tools: metadata.supports_native_tools,
                    },
                ),
            );
            i = i + 1;
        }
        assert(all.take(i as int) =~= all);
        Ok(Self { entries })
    }
}

/// An error among the first entries is the first error of all.
proof fn lemma_first_error(entries: Seq<(String, ProviderEntryConfig)>, n: int)
    requires
        0 <= n <= entries.len(),
        first_error(entries.take(n)) is Some,
    ensures
        first_error(entries) == first_error(entries.take(n)),
    decreases entries.len() - n,
{
    if n < entries.len() {
        assert(entries.take(n + 1).drop_last() =~= entries.take(n));
        lemma_first_error(entries, n + 1);
    } else {
        assert(entries.take(n) =~= entries);
    }
}

impl<P> ProviderFactory<P> {
    /// The providers with their keys.
    pub closed spec fn entries_view(&self) -> Seq<(String, ProviderEntry<P>)> {
        self.entries@
    }

    /// A factory of given providers, each with whether it takes tool specifications.
    pub fn from_parts(parts: Vec<(String, P, bool)>) -> (r: Self)
        ensures
            r.entries_view().len() == parts@.len(),
            forall|i: int|
                0 <= i < parts@.len() ==> (#[trigger] r.entries_view()[i]) == (
                    parts@[i].0,
                    ProviderEntry {
                        provider: parts@[i].1,
                        supports_native_tools: parts@[i].2,
                    },
                ),
    {
        let ghost given = parts@;
        let mut entries: Vec<(String, ProviderEntry<P>)> = Vec::new();
        for part in iter: parts
            invariant
                iter.seq() == given,
                entries@.len() == iter.index(),
                forall|i: int|
                    0 <= i < entries@.len() ==> (#[trigger] entries@[i]) == (
                        given[i].0,
                        ProviderEntry {
                            provider: given[i].1,
                            supports_native_tools: given[i].2,
                        },
                    ),
        {
            let (key, provider, supports_native_tools) = part;
            entries.push((key, ProviderEntry { provider, supports_native_tools }));
        }
        Self { entries }
    }

    /// The entry under a key.
    fn find(&self, key: &str) -> (r: Option<&ProviderEntry<P>>)
        ensures
            match r {
                Some(entry) => entry_at(self.entries_view(), key@) == Some(*entry),
                None => entry_at(self.entries_view(), key@) is None,
            },
    {
        let mut n: usize = self.entries.len();
        assert(self.entries@.take(n as int) =~= self.entries@);
        while n > 0
            invariant
                n <= self.entries@.len(),
                entry_at(self.entries_view(), key@) == entry_at(self.entries@.take(n as int), key@),
            decreases n,
        {
            n = n - 1;
            assert(self.entries@.take(n + 1).drop_last() =~= self.entries@.take(n as int));
            assert(self.entries@.take(n + 1).last() == self.entries@[n as int]);
            if text::same_text(self.entries[n].0.as_str(), key) {
                return Some(&self.entries[n].1);
            }
        }
        None
    }

    /// The provider under a key.
    pub fn get(&self, key: &str) -> (r: Result<&P, FrameworkError>)
        ensures
            match entry_at(self.entries_view(), key@) {
                Some(entry) => r == Ok::<&P, FrameworkError>(&entry.provider),
                None => r is Err && r->Err_0@ == ErrorView::Config(
                    "unknown provider key '"@ + key@ + "'"@,
                ),
            },
    {
        match self.find(key) {
            Some(entry) => Ok(&entry.provider),
            None => Err(
                FrameworkError::Config(text::concat3("unknown provider key '", key, "'")),
            ),
        }
    }

    /// Whether the provider under a key takes tool specifications; no provider does not.
    pub fn supports_native_tools(&self, key: &str) -> (r: bool)
        ensures
            r == (match entry_at(self.entries_view(), key@) {
                Some(entry) => entry.supports_native_tools,
                None => false,
            }),
    {
        match self.find(key) {
            Some(entry) => entry.supports_native_tools,
            None => false,
        }
    }
}

/// Every provider that is made from settings takes tool specifications.
pub proof fn law_configured_providers_take_tools(
    entries: Seq<(String, ProviderEntry<AnyProvider>)>,
    settings: Seq<(String, ProviderEntryConfig)>,
    key: Seq<char>,
)
    requires
        built(entries, settings),
        entry_at(entries, key) is Some,
    ensures
        entry_at(entries, key)->0.supports_native_tools,
    decreases entries.len(),
{
    if entries.last().0@ == key {
        assert(entries[entries.len() - 1] == entries.last());
    } else {
        assert(built(entries.drop_last(), settings.drop_last()));
        law_configured_providers_take_tools(entries.drop_last(), settings.drop_last(), key);
    }
}

/// Under a key stands the last provider that was entered with it.
pub proof fn law_providers_are_found_by_their_key<P>(
    entries: Seq<(String, ProviderEntry<P>)>,
    key: Seq<char>,
)
    ensures
        match entry_at(entries, key) {
            Some(entry) => exists|i: int|
                0 <= i < entries.len() && (#[trigger] entries[i]).0@ == key && entries[i].1 == entry
                    && forall|j: int| i < j < entries.len() ==> (#[trigger] entries[j]).0@ != key,
            None => forall|i: int| 0 <= i < entries.len() ==> (#[trigger] entries[i]).0@ != key,
        },
    decreases entries.len(),
{
    if entries.len() > 0 {
        let before = entries.drop_last();
        assert(entries[entries.len() - 1] == entries.last());
        if entries.last().0@ != key {
            law_providers_are_found_by_their_key(before, key);
            assert forall|i: int| 0 <= i < before.len() implies before[i] == #[trigger] entries[i] by {
            }
            if entry_at(before, key) is Some {
                let i = choose|i: int|
                    0 <= i < before.len() && (#[trigger] before[i]).0@ == key && before[i].1
                        == entry_at(before, key)->Some_0 && forall|j: int|
                        i < j < before.len() ==> (#[trigger] before[j]).0@ != key;
                assert(entries[i].0@ == key);
            }
        }
    }
}

/// A provider is made from the entry of its kind, with the settings of that entry, and from no other.
pub proof fn law_providers_are_as_set_up(
    r: Result<AnyProvider, FrameworkError>,
    entry: ProviderEntryConfig,
)
    requires
        created(r, entry, creation_error(entry.kind_view(), entry)),
    ensures
        match entry {
            ProviderEntryConfig::Gemini(config) => r is Ok && r->Ok_0 is Gemini
                && r->Ok_0->Gemini_0.settings() == config,
            ProviderEntryConfig::OpenAiCodex(config) => r is Ok && r->Ok_0 is OpenAiCodex
                && r->Ok_0->OpenAiCodex_0.model_view() == config.model@,
            ProviderEntryConfig::Moonshot(config) => {
                &&& r is Ok <==> moonshot_compatible::configured(config) is Ok
                &&& r is Ok ==> r->Ok_0 is Moonshot && r->Ok_0->Moonshot_0@
                    == moonshot_compatible::configured(config)->Ok_0
            },
        },
{
}

/// Providers are set up only where every entry can be; the first that cannot names the error.
pub proof fn law_every_entry_must_work(entries: Seq<(String, ProviderEntryConfig)>)
    ensures
        first_error(entries) is None <==> forall|i: int|
            0 <= i < entries.len() ==> creation_error(
                (#[trigger] entries[i]).1.kind_view(),
                entries[i].1,
            ) is None,
    decreases entries.len(),
{
    if entries.len() > 0 {
        let before = entries.drop_last();
        law_every_entry_must_work(before);
        assert(entries[entries.len() - 1] == entries.last());
        assert forall|i: int| 0 <= i < before.len() implies before[i] == #[trigger] entries[i] by {}
    }
}

/// Every model can call tools by itself, and a model that is known is known under its own kind.
pub proof fn law_known_models_are_of_their_kind(kind: ProviderKind)
    ensures
        metadata_of(kind).kind == kind,
        metadata_of(kind).supports_native_tools,
        kind == ProviderKind::Moonshot <==> metadata_of(kind).known_models.len() == 0,
{
}

} // verus!
