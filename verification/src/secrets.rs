//! Secrets that a configuration refers to by name.
use vstd::prelude::*;
use crate::error::{FrameworkError, ErrorView};
use crate::error;
use crate::text;

verus! {

/// A reference to a secret, and its value once resolved.
#[derive(PartialEq, Eq)]
pub struct Secret<T> {
    name: String,
    resolved: Option<T>,
}

impl<T> Secret<T> {
    /// The name referred to.
    pub closed spec fn name_view(&self) -> Seq<char> {
        self.name@
    }

    /// The value, once resolved.
    pub closed spec fn value(&self) -> Option<T> {
        self.resolved
    }

    /// A reference to the secret called `name`, not resolved yet.
    pub fn from_name(name: &str) -> (r: Self)
        ensures
            r.name_view() == name@,
            r.value() is None,
    {
        Self { name: name.to_owned(), resolved: None }
    }

    /// The name referred to.
    pub fn name(&self) -> (r: &str)
        ensures
            r@ == self.name_view(),
    {
        self.name.as_str()
    }

    /// What a log may show of the secret: nothing.
    pub fn debug_text(&self) -> (r: String)
        ensures
            r@ == "Secret([redacted])"@,
    {
        "Secret([redacted])".to_owned()
    }

    /// The name referred to.
    pub fn into_name(self) -> (r: String)
        ensures
            r@ == self.name_view(),
    {
        self.name
    }
}

/// Whether `c` may stand in the name of a secret.
pub open spec fn name_char(c: char) -> bool {
    text::is_alnum(c) || c == '_' || c == '-' || c == '.'
}

/// Whether every character of `name` may stand in the name of a secret.
pub open spec fn valid_name(name: Seq<char>) -> bool {
    forall|i: int| 0 <= i < name.len() ==> name_char(#[trigger] name[i])
}

/// The text before the name in a reference.
pub const PREFIX: &'static str = "${secret:";

/// The text after the name in a reference.
pub const SUFFIX: &'static str = "}";

/// The reference to the secret called `name`.
pub open spec fn reference(name: Seq<char>) -> Seq<char> {
    PREFIX@ + name + SUFFIX@
}

/// The name in a reference: what stands between the prefix and the suffix.
pub open spec fn between(trimmed: Seq<char>) -> Seq<char> {
    trimmed.subrange(PREFIX@.len() as int, trimmed.len() - SUFFIX@.len())
}

/// The name that `raw` refers to, or why it is no reference.
pub open spec fn referred_name(field_path: Seq<char>, raw: Seq<char>) -> Result<
    Seq<char>,
    ErrorView,
> {
    let trimmed = text::trim(raw);
    if !text::starts_with(trimmed, PREFIX@) || !text::ends_with(trimmed, SUFFIX@) {
        Err(
            ErrorView::Config(
                field_path + " must use secret reference syntax ${secret:<name>}"@,
            ),
        )
    } else if between(trimmed).len() == 0 || !valid_name(between(trimmed)) {
        Err(
            ErrorView::Config(
                field_path + " has invalid secret reference '"@ + trimmed
                    + "'; expected ${secret:<name>} with [A-Za-z0-9_.-]+"@,
            ),
        )
    } else {
        Ok(between(trimmed))
    }
}

/// Whether every character of `name` may stand in the name of a secret.
pub fn is_valid_secret_name(name: &str) -> (r: bool)
    ensures
        r == valid_name(name@),
{
    let chars = text::chars_of(name);
    let mut i: usize = 0;
    while i < chars.len()
        invariant
            i <= chars@.len(),
            chars@ == name@,
            forall|j: int| 0 <= j < i ==> name_char(#[trigger] name@[j]),
        decreases chars@.len() - i,
    {
        let c = chars[i];
        if !(text::alphanumeric(c) || c == '_' || c == '-' || c == '.') {
            assert(!name_char(name@[i as int]));
            return false;
        }
        i = i + 1;
    }
    true
}

/// The name that `raw` refers to, or why it is no reference.
pub fn parse_secret_reference(field_path: &str, raw: &str) -> (r: Result<String, FrameworkError>)
    ensures
        error::text_result(r) == referred_name(field_path@, raw@),
{
    let trimmed = text::trimmed(raw);
    proof {
        reveal_strlit("${secret:");
        reveal_strlit("}");
    }
    if !text::begins_with(trimmed.as_str(), PREFIX) || !text::finishes_with(
        trimmed.as_str(),
        SUFFIX,
    ) {
        let message = text::concat2(
            field_path,
            " must use secret reference syntax ${secret:<name>}",
        );
        return Err(FrameworkError::Config(message));
    }
    let chars = text::chars_of(trimmed.as_str());
    proof {
        lemma_prefix_apart(trimmed@);
    }
    let name = text::string_of_range(&chars, 9, chars.len() - 1);
    if name.as_str().is_empty() || !is_valid_secret_name(name.as_str()) {
        let mut message = text::concat2(field_path, " has invalid secret reference '");
        message.append(trimmed.as_str());
        message.append("'; expected ${secret:<name>} with [A-Za-z0-9_.-]+");
        return Err(FrameworkError::Config(message));
    }
    Ok(name)
}

/// The prefix and the suffix of a reference do not overlap.
proof fn lemma_prefix_apart(s: Seq<char>)
    requires
        text::starts_with(s, PREFIX@),
        text::ends_with(s, SUFFIX@),
    ensures
        PREFIX@.len() == 9,
        SUFFIX@.len() == 1,
        s.len() >= 10,
{
    reveal_strlit("${secret:");
    reveal_strlit("}");
    if s.len() == 9 {
        assert(s.subrange(0, 9) =~= s);
        assert(s.subrange(8, 9)[0] == s[8]);
        assert(PREFIX@[8] == ':');
        assert(SUFFIX@[0] == '}');
    }
}

/// A valid name is read back from the reference that is written for it.
pub proof fn law_reference_round_trip(field_path: Seq<char>, name: Seq<char>)
    requires
        name.len() > 0,
        valid_name(name),
    ensures
        referred_name(field_path, reference(name)) == Ok::<Seq<char>, ErrorView>(name),
{
    reveal_strlit("${secret:");
    reveal_strlit("}");
    let s = reference(name);
    assert(s[0] == '$');
    assert(s.last() == '}');
    assert(text::trim(s) == s);
    assert(s.subrange(0, 9) =~= PREFIX@);
    assert(s.subrange(s.len() - 1, s.len() as int) =~= SUFFIX@);
    assert(between(s) =~= name);
}

/// What `serde_yaml` makes of a text as a mapping from text to text: the mapping, or the message
/// of its error.
pub uninterp spec fn parsed_secrets(content: Seq<char>) -> Result<
    Map<Seq<char>, Seq<char>>,
    Seq<char>,
>;

/// The entries as a mapping; of two with one key the later counts.
pub open spec fn entries_map(entries: Seq<(String, String)>) -> Map<Seq<char>, Seq<char>>
    decreases entries.len(),
{
    if entries.len() == 0 {
        Map::empty()
    } else {
        entries_map(entries.drop_last()).insert(entries.last().0@, entries.last().1@)
    }
}

/// Whether no two entries have one key.
pub open spec fn entries_distinct(entries: Seq<(String, String)>) -> bool {
    forall|i: int, j: int|
        0 <= i < j < entries.len() ==> (#[trigger] entries[i]).0@ != (#[trigger] entries[j]).0@
}

/// `serde_yaml::from_str` into a map from text to text, and the message of its error.  The
/// mapping is named; it depends on the text alone, and the map holds each key once.
#[verifier::external_body]
fn secrets_of_yaml(content: &str) -> (r: Result<Vec<(String, String)>, String>)
    ensures
        match r {
            Ok(entries) => parsed_secrets(content@) == Ok::<Map<Seq<char>, Seq<char>>, Seq<char>>(
                entries_map(entries@),
            ) && entries_distinct(entries@),
            Err(message) => parsed_secrets(content@) == Err::<
                Map<Seq<char>, Seq<char>>,
                Seq<char>,
            >(message@),
        },
{
    serde_yaml::from_str::<std::collections::HashMap<String, String>>(content)
        .map(|entries| entries.into_iter().collect())
        .map_err(|e| e.to_string())
}

/// The keys of the mapping are those of the entries.
proof fn lemma_entries(entries: Seq<(String, String)>, key: Seq<char>)
    ensures
        entries_map(entries).contains_key(key) <==> exists|i: int|
            0 <= i < entries.len() && (#[trigger] entries[i]).0@ == key,
    decreases entries.len(),
{
    if entries.len() > 0 {
        lemma_entries(entries.drop_last(), key);
        let n = entries.len() - 1;
        if entries[n].0@ == key {
        } else if exists|i: int| 0 <= i < entries.len() && (#[trigger] entries[i]).0@ == key {
            let i = choose|i: int| 0 <= i < entries.len() && (#[trigger] entries[i]).0@ == key;
            assert(entries.drop_last()[i].0@ == key);
        } else if entries_map(entries.drop_last()).contains_key(key) {
            let i = choose|i: int|
                0 <= i < entries.drop_last().len() && (#[trigger] entries.drop_last()[i]).0@ == key;
            assert(entries[i].0@ == key);
        }
    }
}

/// Where keys are distinct, each entry is what its key leads to.
proof fn lemma_entry_at(entries: Seq<(String, String)>, i: int)
    requires
        entries_distinct(entries),
        0 <= i < entries.len(),
    ensures
        entries_map(entries).contains_key(entries[i].0@),
        entries_map(entries)[entries[i].0@] == entries[i].1@,
    decreases entries.len(),
{
    if i < entries.len() - 1 {
        lemma_entry_at(entries.drop_last(), i);
        assert(entries[i].0@ != entries.last().0@);
    }
}

/// The secrets that the content of the secrets file holds; none where there is no file or the
/// file is blank.
pub open spec fn loaded_secrets(content: Option<Seq<char>>, secrets_path: Seq<char>) -> Result<
    Map<Seq<char>, Seq<char>>,
    ErrorView,
> {
    if content is None || text::is_blank(content->0) {
        Ok(Map::empty())
    } else {
        match parsed_secrets(content->0) {
            Ok(secrets) => Ok(secrets),
            Err(message) => Err(
                ErrorView::Config(
                    "failed to parse secrets file "@ + secrets_path + ": "@ + message,
                ),
            ),
        }
    }
}

/// Where secrets are looked up: the environment first, then the secrets file.
pub struct SecretResolver {
    file_secrets: Vec<(String, String)>,
    secrets_path_display: String,
}

/// The value of a secret, unless it is blank.
pub open spec fn checked_value(
    value: Seq<char>,
    source: Seq<char>,
    name: Seq<char>,
    secrets_path: Seq<char>,
) -> Result<Seq<char>, ErrorView> {
    if text::is_blank(value) {
        Err(
            ErrorView::Config(
                "secret '"@ + name + "' resolved from "@ + source
                    + " is empty; expected a non-empty value (searched env first, then "@
                    + secrets_path + ")"@,
            ),
        )
    } else {
        Ok(value)
    }
}

/// The value of the secret called `name`.
pub open spec fn resolved_secret(
    name: Seq<char>,
    env_value: Option<Seq<char>>,
    file_secrets: Map<Seq<char>, Seq<char>>,
    secrets_path: Seq<char>,
) -> Result<Seq<char>, ErrorView> {
    if text::is_blank(name) {
        Err(ErrorView::Config("secret name cannot be empty"@))
    } else if env_value is Some {
        checked_value(
            env_value->0,
            "environment variable '"@ + name + "'"@,
            name,
            secrets_path,
        )
    } else if file_secrets.contains_key(name) {
        checked_value(file_secrets[name], "secrets file "@ + secrets_path, name, secrets_path)
    } else {
        Err(
            ErrorView::Config(
                "secret '"@ + name + "' not found in environment variable '"@ + name
                    + "' or secrets file "@ + secrets_path,
            ),
        )
    }
}

/// A value in the environment comes before one in the secrets file.
pub proof fn law_environment_first(
    name: Seq<char>,
    env_value: Seq<char>,
    file_secrets: Map<Seq<char>, Seq<char>>,
    secrets_path: Seq<char>,
)
    requires
        !text::is_blank(name),
        !text::is_blank(env_value),
    ensures
        resolved_secret(name, Some(env_value), file_secrets, secrets_path) == Ok::<
            Seq<char>,
            ErrorView,
        >(env_value),
{
}

/// A resolved secret is never blank.
pub proof fn law_resolved_is_not_blank(
    name: Seq<char>,
    env_value: Option<Seq<char>>,
    file_secrets: Map<Seq<char>, Seq<char>>,
    secrets_path: Seq<char>,
)
    ensures
        resolved_secret(name, env_value, file_secrets, secrets_path) matches Ok(value)
            ==> !text::is_blank(value),
{
}

/// The value of a secret, unless it is blank.
pub fn ensure_nonempty(
    value: String,
    source: String,
    name: &str,
    secrets_path_display: &str,
) -> (r: Result<String, FrameworkError>)
    ensures
        error::text_result(r) == checked_value(value@, source@, name@, secrets_path_display@),
{
    if text::blank(value.as_str()) {
        let mut message = text::concat3("secret '", name, "' resolved from ");
        message.append(source.as_str());
        message.append(" is empty; expected a non-empty value (searched env first, then ");
        message.append(secrets_path_display);
        message.append(")");
        return Err(FrameworkError::Config(message));
    }
    Ok(value)
}

impl SecretResolver {
    /// The secrets that the file holds.
    pub closed spec fn file_secrets(&self) -> Map<Seq<char>, Seq<char>> {
        entries_map(self.file_secrets@)
    }

    /// How the path of the secrets file is shown.
    pub closed spec fn secrets_path(&self) -> Seq<char> {
        self.secrets_path_display@
    }

    /// Whether the file holds each name once.
    #[verifier::type_invariant]
    closed spec fn wf(self) -> bool {
        entries_distinct(self.file_secrets@)
    }

    /// A resolver over the secrets of a file that has been read.
    pub fn from_entries(entries: Vec<(String, String)>, secrets_path_display: &str) -> (r: Self)
        requires
            entries_distinct(entries@),
        ensures
            r.file_secrets() == entries_map(entries@),
            r.secrets_path() == secrets_path_display@,
    {
        Self { file_secrets: entries, secrets_path_display: secrets_path_display.to_owned() }
    }

    /// A resolver over the content of the secrets file, where there is one.
    pub fn new(content: Option<&str>, secrets_path_display: &str) -> (r: Result<
        Self,
        FrameworkError,
    >)
        ensures
            match r {
                Ok(resolver) => resolver.secrets_path() == secrets_path_display@ && loaded_secrets(
                    crate::json::opt_str(content),
                    secrets_path_display@,
                ) == Ok::<Map<Seq<char>, Seq<char>>, ErrorView>(resolver.file_secrets()),
                Err(error) => loaded_secrets(
                    crate::json::opt_str(content),
                    secrets_path_display@,
                ) == Err::<Map<Seq<char>, Seq<char>>, ErrorView>(error@),
            },
    {
        let mut file_secrets: Vec<(String, String)> = Vec::new();
        if let Some(given) = content {
            if !text::blank(given) {
                match secrets_of_yaml(given) {
                    Ok(entries) => {
                        file_secrets = entries;
                    },
                    Err(message) => {
                        let mut full = text::concat3(
                            "failed to parse secrets file ",
                            secrets_path_display,
                            ": ",
                        );
                        full.append(message.as_str());
                        return Err(FrameworkError::Config(full));
                    },
                }
            }
        }
        Ok(Self::from_entries(file_secrets, secrets_path_display))
    }

    /// The value of the secret called `name`, given what the environment holds under that name.
    pub fn resolve(&self, name: &str, env_value: Option<String>) -> (r: Result<
        String,
        FrameworkError,
    >)
        ensures
            error::text_result(r) == resolved_secret(
                name@,
                text::opt_view(env_value),
                self.file_secrets(),
                self.secrets_path(),
            ),
    {
        proof {
            use_type_invariant(self);
        }
        if text::blank(name) {
            return Err(error::config_error("secret name cannot be empty"));
        }
        if let Some(value) = env_value {
            return ensure_nonempty(
                value,
                text::concat3("environment variable '", name, "'"),
                name,
                self.secrets_path_display.as_str(),
            );
        }
        let mut i: usize = 0;
        while i < self.file_secrets.len()
            invariant
                i <= self.file_secrets@.len(),
                entries_distinct(self.file_secrets@),
                forall|j: int| 0 <= j < i ==> (#[trigger] self.file_secrets@[j]).0@ != name@,
                !text::is_blank(name@),
                env_value is None,
            decreases self.file_secrets@.len() - i,
        {
            if text::same_text(self.file_secrets[i].0.as_str(), name) {
                proof {
                    lemma_entry_at(self.file_secrets@, i as int);
                }
                return ensure_nonempty(
                    self.file_secrets[i].1.clone(),
                    text::concat2("secrets file ", self.secrets_path_display.as_str()),
                    name,
                    self.secrets_path_display.as_str(),
                );
            }
            i = i + 1;
        }
        proof {
            lemma_entries(self.file_secrets@, name@);
        }
        let mut message = text::concat3("secret '", name, "' not found in environment variable '");
        message.append(name);
        message.append("' or secrets file ");
        message.append(self.secrets_path_display.as_str());
        Err(FrameworkError::Config(message))
    }
}

impl Clone for Secret<String> {
    fn clone(&self) -> (r: Self)
        ensures
            r == *self,
    {
        Secret {
            name: self.name.clone(),
            resolved: match &self.resolved {
                Some(value) => Some(value.clone()),
                None => None,
            },
        }
    }
}

impl Secret<String> {
    /// The value, once resolved.
    pub fn exposed(&self) -> (r: Option<&str>)
        ensures
            crate::json::opt_str(r) == text::opt_view(self.value()),
    {
        match &self.resolved {
            Some(value) => Some(value.as_str()),
            None => None,
        }
    }

    /// The reference that stands for the secret in a configuration.
    pub fn to_reference(&self) -> (r: String)
        ensures
            r@ == reference(self.name_view()),
    {
        text::concat3(PREFIX, self.name.as_str(), SUFFIX)
    }

    /// The secret that a configured text refers to, not resolved yet.
    pub fn from_reference(raw: &str) -> (r: Result<Self, FrameworkError>)
        ensures
            match r {
                Ok(secret) => referred_name("secret"@, raw@) == Ok::<Seq<char>, ErrorView>(
                    secret.name_view(),
                ) && secret.value() is None,
                Err(error) => referred_name("secret"@, raw@) == Err::<Seq<char>, ErrorView>(error@),
            },
    {
        match parse_secret_reference("secret", raw) {
            Ok(name) => Ok(Self::from_name(name.as_str())),
            Err(error) => Err(error),
        }
    }

    /// Resolves the secret, given what the environment holds under its name.
    pub fn resolve(
        &mut self,
        resolver: &SecretResolver,
        env_value: Option<String>,
        field_path: &str,
    ) -> (r: Result<(), FrameworkError>)
        ensures
            final(self).name_view() == old(self).name_view(),
            match resolved_secret(
                old(self).name_view(),
                text::opt_view(env_value),
                resolver.file_secrets(),
                resolver.secrets_path(),
            ) {
                Ok(value) => r is Ok && text::opt_view(final(self).value()) == Some(value),
                Err(error) => final(self).value() == old(self).value() && error::unit_result(r)
                    == Err::<(), ErrorView>(
                    ErrorView::Config(field_path@ + " failed to resolve: "@ + error.message()),
                ),
            },
    {
        match resolver.resolve(self.name.as_str(), env_value) {
            Ok(value) => {
                self.resolved = Some(value);
                Ok(())
            },
            Err(error) => {
                let mut message = text::concat2(field_path, " failed to resolve: ");
                message.append(error.message().as_str());
                Err(FrameworkError::Config(message))
            },
        }
    }
}

/// A secret that the environment does not hold is the one of the file, as it is; one that neither
/// holds is not found.
pub proof fn law_files_hold_secrets_too(
    name: Seq<char>,
    file_secrets: Map<Seq<char>, Seq<char>>,
    secrets_path: Seq<char>,
)
    requires
        !text::is_blank(name),
    ensures
        file_secrets.contains_key(name) && !text::is_blank(file_secrets[name]) ==> resolved_secret(
            name,
            None,
            file_secrets,
            secrets_path,
        ) == Ok::<Seq<char>, ErrorView>(file_secrets[name]),
        !file_secrets.contains_key(name) ==> resolved_secret(name, None, file_secrets, secrets_path)
            is Err,
{
}

/// The secrets of a file are those it holds; a file that is not there, or says nothing, holds none,
/// and one that cannot be understood is an error.
pub proof fn law_secrets_are_those_of_the_file(content: Seq<char>, secrets_path: Seq<char>)
    ensures
        loaded_secrets(None, secrets_path) == Ok::<Map<Seq<char>, Seq<char>>, ErrorView>(
            Map::empty(),
        ),
        text::is_blank(content) ==> loaded_secrets(Some(content), secrets_path) == Ok::<
            Map<Seq<char>, Seq<char>>,
            ErrorView,
        >(Map::empty()),
        !text::is_blank(content) && parsed_secrets(content) is Ok ==> loaded_secrets(
            Some(content),
            secrets_path,
        ) == Ok::<Map<Seq<char>, Seq<char>>, ErrorView>(parsed_secrets(content)->Ok_0),
        !text::is_blank(content) && parsed_secrets(content) is Err ==> loaded_secrets(
            Some(content),
            secrets_path,
        ) is Err,
{
}

/// Each entry is found under its name, and nothing else is.
pub proof fn law_entries_are_found_by_name(
    entries: Seq<(String, String)>,
    i: int,
    name: Seq<char>,
)
    requires
        0 <= i < entries.len(),
        entries_distinct(entries),
    ensures
        entries_map(entries).contains_key(entries[i].0@),
        entries_map(entries)[entries[i].0@] == entries[i].1@,
        (forall|k: int| 0 <= k < entries.len() ==> (#[trigger] entries[k]).0@ != name)
            ==> !entries_map(entries).contains_key(name),
{
    lemma_entry_at(entries, i);
    lemma_entries(entries, name);
}

/// What is not written as a reference is no reference, and neither is one to nothing.
pub proof fn law_other_texts_are_no_references(field_path: Seq<char>, raw: Seq<char>)
    ensures
        !text::starts_with(text::trim(raw), "${secret:"@) ==> referred_name(field_path, raw) is Err,
        !text::ends_with(text::trim(raw), "}"@) ==> referred_name(field_path, raw) is Err,
        referred_name(field_path, raw) matches Ok(name) ==> name.len() > 0 && forall|i: int|
            0 <= i < name.len() ==> 'a' <= #[trigger] name[i] <= 'z' || 'A' <= name[i] <= 'Z' || '0'
                <= name[i] <= '9' || name[i] == '_' || name[i] == '-' || name[i] == '.',
{
    if referred_name(field_path, raw) is Ok {
        let name = referred_name(field_path, raw)->Ok_0;
        assert forall|i: int| 0 <= i < name.len() implies 'a' <= #[trigger] name[i] <= 'z' || 'A'
            <= name[i] <= 'Z' || '0' <= name[i] <= '9' || name[i] == '_' || name[i] == '-'
            || name[i] == '.' by {
            assert(name_char(name[i]));
        }
    }
}

/// A secret that is found is held, under the name that it was asked for; one that is not found
/// changes nothing.
pub proof fn law_found_secrets_are_held(
    secret: &mut Secret<String>,
    resolver: &SecretResolver,
    env_value: Option<String>,
    field_path: &str,
    r: Result<(), FrameworkError>,
)
    requires
        call_ensures(
            Secret::<String>::resolve,
            (secret, resolver, env_value, field_path),
            r,
        ),
        !text::is_blank(old(secret).name_view()),
    ensures
        final(secret).name_view() == old(secret).name_view(),
        env_value is Some && !text::is_blank(env_value->0@) ==> r is Ok && final(secret).value()
            is Some && final(secret).value()->0@ == env_value->0@,
        r is Err ==> final(secret).value() == old(secret).value(),
{
}

} // verus!
