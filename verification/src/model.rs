//! Which provider, client and model a run uses.
use vstd::prelude::*;

use crate::settings::first_given;
use crate::text::{chars_of, same_text};

verus! {

/// A provider as it is configured.
#[derive(Clone, Debug)]
pub struct ProviderConfig {
    pub name: String,
    /// `openai` (responses API), `openai_completions`, `anthropic`, `gemini`, `cohere` or `xai`.
    pub client: Option<String>,
    pub api_key: Option<String>,
    pub base_url: Option<String>,
}

/// The model to use where none is named.
pub open spec fn default_model() -> Seq<char> {
    "openai/gpt-4o"@
}

/// Picks the model: the command line's, the agent's, the configured one, or the default.
pub fn choose_model(
    given: Option<String>,
    agent: Option<String>,
    configured: Option<String>,
) -> (model: String)
    ensures
        model@ == match crate::settings::either(given, crate::settings::either(agent, configured)) {
            Some(name) => name@,
            None => default_model(),
        },
        given is Some ==> model@ == given->0@,
        given is None && agent is Some ==> model@ == agent->0@,
        given is None && agent is None && configured is Some ==> model@ == configured->0@,
        given is None && agent is None && configured is None ==> model@ == "openai/gpt-4o"@,
{
    match first_given(given, first_given(agent, configured)) {
        Some(name) => name,
        None => "openai/gpt-4o".to_owned(),
    }
}

/// Whether `i` is where the first `/` stands.
pub open spec fn is_first_slash(text: Seq<char>, i: int) -> bool {
    &&& 0 <= i < text.len()
    &&& text[i] == '/'
    &&& forall|j: int| 0 <= j < i ==> #[trigger] text[j] != '/'
}

/// The provider and the model that `<provider>/<model>` names; without a `/`, the whole is a
/// model of `openai`.
pub open spec fn model_parts(full: Seq<char>) -> (Seq<char>, Seq<char>) {
    if exists|i: int| is_first_slash(full, i) {
        let i = choose|i: int| is_first_slash(full, i);
        (full.take(i), full.skip(i + 1))
    } else {
        ("openai"@, full)
    }
}

proof fn lemma_first_slash_unique(text: Seq<char>, i: int, j: int)
    requires
        is_first_slash(text, i),
        is_first_slash(text, j),
    ensures
        i == j,
{
}

/// Splits a full model name into provider and model.
pub fn split_model(full: &str) -> (parts: (String, String))
    ensures
        (parts.0@, parts.1@) == model_parts(full@),
{
    let chars = chars_of(full);
    let n = chars.len();
    let mut i: usize = 0;
    while i < n
        invariant
            i <= n,
            n == chars@.len(),
            chars@ == full@,
            forall|j: int| 0 <= j < i ==> #[trigger] full@[j] != '/',
        decreases n - i,
    {
        if chars[i] == '/' {
            assert(is_first_slash(full@, i as int));
            proof {
                let chosen = choose|k: int| is_first_slash(full@, k);
                lemma_first_slash_unique(full@, i as int, chosen);
            }
            return (
                full.substring_char(0, i).to_owned(),
                full.substring_char(i + 1, n).to_owned(),
            );
        }
        i = i + 1;
    }
    ("openai".to_owned(), full.to_owned())
}

/// Whether provider `i` is the first of that name.
pub open spec fn is_first_named(
    providers: Seq<ProviderConfig>,
    name: Seq<char>,
    i: int,
) -> bool {
    &&& 0 <= i < providers.len()
    &&& providers[i].name@ == name
    &&& forall|j: int| 0 <= j < i ==> (#[trigger] providers[j]).name@ != name
}

/// How a provider is reached.
#[derive(Clone, Debug)]
pub struct Route {
    pub client_type: String,
    pub api_key: Option<String>,
    pub base_url: Option<String>,
}

/// Whether `route` is the way to the provider of that name: the settings of the first provider
/// configured under it, or none. The client is the provider's name unless one is set.
pub open spec fn is_route(
    providers: Seq<ProviderConfig>,
    name: Seq<char>,
    route: Route,
) -> bool {
    if exists|i: int| is_first_named(providers, name, i) {
        let provider = providers[choose|i: int| is_first_named(providers, name, i)];
        &&& route.client_type@ == match provider.client {
            Some(client) => client@,
            None => name,
        }
        &&& route.api_key == provider.api_key
        &&& route.base_url == provider.base_url
    } else {
        &&& route.client_type@ == name
        &&& route.api_key is None
        &&& route.base_url is None
    }
}

/// Finds out how to reach a provider.
pub fn find_route(providers: &Vec<ProviderConfig>, name: &str) -> (route: Route)
    ensures
        is_route(providers@, name@, route),
{
    let mut i: usize = 0;
    while i < providers.len()
        invariant
            i <= providers@.len(),
            forall|j: int| 0 <= j < i ==> (#[trigger] providers@[j]).name@ != name@,
        decreases providers@.len() - i,
    {
        if same_text(providers[i].name.as_str(), name) {
            assert(is_first_named(providers@, name@, i as int));
            proof {
                let chosen = choose|k: int| is_first_named(providers@, name@, k);
                assert(chosen == i);
            }
            let client_type = match &providers[i].client {
                Some(client) => client.clone(),
                None => name.to_owned(),
            };
            return Route {
                client_type,
                api_key: providers[i].api_key.clone(),
                base_url: providers[i].base_url.clone(),
            };
        }
        i = i + 1;
    }
    Route { client_type: name.to_owned(), api_key: None, base_url: None }
}

/// The environment variable that holds a client's key; empty for an unknown client.
pub open spec fn key_variable(client_type: Seq<char>) -> Seq<char> {
    if client_type == "openai"@ || client_type == "openai_completions"@ || client_type
        == "openai_responses"@ {
        "OPENAI_API_KEY"@
    } else if client_type == "anthropic"@ {
        "ANTHROPIC_API_KEY"@
    } else if client_type == "gemini"@ {
        "GEMINI_API_KEY"@
    } else if client_type == "cohere"@ {
        "COHERE_API_KEY"@
    } else if client_type == "xai"@ {
        "XAI_API_KEY"@
    } else {
        ""@
    }
}

/// Names the environment variable that holds a client's key.
pub fn env_var_name(client_type: &str) -> (variable: &'static str)
    ensures
        variable@ == key_variable(client_type@),
{
    if same_text(client_type, "openai") || same_text(client_type, "openai_completions")
        || same_text(client_type, "openai_responses") {
        "OPENAI_API_KEY"
    } else if same_text(client_type, "anthropic") {
        "ANTHROPIC_API_KEY"
    } else if same_text(client_type, "gemini") {
        "GEMINI_API_KEY"
    } else if same_text(client_type, "cohere") {
        "COHERE_API_KEY"
    } else if same_text(client_type, "xai") {
        "XAI_API_KEY"
    } else {
        ""
    }
}

/// The key to use: the configured one, or the environment's where none is configured.
pub open spec fn key_text(
    configured: Option<Seq<char>>,
    from_env: Option<Seq<char>>,
) -> Seq<char> {
    match crate::settings::either(configured, from_env) {
        Some(key) => key,
        None => seq![],
    }
}

/// The complaint about a provider without a key.
pub open spec fn no_key_error(provider_name: Seq<char>) -> Seq<char> {
    "error: no API key found for provider '"@ + provider_name
        + "'. configure it in ~/.config/airun/config.toml or export it as an environment variable."@
}

/// Picks the key of a provider; a missing or empty one is an error.
pub fn choose_api_key(
    configured: Option<String>,
    from_env: Option<String>,
    provider_name: &str,
) -> (result: Result<String, String>)
    ensures
        ({
            let key = key_text(
                crate::text::opt_view(configured),
                crate::text::opt_view(from_env),
            );
            if key.len() == 0 {
                result matches Err(error) && error@ == no_key_error(provider_name@)
            } else {
                result matches Ok(chosen) && chosen@ == key
            }
        }),
{
    let key = match first_given(configured, from_env) {
        Some(key) => key,
        None => String::new(),
    };
    if key.as_str().is_empty() {
        Err(
            "error: no API key found for provider '".to_owned().concat(provider_name).concat(
                "'. configure it in ~/.config/airun/config.toml or export it as an environment variable.",
            ),
        )
    } else {
        Ok(key)
    }
}

/// The clients that can be used.
#[derive(Clone, Copy, Debug, PartialEq, Eq, Structural)]
pub enum ClientKind {
    OpenAiCompletions,
    OpenAiResponses,
    Anthropic,
    Gemini,
    Cohere,
    Xai,
}

/// The client that a word names, if it names one.
pub open spec fn client_named(word: Seq<char>) -> Option<ClientKind> {
    if word == "openai_completions"@ {
        Some(ClientKind::OpenAiCompletions)
    } else if word == "openai"@ || word == "openai_responses"@ {
        Some(ClientKind::OpenAiResponses)
    } else if word == "anthropic"@ {
        Some(ClientKind::Anthropic)
    } else if word == "gemini"@ {
        Some(ClientKind::Gemini)
    } else if word == "cohere"@ {
        Some(ClientKind::Cohere)
    } else if word == "xai"@ {
        Some(ClientKind::Xai)
    } else {
        None
    }
}

impl ClientKind {
    /// Reads a client type.
    pub fn from_name(word: &str) -> (client: Option<ClientKind>)
        ensures
            client == client_named(word@),
    {
        if same_text(word, "openai_completions") {
            Some(ClientKind::OpenAiCompletions)
        } else if same_text(word, "openai") || same_text(word, "openai_responses") {
            Some(ClientKind::OpenAiResponses)
        } else if same_text(word, "anthropic") {
            Some(ClientKind::Anthropic)
        } else if same_text(word, "gemini") {
            Some(ClientKind::Gemini)
        } else if same_text(word, "cohere") {
            Some(ClientKind::Cohere)
        } else if same_text(word, "xai") {
            Some(ClientKind::Xai)
        } else {
            None
        }
    }
}

// --- laws ---

/// A provider and a model joined by a `/` are taken apart again; only the first `/` counts.
pub proof fn law_model_round_trip(provider: Seq<char>, model: Seq<char>)
    requires
        !provider.contains('/'),
    ensures
        model_parts(provider + seq!['/'] + model) == (provider, model),
{
    let full = provider + seq!['/'] + model;
    let n = provider.len() as int;
    assert forall|j: int| 0 <= j < n implies #[trigger] full[j] != '/' by {
        assert(full[j] == provider[j]);
        assert(provider.contains(provider[j]));
    }
    assert(full[n] == '/');
    assert(is_first_slash(full, n));
    let i = choose|i: int| is_first_slash(full, i);
    lemma_first_slash_unique(full, i, n);
    assert(full.take(n) == provider);
    assert(full.skip(n + 1) == model);
}

/// A name without a `/` is a model of `openai`.
pub proof fn law_bare_model_is_openai(model: Seq<char>)
    requires
        !model.contains('/'),
    ensures
        model_parts(model) == ("openai"@, model),
{
    assert forall|i: int| !is_first_slash(model, i) by {
        if is_first_slash(model, i) {
            assert(model.contains(model[i]));
        }
    }
}

/// A client has a variable for its key exactly if it can be used.
pub proof fn law_known_clients_have_keys(client_type: Seq<char>)
    ensures
        client_named(client_type) is Some <==> key_variable(client_type).len() > 0,
{
    reveal_strlit("OPENAI_API_KEY");
    reveal_strlit("ANTHROPIC_API_KEY");
    reveal_strlit("GEMINI_API_KEY");
    reveal_strlit("COHERE_API_KEY");
    reveal_strlit("XAI_API_KEY");
    reveal_strlit("");
}

/// The way to a provider is that of the first provider configured under its name: its client, or
/// the name where it has none, its key and its address. A name that is not configured is its own
/// client, without key and address.
pub proof fn law_route_to_a_provider(
    providers: Seq<ProviderConfig>,
    name: Seq<char>,
    route: Route,
    i: int,
)
    requires
        is_route(providers, name, route),
    ensures
        0 <= i < providers.len() && providers[i].name@ == name && (forall|j: int|
            0 <= j < i ==> (#[trigger] providers[j]).name@ != name) ==> {
            &&& providers[i].client matches Some(client) ==> route.client_type@ == client@
            &&& providers[i].client is None ==> route.client_type@ == name
            &&& route.api_key == providers[i].api_key
            &&& route.base_url == providers[i].base_url
        },
        (forall|j: int| 0 <= j < providers.len() ==> (#[trigger] providers[j]).name@ != name) ==> {
            &&& route.client_type@ == name
            &&& route.api_key is None
            &&& route.base_url is None
        },
{
    if is_first_named(providers, name, i) {
        let chosen = choose|k: int| is_first_named(providers, name, k);
        assert(providers[chosen].name@ == name && providers[i].name@ == name);
        assert(chosen == i);
    }
    if forall|j: int| 0 <= j < providers.len() ==> (#[trigger] providers[j]).name@ != name {
        assert forall|k: int| !is_first_named(providers, name, k) by {}
    }
}

/// Each client reads its key from its own variable, and an unknown one from none.
pub proof fn law_key_variables(word: Seq<char>)
    ensures
        key_variable("openai"@) == "OPENAI_API_KEY"@,
        key_variable("openai_completions"@) == "OPENAI_API_KEY"@,
        key_variable("openai_responses"@) == "OPENAI_API_KEY"@,
        key_variable("anthropic"@) == "ANTHROPIC_API_KEY"@,
        key_variable("gemini"@) == "GEMINI_API_KEY"@,
        key_variable("cohere"@) == "COHERE_API_KEY"@,
        key_variable("xai"@) == "XAI_API_KEY"@,
        word != "openai"@ && word != "openai_completions"@ && word != "openai_responses"@ && word
            != "anthropic"@ && word != "gemini"@ && word != "cohere"@ && word != "xai"@
            ==> key_variable(word) == Seq::<char>::empty(),
{
    lemma_client_words_differ();
    reveal_strlit("");
}

/// The words for clients are different words.
proof fn lemma_client_words_differ()
    ensures
        "openai"@.len() == 6 && "openai"@[0] == 'o',
        "openai_completions"@.len() == 18,
        "openai_responses"@.len() == 16,
        "anthropic"@.len() == 9,
        "gemini"@.len() == 6 && "gemini"@[0] == 'g',
        "cohere"@.len() == 6 && "cohere"@[0] == 'c',
        "xai"@.len() == 3,
{
    reveal_strlit("openai");
    reveal_strlit("openai_completions");
    reveal_strlit("openai_responses");
    reveal_strlit("anthropic");
    reveal_strlit("gemini");
    reveal_strlit("cohere");
    reveal_strlit("xai");
}

/// Each client goes by its own name; the one for responses goes by two.
pub proof fn law_client_names(word: Seq<char>)
    ensures
        client_named(word) == Some(ClientKind::OpenAiCompletions) <==> word
            == "openai_completions"@,
        client_named(word) == Some(ClientKind::OpenAiResponses) <==> word == "openai"@ || word
            == "openai_responses"@,
        client_named(word) == Some(ClientKind::Anthropic) <==> word == "anthropic"@,
        client_named(word) == Some(ClientKind::Gemini) <==> word == "gemini"@,
        client_named(word) == Some(ClientKind::Cohere) <==> word == "cohere"@,
        client_named(word) == Some(ClientKind::Xai) <==> word == "xai"@,
        client_named(word) is None <==> word != "openai"@ && word != "openai_completions"@ && word
            != "openai_responses"@ && word != "anthropic"@ && word != "gemini"@ && word
            != "cohere"@ && word != "xai"@,
{
    lemma_client_words_differ();
}

/// A configured key is used as it is; without one, the environment's; without either there is
/// none.
pub proof fn law_which_key_is_used(
    key: Seq<char>,
    from_env: Option<Seq<char>>,
    value: Seq<char>,
)
    ensures
        key_text(Some(key), from_env) == key,
        key_text(None, Some(value)) == value,
        key_text(None, None) == Seq::<char>::empty(),
{
}

/// What is said where a key is missing, and which model is used where none is named.
pub proof fn law_model_texts(provider_name: Seq<char>)
    ensures
        default_model() == "openai/gpt-4o"@,
        no_key_error(provider_name) == "error: no API key found for provider '"@ + provider_name
            + "'. configure it in ~/.config/airun/config.toml or export it as an environment variable."@,
{
}

} // verus!
