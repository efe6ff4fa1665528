//! What a process does from its arguments and settings: its role, the models it
//! uses, and whether what is stored has to be embedded anew.

use crate::chunking;
use crate::config;
use crate::config::{read_int, read_size, read_uint};
use crate::text;
use crate::text::{
    byte_len, chars_of, decimal_string, lowers_to_word, parse_uint, same_text, starts_with_chars,
    string_of, trim_chars,
};
use vstd::prelude::*;
use vstd::slice::slice_subrange;

verus! {

// --- Roles ---

/// What part of the work a process does.
#[derive(Debug, Clone, Copy, PartialEq, Eq, Structural)]
pub enum Role {
    /// It runs the embedding jobs and answers embedding and reranking requests.
    Embedder,
    /// It runs the indexing jobs and keeps both queues in order.
    Worker,
    /// It does both.
    Both,
}

impl Role {
    /// The role's name.
    pub open spec fn name(self) -> Seq<char> {
        match self {
            Role::Embedder => "embedder"@,
            Role::Worker => "worker"@,
            Role::Both => "both"@,
        }
    }

    /// The role's name.
    pub fn as_str(self) -> (r: &'static str)
        ensures
            r@ == self.name(),
    {
        match self {
            Role::Embedder => "embedder",
            Role::Worker => "worker",
            Role::Both => "both",
        }
    }
}

/// The role that a text names, whatever its case and the space around it.
pub open spec fn role_named(s: Seq<char>) -> Option<Role> {
    let word = text::trim(s);
    if text::lowers_to(word, "embedder"@) {
        Some(Role::Embedder)
    } else if text::lowers_to(word, "worker"@) {
        Some(Role::Worker)
    } else if text::lowers_to(word, "both"@) {
        Some(Role::Both)
    } else {
        None
    }
}

/// Compares the lower-case form of a text with a word.
fn is_word(s: &[char], word: &str) -> (r: bool)
    ensures
        r == text::lowers_to(s@, word@),
{
    let chars = chars_of(word);
    lowers_to_word(s, chars.as_slice())
}

/// Reads the name of a role.
pub fn parse_role(s: &str) -> (r: Option<Role>)
    ensures
        r == role_named(s@),
{
    let chars = chars_of(s);
    let word = trim_chars(chars.as_slice());
    if is_word(word, "embedder") {
        Some(Role::Embedder)
    } else if is_word(word, "worker") {
        Some(Role::Worker)
    } else if is_word(word, "both") {
        Some(Role::Both)
    } else {
        None
    }
}

/// Why no role can be told.
#[derive(Debug)]
pub enum RoleError {
    /// The value of the argument names no role.
    BadFlag(String),
    /// The argument has no value.
    MissingValue,
    /// The setting names no role.
    BadSetting(String),
}

/// Why no role can be told.
pub enum RoleErrorModel {
    BadFlag(Seq<char>),
    MissingValue,
    BadSetting(Seq<char>),
}

/// The result with the error's text.
pub open spec fn role_result(r: Result<Role, RoleError>) -> Result<Role, RoleErrorModel> {
    match r {
        Ok(role) => Ok(role),
        Err(RoleError::BadFlag(s)) => Err(RoleErrorModel::BadFlag(s@)),
        Err(RoleError::MissingValue) => Err(RoleErrorModel::MissingValue),
        Err(RoleError::BadSetting(s)) => Err(RoleErrorModel::BadSetting(s@)),
    }
}

/// The role for the value of the argument.
pub open spec fn role_for_flag(value: Seq<char>) -> Result<Role, RoleErrorModel> {
    match role_named(value) {
        Some(role) => Ok(role),
        None => Err(RoleErrorModel::BadFlag(value)),
    }
}

/// The role that the arguments from the `i`th on give, if one of them is
/// `--role=` with a value, or `--role` with the value in the next one.
pub open spec fn role_in_args(args: Seq<Seq<char>>, i: int) -> Option<Result<Role, RoleErrorModel>>
    decreases args.len() - i,
{
    if i < 0 || i >= args.len() {
        None
    } else if text::starts_with(args[i], "--role="@) {
        Some(role_for_flag(args[i].skip("--role="@.len() as int)))
    } else if args[i] == "--role"@ {
        if i + 1 < args.len() {
            Some(role_for_flag(args[i + 1]))
        } else {
            Some(Err(RoleErrorModel::MissingValue))
        }
    } else {
        role_in_args(args, i + 1)
    }
}

/// The role of a process: the argument decides, else the setting where it is not
/// blank; without either it is an embedder.
pub open spec fn role_of(args: Seq<Seq<char>>, setting: Option<Seq<char>>) -> Result<
    Role,
    RoleErrorModel,
> {
    match role_in_args(args, 0) {
        Some(r) => r,
        None => match setting {
            Some(s) => if text::trim(s).len() > 0 {
                match role_named(s) {
                    Some(role) => Ok(role),
                    None => Err(RoleErrorModel::BadSetting(s)),
                }
            } else {
                Ok(Role::Embedder)
            },
            None => Ok(Role::Embedder),
        },
    }
}

/// The role for the value of the argument.
fn resolve_flag(value: &str) -> (r: Result<Role, RoleError>)
    ensures
        role_result(r) == role_for_flag(value@),
{
    match parse_role(value) {
        Some(role) => Ok(role),
        None => Err(RoleError::BadFlag(value.to_owned())),
    }
}

/// Tells a process's role from its arguments, without the program's name, and
/// its setting.
pub fn resolve_role(args: &Vec<String>, setting: Option<&str>) -> (r: Result<Role, RoleError>)
    ensures
        role_result(r) == role_of(text::string_texts(args@), text::opt_str(setting)),
{
    let ghost all = text::string_texts(args@);
    let prefix = chars_of("--role=");
    let total: usize = args.len();
    let mut i: usize = 0;
    while i < total
        invariant
            i <= total,
            total == args@.len(),
            all == text::string_texts(args@),
            prefix@ == "--role="@,
            role_in_args(all, 0) == role_in_args(all, i as int),
        decreases total - i,
    {
        let arg = chars_of(args[i].as_str());
        assert(arg@ == all[i as int]);
        if starts_with_chars(arg.as_slice(), prefix.as_slice()) {
            let value = slice_subrange(arg.as_slice(), prefix.len(), arg.len());
            assert(value@ =~= arg@.skip(prefix@.len() as int));
            return resolve_flag(string_of(value).as_str());
        }
        if same_text(args[i].as_str(), "--role") {
            if i + 1 < total {
                assert(args@[i + 1]@ == all[i + 1]);
                return resolve_flag(args[i + 1].as_str());
            }
            return Err(RoleError::MissingValue);
        }
        i += 1;
    }
    match setting {
        Some(s) => {
            if is_set(Some(s)) {
                match parse_role(s) {
                    Some(role) => Ok(role),
                    None => Err(RoleError::BadSetting(s.to_owned())),
                }
            } else {
                Ok(Role::Embedder)
            }
        },
        None => Ok(Role::Embedder),
    }
}

/// Whether a setting is there and not blank.
pub fn is_set(setting: Option<&str>) -> (r: bool)
    ensures
        r == (setting matches Some(s) && text::trim(s@).len() > 0),
{
    match setting {
        Some(s) => {
            let chars = chars_of(s);
            trim_chars(chars.as_slice()).len() > 0
        },
        None => false,
    }
}

/// A role is told by the name that it shows.
pub proof fn law_role_names_itself(role: Role)
    ensures
        role_named(role.name()) == Some(role),
{
    reveal_strlit("embedder");
    reveal_strlit("worker");
    reveal_strlit("both");
    let name = role.name();
    reveal_with_fuel(text::trim_start, 2);
    reveal_with_fuel(text::trim_end, 2);
    assert(text::trim(name) == name);
    assert("embedder"@.len() == 8);
    assert("worker"@.len() == 6);
    assert("both"@.len() == 4);
}

/// An argument for the role decides, whatever the setting is.
pub proof fn law_argument_decides_role(
    args: Seq<Seq<char>>,
    first: Option<Seq<char>>,
    second: Option<Seq<char>>,
)
    requires
        role_in_args(args, 0) is Some,
    ensures
        role_of(args, first) == role_of(args, second),
{
}

// --- Settings ---

/// The key for stored credentials is long enough: at least 32 bytes.
pub fn is_long_enough_key(key: &str) -> (r: bool)
    ensures
        r == (text::utf8_len(key@) >= 32),
{
    let chars = chars_of(key);
    byte_len(chars.as_slice()) >= 32
}

/// The id that a worker's file holds: its text without the space around it,
/// unless there is none.
pub fn stored_worker_id(contents: &str) -> (r: Option<String>)
    ensures
        match r {
            Some(id) => id@ == text::trim(contents@) && id@.len() > 0,
            None => text::trim(contents@).len() == 0,
        },
{
    let chars = chars_of(contents);
    let id = trim_chars(chars.as_slice());
    if id.len() > 0 {
        Some(string_of(id))
    } else {
        None
    }
}

/// The port that a setting gives: 8081 without one, none where it is no port.
pub open spec fn port_of(setting: Option<Seq<char>>) -> Option<nat> {
    match setting {
        Some(s) => text::parsed_uint(s, u16::MAX as nat),
        None => Some(8081),
    }
}

/// Reads the port.
pub fn read_port(setting: Option<&str>) -> (r: Option<u16>)
    ensures
        match r {
            Some(p) => port_of(text::opt_str(setting)) == Some(p as nat),
            None => port_of(text::opt_str(setting)) is None,
        },
{
    match setting {
        Some(s) => {
            let chars = chars_of(s);
            match parse_uint(chars.as_slice(), u16::MAX as u64) {
                Some(p) => Some(p as u16),
                None => None,
            }
        },
        None => Some(8081),
    }
}

/// How the embedding jobs are run.
#[derive(Clone, Copy, Debug, PartialEq, Eq, Structural)]
pub struct EmbedWorkerSettings {
    /// Seconds to wait when there is no job.
    pub poll_interval: u64,
    /// Milliseconds to wait between two pages.
    pub delay_ms: u64,
    pub batch_size: usize,
    /// Seconds after which a running job is given up.
    pub job_timeout: i64,
    /// How many failed pages make a job fail.
    pub failure_threshold: usize,
    /// How many failures in a row end a job early.
    pub consecutive_abort: usize,
}

impl EmbedWorkerSettings {
    /// Reads the settings. The timeout has an older setting beside its own,
    /// which counts where its own is missing or no number.
    pub fn read(
        poll_interval: Option<&str>,
        delay_ms: Option<&str>,
        batch_size: Option<&str>,
        job_timeout: Option<&str>,
        older_job_timeout: Option<&str>,
        failure_threshold: Option<&str>,
        consecutive_abort: Option<&str>,
    ) -> (r: Self)
        ensures
            r.poll_interval == config::uint_or(text::opt_str(poll_interval), 5),
            r.delay_ms == config::uint_or(text::opt_str(delay_ms), 50),
            r.batch_size == config::size_or(text::opt_str(batch_size), 32),
            r.job_timeout == config::int_or(
                text::opt_str(job_timeout),
                config::int_or(text::opt_str(older_job_timeout), 3600),
            ),
            r.failure_threshold == config::size_or(text::opt_str(failure_threshold), 10),
            r.consecutive_abort == config::size_or(text::opt_str(consecutive_abort), 10),
    {
        let older: i64 = read_int(older_job_timeout, 3600);
        EmbedWorkerSettings {
            poll_interval: read_uint(poll_interval, 5),
            delay_ms: read_uint(delay_ms, 50),
            batch_size: read_size(batch_size, 32),
            job_timeout: read_int(job_timeout, older),
            failure_threshold: read_size(failure_threshold, 10),
            consecutive_abort: read_size(consecutive_abort, 10),
        }
    }
}

// --- Providers ---

/// Who computes embeddings.
#[derive(Clone, Copy, Debug, PartialEq, Eq, Structural)]
pub enum EmbedProvider {
    OpenAi,
    Voyage,
    Ollama,
    /// A model that runs in this process.
    Local,
}

/// The provider that a setting names, whatever its case. Everything else means
/// the model in this process.
pub open spec fn embed_provider_named(setting: Option<Seq<char>>) -> EmbedProvider {
    match setting {
        Some(s) => if text::lowers_to(s, "openai"@) {
            EmbedProvider::OpenAi
        } else if text::lowers_to(s, "voyage"@) {
            EmbedProvider::Voyage
        } else if text::lowers_to(s, "ollama"@) {
            EmbedProvider::Ollama
        } else {
            EmbedProvider::Local
        },
        None => EmbedProvider::Local,
    }
}

/// The settings of the embedding provider.
pub struct EmbedderSettings<'a> {
    pub provider: Option<&'a str>,
    pub api_key: Option<&'a str>,
    pub model: Option<&'a str>,
    pub api_url: Option<&'a str>,
    pub dims: Option<&'a str>,
    pub model_path: Option<&'a str>,
}

/// How embeddings are computed.
#[derive(Debug)]
pub struct EmbedderPlan {
    pub provider: EmbedProvider,
    /// The key; empty for a provider that takes none.
    pub api_key: String,
    pub model: String,
    /// The base address of the provider, or where models are kept.
    pub location: String,
    /// The stated number of components; `None` where it is to be found out.
    pub dims: Option<usize>,
}

/// Why embeddings cannot be computed.
#[derive(Clone, Copy, Debug, PartialEq, Eq, Structural)]
pub enum EmbedderError {
    MissingApiKey,
    BadDims,
}

/// The setting, or the given text where there is none.
pub open spec fn setting_or(setting: Option<Seq<char>>, default_text: Seq<char>) -> Seq<char> {
    match setting {
        Some(s) => s,
        None => default_text,
    }
}

/// The setting where it is not empty, or else the given text.
pub open spec fn filled_or(setting: Option<Seq<char>>, default_text: Seq<char>) -> Seq<char> {
    match setting {
        Some(s) => if s.len() > 0 {
            s
        } else {
            default_text
        },
        None => default_text,
    }
}

/// The setting is there and not empty.
pub open spec fn is_filled(setting: Option<Seq<char>>) -> bool {
    setting matches Some(s) && s.len() > 0
}

/// The stated number of components: none where the setting is missing or empty,
/// an error where it is no size.
pub open spec fn dims_of(setting: Option<Seq<char>>) -> Result<Option<nat>, EmbedderError> {
    if !is_filled(setting) {
        Ok(None)
    } else {
        match text::parsed_uint(setting->0, usize::MAX as nat) {
            Some(n) => Ok(Some(n)),
            None => Err(EmbedderError::BadDims),
        }
    }
}

/// Reads the setting or gives the text.
fn read_or(setting: Option<&str>, default_text: &str) -> (r: String)
    ensures
        r@ == setting_or(text::opt_str(setting), default_text@),
{
    match setting {
        Some(s) => s.to_owned(),
        None => default_text.to_owned(),
    }
}

/// Whether a text is empty.
fn is_empty(s: &str) -> (r: bool)
    ensures
        r == (s@.len() == 0),
{
    let chars = chars_of(s);
    chars.len() == 0
}

/// Reads the setting where it is not empty, or gives the text.
fn read_filled_or(setting: Option<&str>, default_text: &str) -> (r: String)
    ensures
        r@ == filled_or(text::opt_str(setting), default_text@),
{
    match setting {
        Some(s) => if is_empty(s) {
            default_text.to_owned()
        } else {
            s.to_owned()
        },
        None => default_text.to_owned(),
    }
}

/// Reads the stated number of components.
fn read_dims(setting: Option<&str>) -> (r: Result<Option<usize>, EmbedderError>)
    ensures
        match r {
            Ok(None) => dims_of(text::opt_str(setting)) == Ok::<Option<nat>, EmbedderError>(None),
            Ok(Some(n)) => dims_of(text::opt_str(setting)) == Ok::<Option<nat>, EmbedderError>(
                Some(n as nat),
            ),
            Err(e) => dims_of(text::opt_str(setting)) == Err::<Option<nat>, EmbedderError>(e),
        },
{
    match setting {
        Some(s) => {
            let chars = chars_of(s);
            if chars.len() == 0 {
                return Ok(None);
            }
            match parse_uint(chars.as_slice(), usize::MAX as u64) {
                Some(n) => Ok(Some(n as usize)),
                None => Err(EmbedderError::BadDims),
            }
        },
        None => Ok(None),
    }
}

/// Reads the name of a provider.
pub fn read_embed_provider(setting: Option<&str>) -> (r: EmbedProvider)
    ensures
        r == embed_provider_named(text::opt_str(setting)),
{
    match setting {
        Some(s) => {
            let chars = chars_of(s);
            if is_word(chars.as_slice(), "openai") {
                EmbedProvider::OpenAi
            } else if is_word(chars.as_slice(), "voyage") {
                EmbedProvider::Voyage
            } else if is_word(chars.as_slice(), "ollama") {
                EmbedProvider::Ollama
            } else {
                EmbedProvider::Local
            }
        },
        None => EmbedProvider::Local,
    }
}

/// The model of a provider without a setting.
pub open spec fn usual_model(provider: EmbedProvider) -> Seq<char> {
    match provider {
        EmbedProvider::OpenAi => "text-embedding-3-small"@,
        EmbedProvider::Voyage => "voyage-3-lite"@,
        EmbedProvider::Ollama => "nomic-embed-text"@,
        EmbedProvider::Local => "BAAI/bge-base-en-v1.5"@,
    }
}

/// The model of a provider without a setting.
fn usual_model_name(provider: EmbedProvider) -> (r: &'static str)
    ensures
        r@ == usual_model(provider),
{
    match provider {
        EmbedProvider::OpenAi => "text-embedding-3-small",
        EmbedProvider::Voyage => "voyage-3-lite",
        EmbedProvider::Ollama => "nomic-embed-text",
        EmbedProvider::Local => "BAAI/bge-base-en-v1.5",
    }
}

/// The base address of a provider, or where models are kept. An address that is
/// set to nothing counts as missing for the paid services.
pub open spec fn embedder_location(
    provider: EmbedProvider,
    api_url: Option<Seq<char>>,
    model_path: Option<Seq<char>>,
) -> Seq<char> {
    match provider {
        EmbedProvider::OpenAi => filled_or(api_url, "https://api.openai.com"@),
        EmbedProvider::Voyage => filled_or(api_url, "https://api.voyageai.com"@),
        EmbedProvider::Ollama => setting_or(api_url, "http://localhost:11434"@),
        EmbedProvider::Local => setting_or(model_path, "/data/models"@),
    }
}

/// The provider takes a key.
pub open spec fn takes_key(provider: EmbedProvider) -> bool {
    provider == EmbedProvider::OpenAi || provider == EmbedProvider::Voyage
}

/// Whether embeddings cannot be computed with the settings, and why: a key is
/// missing, or the number of components is no size. A model in this process
/// needs neither.
pub open spec fn embedder_error(s: EmbedderSettings) -> Option<EmbedderError> {
    let provider = embed_provider_named(text::opt_str(s.provider));
    if takes_key(provider) && s.api_key is None {
        Some(EmbedderError::MissingApiKey)
    } else if provider != EmbedProvider::Local && dims_of(text::opt_str(s.dims)) is Err {
        Some(EmbedderError::BadDims)
    } else {
        None
    }
}

/// Decides how embeddings are computed.
pub fn plan_embedder(s: &EmbedderSettings) -> (r: Result<EmbedderPlan, EmbedderError>)
    ensures
        match r {
            Err(e) => embedder_error(*s) == Some(e),
            Ok(p) => {
                &&& embedder_error(*s) is None
                &&& p.provider == embed_provider_named(text::opt_str(s.provider))
                &&& p.api_key@ == if takes_key(p.provider) {
                    setting_or(text::opt_str(s.api_key), Seq::empty())
                } else {
                    Seq::empty()
                }
                &&& p.model@ == setting_or(text::opt_str(s.model), usual_model(p.provider))
                &&& p.location@ == embedder_location(
                    p.provider,
                    text::opt_str(s.api_url),
                    text::opt_str(s.model_path),
                )
                &&& if p.provider == EmbedProvider::Local {
                    p.dims is None
                } else {
                    match p.dims {
                        Some(n) => dims_of(text::opt_str(s.dims)) == Ok::<
                            Option<nat>,
                            EmbedderError,
                        >(Some(n as nat)),
                        None => dims_of(text::opt_str(s.dims)) == Ok::<Option<nat>, EmbedderError>(
                            None,
                        ),
                    }
                }
            },
        },
{
    let provider: EmbedProvider = read_embed_provider(s.provider);
    let api_key = match provider {
        EmbedProvider::OpenAi | EmbedProvider::Voyage => match s.api_key {
            Some(key) => key.to_owned(),
            None => {
                return Err(EmbedderError::MissingApiKey);
            },
        },
        EmbedProvider::Ollama | EmbedProvider::Local => String::new(),
    };
    let dims: Option<usize> = match provider {
        EmbedProvider::Local => None,
        _ => match read_dims(s.dims) {
            Ok(d) => d,
            Err(e) => {
                return Err(e);
            },
        },
    };
    let location = match provider {
        EmbedProvider::OpenAi => read_filled_or(s.api_url, "https://api.openai.com"),
        EmbedProvider::Voyage => read_filled_or(s.api_url, "https://api.voyageai.com"),
        EmbedProvider::Ollama => read_or(s.api_url, "http://localhost:11434"),
        EmbedProvider::Local => read_or(s.model_path, "/data/models"),
    };
    let model = read_or(s.model, usual_model_name(provider));
    Ok(EmbedderPlan { provider, api_key, model, location, dims })
}

/// The number of components where it was not stated: what was found out, or for
/// one provider a usual number where that failed.
pub fn detected_dims(provider: EmbedProvider, found: Option<usize>) -> (r: Option<usize>)
    ensures
        r == match found {
            Some(n) => Some(n),
            None => if provider == EmbedProvider::Ollama {
                Some(768usize)
            } else {
                None
            },
        },
{
    match found {
        Some(n) => Some(n),
        None => match provider {
            EmbedProvider::Ollama => Some(768),
            _ => None,
        },
    }
}

/// Who ranks documents.
#[derive(Clone, Copy, Debug, PartialEq, Eq, Structural)]
pub enum RerankProvider {
    /// A model that runs in this process.
    Local,
    Voyage,
    OpenAi,
}

/// The settings of the reranking provider.
pub struct RerankerSettings<'a> {
    pub provider: Option<&'a str>,
    pub api_key: Option<&'a str>,
    pub model: Option<&'a str>,
    pub api_url: Option<&'a str>,
    pub model_path: Option<&'a str>,
}

/// A setting of the reranking provider.
#[derive(Clone, Copy, Debug, PartialEq, Eq, Structural)]
pub enum RerankSetting {
    ApiKey,
    Model,
    ApiUrl,
}

/// How documents are ranked.
#[derive(Debug)]
pub struct RerankerConfig {
    pub provider: RerankProvider,
    /// The key; empty for the model in this process.
    pub api_key: String,
    pub model: String,
    /// The base address of the provider, or where models are kept.
    pub location: String,
}

/// Whether and how documents are ranked.
#[derive(Debug)]
pub enum RerankerPlan {
    /// No ranking is wanted.
    Disabled,
    /// No ranking: a setting that the provider needs is missing or empty.
    Missing(RerankProvider, RerankSetting),
    /// No ranking: the provider is not known.
    Unknown,
    Use(RerankerConfig),
}

/// No ranking is wanted: no provider is named, or it is `none`.
pub open spec fn reranking_disabled(setting: Option<Seq<char>>) -> bool {
    !is_filled(setting) || text::lowers_to(setting->0, "none"@)
}

/// The provider that a setting names.
pub open spec fn rerank_provider_named(s: Seq<char>) -> Option<RerankProvider> {
    if text::lowers_to(s, "local"@) {
        Some(RerankProvider::Local)
    } else if text::lowers_to(s, "voyage"@) {
        Some(RerankProvider::Voyage)
    } else if text::lowers_to(s, "openai"@) {
        Some(RerankProvider::OpenAi)
    } else {
        None
    }
}

/// The first setting that the provider needs and that is missing or empty.
pub open spec fn missing_setting(provider: RerankProvider, s: RerankerSettings) -> Option<
    RerankSetting,
> {
    if provider != RerankProvider::Local && !is_filled(text::opt_str(s.api_key)) {
        Some(RerankSetting::ApiKey)
    } else if provider == RerankProvider::OpenAi && !is_filled(text::opt_str(s.model)) {
        Some(RerankSetting::Model)
    } else if provider == RerankProvider::OpenAi && !is_filled(text::opt_str(s.api_url)) {
        Some(RerankSetting::ApiUrl)
    } else {
        None
    }
}

/// The configuration is the one that the settings give.
pub open spec fn is_reranker_config(c: RerankerConfig, s: RerankerSettings) -> bool {
    &&& c.api_key@ == if c.provider == RerankProvider::Local {
        Seq::empty()
    } else {
        setting_or(text::opt_str(s.api_key), Seq::empty())
    }
    &&& c.model@ == setting_or(
        text::opt_str(s.model),
        match c.provider {
            RerankProvider::Local => "BAAI/bge-reranker-v2-m3"@,
            RerankProvider::Voyage => "rerank-2"@,
            RerankProvider::OpenAi => Seq::empty(),
        },
    )
    &&& c.location@ == match c.provider {
        RerankProvider::Local => setting_or(text::opt_str(s.model_path), "/data/models"@),
        RerankProvider::Voyage => filled_or(text::opt_str(s.api_url), "https://api.voyageai.com"@),
        RerankProvider::OpenAi => setting_or(text::opt_str(s.api_url), Seq::empty()),
    }
}

/// The plan is the one that the settings give.
pub open spec fn is_reranker_plan(p: RerankerPlan, s: RerankerSettings) -> bool {
    let setting = text::opt_str(s.provider);
    if reranking_disabled(setting) {
        p is Disabled
    } else {
        match rerank_provider_named(setting->0) {
            None => p is Unknown,
            Some(provider) => match missing_setting(provider, s) {
                Some(missing) => p == RerankerPlan::Missing(provider, missing),
                None => p matches RerankerPlan::Use(c) && c.provider == provider
                    && is_reranker_config(c, s),
            },
        }
    }
}

/// Whether a setting is there and not empty.
fn filled(setting: Option<&str>) -> (r: bool)
    ensures
        r == is_filled(text::opt_str(setting)),
{
    match setting {
        Some(s) => !is_empty(s),
        None => false,
    }
}

/// Decides whether and how documents are ranked.
pub fn plan_reranker(s: &RerankerSettings) -> (r: RerankerPlan)
    ensures
        is_reranker_plan(r, *s),
{
    proof {
        reveal_strlit("");
        assert(""@ =~= Seq::<char>::empty());
    }
    let setting = match s.provider {
        Some(p) => p,
        None => {
            return RerankerPlan::Disabled;
        },
    };
    let chars = chars_of(setting);
    if chars.len() == 0 || is_word(chars.as_slice(), "none") {
        return RerankerPlan::Disabled;
    }
    if is_word(chars.as_slice(), "local") {
        return RerankerPlan::Use(
            RerankerConfig {
                provider: RerankProvider::Local,
                api_key: String::new(),
                model: read_or(s.model, "BAAI/bge-reranker-v2-m3"),
                location: read_or(s.model_path, "/data/models"),
            },
        );
    }
    if is_word(chars.as_slice(), "voyage") {
        if !filled(s.api_key) {
            return RerankerPlan::Missing(RerankProvider::Voyage, RerankSetting::ApiKey);
        }
        return RerankerPlan::Use(
            RerankerConfig {
                provider: RerankProvider::Voyage,
                api_key: read_or(s.api_key, ""),
                model: read_or(s.model, "rerank-2"),
                location: read_filled_or(s.api_url, "https://api.voyageai.com"),
            },
        );
    }
    if is_word(chars.as_slice(), "openai") {
        if !filled(s.api_key) {
            return RerankerPlan::Missing(RerankProvider::OpenAi, RerankSetting::ApiKey);
        }
        if !filled(s.model) {
            return RerankerPlan::Missing(RerankProvider::OpenAi, RerankSetting::Model);
        }
        if !filled(s.api_url) {
            return RerankerPlan::Missing(RerankProvider::OpenAi, RerankSetting::ApiUrl);
        }
        return RerankerPlan::Use(
            RerankerConfig {
                provider: RerankProvider::OpenAi,
                api_key: read_or(s.api_key, ""),
                model: read_or(s.model, ""),
                location: read_or(s.api_url, ""),
            },
        );
    }
    RerankerPlan::Unknown
}

// --- Embedding anew ---

/// What is done about stored embeddings before the first job is claimed.
#[derive(Clone, Copy, Debug, PartialEq, Eq, Structural)]
pub struct StartupPlan {
    /// Clear all embeddings, set the number of components and queue a job for
    /// everything.
    pub reindex: bool,
    /// Store the version of the chunks.
    pub store_version: bool,
    /// Clear all embeddings without the rest.
    pub clear: bool,
    /// Queue a job for everything without the rest.
    pub queue_all: bool,
}

/// What is stored about the embeddings.
pub struct StoredState {
    pub version: Option<Seq<char>>,
    pub model: Option<Seq<char>>,
    pub dims: Option<Seq<char>>,
}

/// Stored embeddings were made in another way: other chunks, another model or
/// another number of components.
pub open spec fn is_outdated(stored: StoredState, model: Seq<char>, dims: usize) -> bool {
    ||| stored.version != Some(text::decimal(chunking::CHUNK_VERSION as nat))
    ||| stored.model != Some(model)
    ||| (stored.dims is Some && stored.dims != Some(text::decimal(dims as nat)))
}

/// Whether a stored text is another one. A missing one is.
fn differs(stored: Option<&str>, current: &str) -> (r: bool)
    ensures
        r == (text::opt_str(stored) != Some(current@)),
{
    match stored {
        Some(s) => !same_text(s, current),
        None => true,
    }
}

/// Decides what is done about stored embeddings, from what is stored about them
/// and the setting for a start: `true` queues a job for everything, `clean` also
/// clears what there is.
pub fn plan_startup(
    version: Option<&str>,
    stored_model: Option<&str>,
    stored_dims: Option<&str>,
    model: &str,
    dims: usize,
    on_startup: &str,
) -> (r: StartupPlan)
    ensures
        r.store_version == (text::opt_str(version) != Some(
            text::decimal(chunking::CHUNK_VERSION as nat),
        )),
        r.reindex == is_outdated(
            StoredState {
                version: text::opt_str(version),
                model: text::opt_str(stored_model),
                dims: text::opt_str(stored_dims),
            },
            model@,
            dims,
        ),
        r.clear == (!r.reindex && on_startup@ == "clean"@),
        r.queue_all == (!r.reindex && (on_startup@ == "true"@ || on_startup@ == "clean"@)),
{
    let current = decimal_string(chunking::CHUNK_VERSION as u64);
    let size = decimal_string(dims as u64);
    let store_version = differs(version, current.as_str());
    let model_changed = differs(stored_model, model);
    let dims_changed = match stored_dims {
        Some(_) => differs(stored_dims, size.as_str()),
        None => false,
    };
    let reindex = store_version || model_changed || dims_changed;
    let clean = same_text(on_startup, "clean");
    StartupPlan {
        reindex,
        store_version,
        clear: !reindex && clean,
        queue_all: !reindex && (clean || same_text(on_startup, "true")),
    }
}

/// Embeddings are made anew once: when the version, the model and the number of
/// components have been stored, the next start with the same ones leaves the
/// embeddings alone.
pub proof fn law_reindexed_once(model: Seq<char>, dims: usize)
    ensures
        !is_outdated(
            StoredState {
                version: Some(text::decimal(chunking::CHUNK_VERSION as nat)),
                model: Some(model),
                dims: Some(text::decimal(dims as nat)),
            },
            model,
            dims,
        ),
{
}

// --- Requests ---

/// Why a request is refused: the HTTP status and the message.
#[derive(Debug)]
pub struct Refusal {
    pub status: u16,
    pub message: &'static str,
}

/// Checks a request to embed texts: from one to a hundred of them.
pub fn check_embed_request(texts: usize) -> (r: Option<Refusal>)
    ensures
        match r {
            None => 1 <= texts <= 100,
            Some(e) => e.status == 400 && if texts == 0 {
                e.message@ == "texts array must not be empty"@
            } else {
                texts > 100 && e.message@ == "maximum 100 texts per request"@
            },
        },
{
    if texts == 0 {
        Some(Refusal { status: 400, message: "texts array must not be empty" })
    } else if texts > 100 {
        Some(Refusal { status: 400, message: "maximum 100 texts per request" })
    } else {
        None
    }
}

/// Why a request to rank documents is refused, if it is.
pub open spec fn rerank_refusal(enabled: bool, query: Seq<char>, documents: int) -> Option<
    (u16, Seq<char>),
> {
    if !enabled {
        Some((503u16, "Reranker disabled (BSMCP_RERANK_PROVIDER unset or 'none')"@))
    } else if query.len() == 0 {
        Some((400u16, "query must not be empty"@))
    } else if documents == 0 {
        Some((400u16, "documents array must not be empty"@))
    } else if documents > 200 {
        Some((400u16, "maximum 200 documents per rerank request"@))
    } else {
        None
    }
}

/// Checks a request to rank documents.
pub fn check_rerank_request(enabled: bool, query: &str, documents: usize) -> (r: Option<Refusal>)
    ensures
        match r {
            None => rerank_refusal(enabled, query@, documents as int) is None,
            Some(e) => rerank_refusal(enabled, query@, documents as int) == Some(
                (e.status, e.message@),
            ),
        },
{
    if !enabled {
        Some(
            Refusal {
                status: 503,
                message: "Reranker disabled (BSMCP_RERANK_PROVIDER unset or 'none')",
            },
        )
    } else if is_empty(query) {
        Some(Refusal { status: 400, message: "query must not be empty" })
    } else if documents == 0 {
        Some(Refusal { status: 400, message: "documents array must not be empty" })
    } else if documents > 200 {
        Some(Refusal { status: 400, message: "maximum 200 documents per rerank request" })
    } else {
        None
    }
}

} // verus!
