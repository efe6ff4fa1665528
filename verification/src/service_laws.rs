//! What holds of settings, of the answers of services and of addresses, told by the
//! texts and members themselves.

use crate::backup;
use crate::bookstack;
use crate::bookstack::{IpAddress, ResolvedAddress, UrlModel};
use crate::config;
use crate::crypto;
use crate::json;
use crate::json::Json;
use crate::models;
use crate::models::{ModelRepo, RerankerKind};
use crate::providers;
use crate::providers::{EmbeddingShape, ErrorShape};
use crate::rate_limit;
use crate::rate_limit::RateCaps;
use crate::rows;
use crate::settings;
use crate::settings::ScopeDef;
use crate::startup;
use crate::startup::{
    EmbedProvider, EmbedderError, EmbedderSettings, RerankProvider, RerankSetting, RerankerPlan,
    RerankerSettings, Role, RoleErrorModel, StoredState,
};
use crate::text;
use crate::text_laws;
use crate::time;
use crate::time::{TimezoneConfig, TimezoneSource};
use crate::vector;
use crate::vector::RankedHit;
use vstd::arithmetic::power2::{lemma2_to64, lemma_pow2_unfold, pow2};
use vstd::prelude::*;

verus! {

// --- Roles ---

/// A role is named by its own word, in capitals or not and with spaces around it, and
/// by nothing else.
pub proof fn law_roles_are_named(s: Seq<char>, role: Role)
    ensures
        startup::role_named(s) == Some(role) <==> text::lowers_to(text::trim(s), role.name()),
{
    reveal_strlit("embedder");
    reveal_strlit("worker");
    reveal_strlit("both");
}

/// The argument asks for a role.
pub open spec fn asks_for_role(arg: Seq<char>) -> bool {
    arg == "--role"@ || text_laws::stands_at(arg, "--role="@, 0)
}

/// The first argument that asks for a role decides: by what stands behind its equals
/// sign, or by the argument behind it, which must be there.
pub proof fn law_first_role_argument_decides(args: Seq<Seq<char>>, i: int)
    requires
        0 <= i < args.len(),
        asks_for_role(args[i]),
        forall|j: int| 0 <= j < i ==> !asks_for_role(#[trigger] args[j]),
    ensures
        ({
            let r = startup::role_in_args(args, 0);
            &&& args[i] == "--role"@ && i + 1 == args.len() ==> r == Some(
                Err::<Role, RoleErrorModel>(RoleErrorModel::MissingValue),
            )
            &&& args[i] == "--role"@ && i + 1 < args.len() ==> r == Some(
                startup::role_for_flag(args[i + 1]),
            )
            &&& text_laws::stands_at(args[i], "--role="@, 0) ==> r == Some(
                startup::role_for_flag(args[i].skip(7)),
            )
        }),
{
    lemma_role_argument(args, 0, i);
}

proof fn lemma_role_argument(args: Seq<Seq<char>>, from: int, i: int)
    requires
        0 <= from <= i < args.len(),
        asks_for_role(args[i]),
        forall|j: int| 0 <= j < i ==> !asks_for_role(#[trigger] args[j]),
    ensures
        startup::role_in_args(args, from) == if text_laws::stands_at(args[i], "--role="@, 0) {
            Some(startup::role_for_flag(args[i].skip(7)))
        } else if i + 1 < args.len() {
            Some(startup::role_for_flag(args[i + 1]))
        } else {
            Some(Err::<Role, RoleErrorModel>(RoleErrorModel::MissingValue))
        },
        args[i] == "--role"@ ==> !text_laws::stands_at(args[i], "--role="@, 0),
    decreases i - from,
{
    reveal_strlit("--role=");
    reveal_strlit("--role");
    text_laws::law_front_and_back("--role="@, Seq::empty(), args[from]);
    if from < i {
        assert(!asks_for_role(args[from]));
        lemma_role_argument(args, from + 1, i);
    }
}

/// Where no argument asks for a role, the setting decides; where it is blank or
/// missing, the role is that of the embedder.
pub proof fn law_setting_decides_role(args: Seq<Seq<char>>, setting: Seq<char>)
    requires
        forall|j: int| 0 <= j < args.len() ==> !asks_for_role(#[trigger] args[j]),
    ensures
        startup::role_of(args, None) == Ok::<Role, RoleErrorModel>(Role::Embedder),
        text::trim(setting).len() == 0 ==> startup::role_of(args, Some(setting)) == Ok::<
            Role,
            RoleErrorModel,
        >(Role::Embedder),
        text::trim(setting).len() > 0 ==> startup::role_of(args, Some(setting))
            == match startup::role_named(setting) {
            Some(role) => Ok::<Role, RoleErrorModel>(role),
            None => Err::<Role, RoleErrorModel>(RoleErrorModel::BadSetting(setting)),
        },
{
    lemma_no_role_argument(args, 0);
}

proof fn lemma_no_role_argument(args: Seq<Seq<char>>, from: int)
    requires
        0 <= from <= args.len(),
        forall|j: int| 0 <= j < args.len() ==> !asks_for_role(#[trigger] args[j]),
    ensures
        startup::role_in_args(args, from) is None,
    decreases args.len() - from,
{
    if from < args.len() {
        text_laws::law_front_and_back("--role="@, Seq::empty(), args[from]);
        assert(!asks_for_role(args[from]));
        lemma_no_role_argument(args, from + 1);
    }
}

// --- Settings ---

/// A number that is set counts, and whatever else is set, or nothing, leaves the
/// usual one.
pub proof fn law_set_numbers_count(n: i64, usual: i64, m: u64, usual_m: u64, other: Seq<char>)
    ensures
        config::int_or(Some(text::decimal_int(n as int)), usual) == n,
        config::uint_or(Some(text::decimal(m as nat)), usual_m) == m,
        config::int_or(None, usual) == usual,
        config::uint_or(None, usual_m) == usual_m,
        text::parsed_i64(other) is None ==> config::int_or(Some(other), usual) == usual,
        text::parsed_uint(other, u64::MAX as nat) is None ==> config::uint_or(Some(other), usual_m)
            == usual_m,
{
    text::law_decimal_round_trip(n);
    lemma_unsigned_round_trip(m as nat, u64::MAX as nat);
}

proof fn lemma_unsigned_round_trip(n: nat, max: nat)
    requires
        n <= max,
    ensures
        text::parsed_uint(text::decimal(n), max) == Some(n),
{
    text_laws::law_number_is_written_shortest(n);
    let d = text::decimal(n);
    assert(text::is_digit(d[0]));
}

/// A size that is set counts, and whatever else is set, or nothing, leaves the usual
/// one.
pub proof fn law_set_sizes_count(n: usize, usual: usize, other: Seq<char>)
    ensures
        config::size_or(Some(text::decimal(n as nat)), usual) == n,
        config::size_or(None, usual) == usual,
        text::parsed_uint(other, usize::MAX as nat) is None ==> config::size_or(Some(other), usual)
            == usual,
{
    lemma_unsigned_round_trip(n as nat, usize::MAX as nat);
}

/// A multiplier is overridden by any number above zero, and by nothing else.
pub proof fn law_multipliers_are_overridden(current: u32, n: u32, other: Seq<char>)
    ensures
        n > 0 ==> settings::overridden(current, Some(text::decimal(n as nat))) == n,
        settings::overridden(current, Some(text::decimal(0))) == current,
        settings::overridden(current, None) == current,
        text::parsed_uint(other, u32::MAX as nat) is None ==> settings::overridden(
            current,
            Some(other),
        ) == current,
{
    lemma_unsigned_round_trip(n as nat, u32::MAX as nat);
    lemma_unsigned_round_trip(0, u32::MAX as nat);
}

/// A scope is found by its name.
pub proof fn law_scope_is_found_by_name(scopes: Seq<(String, ScopeDef)>, name: Seq<char>)
    ensures
        rows::is_first(
            scopes,
            |s: (String, ScopeDef)|
                if s.0@ == name {
                    Some(s.1)
                } else {
                    None
                },
            settings::scope_from(scopes, name, 0),
        ),
{
    rows::lemma_first(
        scopes,
        |s: (String, ScopeDef)|
            if s.0@ == name {
                Some(s.1)
            } else {
                None
            },
        |k: int| settings::scope_from(scopes, name, k),
    );
}

/// The provider of embeddings is named by its word, in capitals or not; every other
/// setting, or none, means the local one.
pub proof fn law_embedding_providers_are_named(s: Seq<char>)
    ensures
        ({
            let p = startup::embed_provider_named(Some(s));
            &&& p == EmbedProvider::OpenAi <==> text::lowers_to(s, "openai"@)
            &&& p == EmbedProvider::Voyage <==> text::lowers_to(s, "voyage"@)
            &&& p == EmbedProvider::Ollama <==> text::lowers_to(s, "ollama"@)
        }),
        startup::embed_provider_named(None) == EmbedProvider::Local,
{
    reveal_strlit("openai");
    reveal_strlit("voyage");
    reveal_strlit("ollama");
    if text::lowers_to(s, "openai"@) || text::lowers_to(s, "voyage"@) || text::lowers_to(
        s,
        "ollama"@,
    ) {
        assert(text::lowers_to(s, "openai"@) ==> text::char_lowers_to(s[1], "openai"@[1]));
        assert(text::lowers_to(s, "ollama"@) ==> text::char_lowers_to(s[1], "ollama"@[1]));
        assert(text::lowers_to(s, "openai"@) ==> text::char_lowers_to(s[0], "openai"@[0]));
        assert(text::lowers_to(s, "ollama"@) ==> text::char_lowers_to(s[0], "ollama"@[0]));
        assert(text::lowers_to(s, "voyage"@) ==> text::char_lowers_to(s[0], "voyage"@[0]));
    }
}

/// A provider that takes a key must have one, and a number of dimensions that is set
/// for a remote provider must be a number.
pub proof fn law_embedder_settings_are_refused(s: EmbedderSettings)
    ensures
        ({
            let p = startup::embed_provider_named(text::opt_str(s.provider));
            let keyless = (p == EmbedProvider::OpenAi || p == EmbedProvider::Voyage)
                && s.api_key is None;
            let bad = p != EmbedProvider::Local && (s.dims matches Some(d) && d@.len() > 0
                && text::parsed_uint(d@, usize::MAX as nat) is None);
            &&& startup::embedder_error(s) == Some(EmbedderError::MissingApiKey) <==> keyless
            &&& startup::embedder_error(s) == Some(EmbedderError::BadDims) <==> bad && !keyless
            &&& startup::embedder_error(s) is None <==> !bad && !keyless
        }),
{
}

/// A reranking provider needs a key unless it is local, and a provider of the openai
/// kind needs a model and an address too; the first that is missing or empty is named.
pub proof fn law_reranker_settings_are_asked_for(provider: RerankProvider, s: RerankerSettings)
    ensures
        ({
            let key = s.api_key matches Some(v) && v@.len() > 0;
            let model = s.model matches Some(v) && v@.len() > 0;
            let url = s.api_url matches Some(v) && v@.len() > 0;
            let missing = startup::missing_setting(provider, s);
            &&& provider == RerankProvider::Local ==> missing is None
            &&& provider == RerankProvider::Voyage ==> (missing is None <==> key)
            &&& provider == RerankProvider::OpenAi ==> (missing is None <==> key && model && url)
            &&& missing == Some(RerankSetting::ApiKey) <==> provider != RerankProvider::Local
                && !key
            &&& missing == Some(RerankSetting::Model) <==> provider == RerankProvider::OpenAi && key
                && !model
            &&& missing == Some(RerankSetting::ApiUrl) <==> provider == RerankProvider::OpenAi
                && key && model && !url
        }),
{
}

/// Reranking is off exactly where it is not set, set to nothing or set to none.
pub proof fn law_reranking_is_switched_off(s: Seq<char>)
    ensures
        startup::reranking_disabled(None),
        startup::reranking_disabled(Some(s)) <==> s.len() == 0 || text::lowers_to(s, "none"@),
{
}

/// Stored embeddings are outdated exactly if the version or the model is not the
/// current one, or the number of dimensions is stored and is another.
pub proof fn law_outdated_embeddings(stored: StoredState, model: Seq<char>, dims: usize)
    ensures
        !startup::is_outdated(stored, model, dims) <==> (stored.version matches Some(v) && v
            == text::decimal(crate::chunking::CHUNK_VERSION as nat)) && (
        stored.model matches Some(m) && m == model) && (stored.dims matches Some(d) ==> d
            == text::decimal(dims as nat)),
{
}

/// A request for a ranking is taken exactly if reranking is on, the query is not
/// empty and there are documents, two hundred at most; one that is refused while
/// reranking is on is the caller's fault.
pub proof fn law_ranking_requests_are_taken(enabled: bool, query: Seq<char>, documents: int)
    requires
        0 <= documents,
    ensures
        startup::rerank_refusal(enabled, query, documents) is None <==> enabled && query.len() > 0
            && 1 <= documents <= 200,
        startup::rerank_refusal(enabled, query, documents) matches Some(e) ==> e.0 == if enabled {
            400u16
        } else {
            503u16
        },
{
}

/// A setting counts as it stands, or where it must be filled in only where it is not
/// empty; else the usual text counts.
pub proof fn law_set_texts_count(s: Seq<char>, usual: Seq<char>)
    ensures
        startup::setting_or(Some(s), usual) == s,
        startup::setting_or(None, usual) == usual,
        s.len() > 0 ==> startup::filled_or(Some(s), usual) == s,
        s.len() == 0 ==> startup::filled_or(Some(s), usual) == usual,
        startup::filled_or(None, usual) == usual,
{
}

/// The port is the one that is set, which must be one, or the usual one.
pub proof fn law_ports(n: u16, s: Seq<char>)
    ensures
        startup::port_of(Some(text::decimal(n as nat))) == Some(n as nat),
        startup::port_of(None) == Some(8081nat),
        text::parsed_uint(s, u16::MAX as nat) is None ==> startup::port_of(Some(s)) is None,
{
    lemma_unsigned_round_trip(n as nat, u16::MAX as nat);
}

/// The provider of rankings is named by its word, in capitals or not, and any other
/// word names none.
pub proof fn law_ranking_providers_are_named(s: Seq<char>)
    ensures
        ({
            let p = startup::rerank_provider_named(s);
            &&& p == Some(RerankProvider::Local) <==> text::lowers_to(s, "local"@)
            &&& p == Some(RerankProvider::Voyage) <==> text::lowers_to(s, "voyage"@)
            &&& p == Some(RerankProvider::OpenAi) <==> text::lowers_to(s, "openai"@)
        }),
{
    reveal_strlit("openai");
    reveal_strlit("voyage");
    reveal_strlit("local");
    assert(text::lowers_to(s, "openai"@) ==> text::char_lowers_to(s[0], "openai"@[0]));
    assert(text::lowers_to(s, "voyage"@) ==> text::char_lowers_to(s[0], "voyage"@[0]));
}

/// Reranking is planned for exactly where it is on, its provider is known and nothing
/// that the provider needs is missing; a remote provider is given the key that is set.
pub proof fn law_reranking_is_planned(p: RerankerPlan, s: RerankerSettings)
    requires
        startup::is_reranker_plan(p, s),
    ensures
        ({
            let setting = text::opt_str(s.provider);
            let off = startup::reranking_disabled(setting);
            let provider = startup::rerank_provider_named(setting->0);
            &&& p is Disabled <==> off
            &&& p is Unknown <==> !off && provider is None
            &&& p is Use <==> !off && provider is Some && startup::missing_setting(
                provider->0,
                s,
            ) is None
            &&& p matches RerankerPlan::Use(c) ==> Some(c.provider) == provider && (c.provider
                != RerankProvider::Local ==> (s.api_key matches Some(k) && c.api_key@ == k@)) && (
            c.provider == RerankProvider::Local ==> c.api_key@.len() == 0) && (
            s.model matches Some(m) ==> c.model@ == m@)
        }),
{
}

/// A service is where it is set to be. The remote ones have a usual address for an
/// empty setting too, the local one goes by the path of its models.
pub proof fn law_embedders_are_located(
    url: Seq<char>,
    path: Seq<char>,
    any: Option<Seq<char>>,
)
    ensures
        url.len() > 0 ==> startup::embedder_location(EmbedProvider::OpenAi, Some(url), any) == url
            && startup::embedder_location(EmbedProvider::Voyage, Some(url), any) == url,
        startup::embedder_location(EmbedProvider::Ollama, Some(url), any) == url,
        startup::embedder_location(EmbedProvider::Local, any, Some(path)) == path,
        startup::embedder_location(EmbedProvider::OpenAi, None, any) == "https://api.openai.com"@,
        startup::embedder_location(EmbedProvider::Voyage, None, any) == "https://api.voyageai.com"@,
        startup::embedder_location(EmbedProvider::Ollama, None, any) == "http://localhost:11434"@,
        startup::embedder_location(EmbedProvider::Local, any, None) == "/data/models"@,
{
}

/// A model is known by its repository or a shorter name, and has the dimensions of its
/// size.
pub proof fn law_known_models(name: Seq<char>)
    ensures
        ({
            let m = models::model_named(name);
            let large = name == "BAAI/bge-large-en-v1.5"@;
            let base = name == "BAAI/bge-base-en-v1.5"@;
            let small = name == "BAAI/bge-small-en-v1.5"@;
            let gemma = name == "onnx-community/embeddinggemma-300m-ONNX"@ || name
                == "google/embeddinggemma-300m"@ || name == "embeddinggemma-300m"@;
            &&& m is Some <==> large || base || small || gemma
            &&& m matches Some(c) ==> {
                &&& c.dims == 1024 <==> large
                &&& c.dims == 384 <==> small
                &&& c.dims == 768 <==> base || gemma
                &&& c.builtin is None <==> gemma
                &&& c.hf_repo == ModelRepo::EmbeddingGemma <==> gemma
                &&& c.hf_repo == ModelRepo::BgeLarge <==> large
                &&& c.hf_repo == ModelRepo::BgeBase <==> base
                &&& c.hf_repo == ModelRepo::BgeSmall <==> small
            }
        }),
{
    reveal_strlit("BAAI/bge-large-en-v1.5");
    reveal_strlit("BAAI/bge-base-en-v1.5");
    reveal_strlit("BAAI/bge-small-en-v1.5");
    reveal_strlit("onnx-community/embeddinggemma-300m-ONNX");
    reveal_strlit("google/embeddinggemma-300m");
    reveal_strlit("embeddinggemma-300m");
    let large = "BAAI/bge-large-en-v1.5"@;
    let base = "BAAI/bge-base-en-v1.5"@;
    let small = "BAAI/bge-small-en-v1.5"@;
    assert(large[9] == 'l' && base[9] == 'b' && small[9] == 's');
    assert("onnx-community/embeddinggemma-300m-ONNX"@[0] == 'o' && "google/embeddinggemma-300m"@[0]
        == 'g' && "embeddinggemma-300m"@[0] == 'e');
    assert(large[0] == 'B' && base[0] == 'B' && small[0] == 'B');
}

/// A reranking model is known by its repository or by its own name.
pub proof fn law_known_rerankers(name: Seq<char>)
    ensures
        ({
            let m = models::reranker_named(name);
            let base = name == "BAAI/bge-reranker-base"@ || name == "bge-reranker-base"@;
            let large = name == "BAAI/bge-reranker-v2-m3"@ || name == "rozgo/bge-reranker-v2-m3"@
                || name == "bge-reranker-v2-m3"@;
            let turbo = name == "jinaai/jina-reranker-v1-turbo-en"@ || name
                == "jina-reranker-v1-turbo-en"@;
            let wide = name == "jinaai/jina-reranker-v2-base-multilingual"@ || name
                == "jina-reranker-v2-base-multilingual"@;
            &&& base ==> m == Some(RerankerKind::BgeRerankerBase)
            &&& large && !base ==> m == Some(RerankerKind::BgeRerankerV2M3)
            &&& turbo && !base && !large ==> m == Some(RerankerKind::JinaRerankerV1TurboEn)
            &&& wide && !base && !large && !turbo ==> m == Some(
                RerankerKind::JinaRerankerV2BaseMultilingual,
            )
            &&& !base && !large && !turbo && !wide ==> m is None
        }),
{
}

/// A number of dimensions counts where it is set, and an empty setting is none.
pub proof fn law_set_dimensions_count(n: usize, s: Seq<char>)
    ensures
        startup::dims_of(Some(text::decimal(n as nat))) == Ok::<Option<nat>, EmbedderError>(
            Some(n as nat),
        ),
        startup::dims_of(None) == Ok::<Option<nat>, EmbedderError>(None),
        s.len() == 0 ==> startup::dims_of(Some(s)) == Ok::<Option<nat>, EmbedderError>(None),
        s.len() > 0 && text::parsed_uint(s, usize::MAX as nat) is None ==> startup::dims_of(Some(s))
            == Err::<Option<nat>, EmbedderError>(EmbedderError::BadDims),
{
    lemma_unsigned_round_trip(n as nat, usize::MAX as nat);
    text_laws::law_number_is_written_shortest(n as nat);
}

/// The zone is the project's own where it is set to a known one, else the system's
/// where that is, and else the universal one. Spaces around a name do not count.
pub proof fn law_zones_are_chosen(
    cfg: TimezoneConfig,
    own: Option<Seq<char>>,
    system: Option<Seq<char>>,
    s: Seq<char>,
)
    ensures
        text::trim(s).len() > 0 && time::zone_known(text::trim(s)) ==> time::zone_of(Some(s))
            == Some(text::trim(s)),
        text::trim(s).len() == 0 || !time::zone_known(text::trim(s)) ==> time::zone_of(
            Some(s),
        ) is None,
        time::zone_of(None) is None,
        cfg.is_chosen(own, system) ==> {
            &&& own is Some ==> cfg.name@ == own->0 && cfg.source == TimezoneSource::Env
            &&& own is None && system is Some ==> cfg.name@ == system->0 && cfg.source
                == TimezoneSource::Tz
            &&& own is None && system is None ==> cfg.name@ == "UTC"@ && cfg.source
                == TimezoneSource::Utc
        },
{
}

/// The block of the time tells the moment, each of its three written forms under its
/// name, and the zone with where it is from.
pub proof fn law_time_is_told(
    cfg: TimezoneConfig,
    j: Json,
    now: i64,
    utc: Seq<char>,
    local: Seq<char>,
    human: Seq<char>,
)
    requires
        cfg.is_block(j, now, utc, local, human),
    ensures
        json::int_of(json::member(j, "now_unix"@)) == Some(now),
        json::text_of(json::member(j, "now_utc"@)) == Some(utc),
        json::text_of(json::member(j, "now_local"@)) == Some(local),
        json::text_of(json::member(j, "now_human"@)) == Some(human),
        json::text_of(json::member(j, "timezone"@)) == Some(cfg.name@),
        cfg.source == TimezoneSource::Env ==> json::text_of(json::member(j, "timezone_source"@))
            == Some("env"@),
        cfg.source == TimezoneSource::Tz ==> json::text_of(json::member(j, "timezone_source"@))
            == Some("tz"@),
        cfg.source == TimezoneSource::Utc ==> json::text_of(json::member(j, "timezone_source"@))
            == Some("utc"@),
{
}

// --- Limits ---

/// A limit that is observed is remembered; the capacity is the lower of the two, and
/// no more tokens are left than the capacity.
pub proof fn law_observed_limits(caps: RateCaps, limit: u64)
    requires
        caps.well_formed(),
    ensures
        ({
            let after = caps.after(limit);
            &&& after.observed == Some(limit)
            &&& after.capacity == if limit < caps.capacity {
                limit
            } else {
                caps.capacity
            }
            &&& after.tokens == if caps.tokens < after.capacity {
                caps.tokens
            } else {
                after.capacity
            }
        }),
{
}

/// A wait in seconds is read with spaces around it or without; a limit is read in the
/// same way and must be above zero.
pub proof fn law_header_numbers_are_read(value: Seq<char>, n: u64, m: u32)
    ensures
        text::trim(value) == text::decimal(n as nat) ==> rate_limit::stated_seconds(value) == Some(
            n as nat,
        ),
        text::trim(value) == text::decimal(m as nat) && m > 0 ==> rate_limit::stated_limit(value)
            == Some(m as nat),
        text::trim(value) == text::decimal(0) ==> rate_limit::stated_limit(value) is None,
        text::parsed_uint(text::trim(value), u64::MAX as nat) is None
            ==> rate_limit::stated_seconds(value) is None && rate_limit::header_seconds(
            Some(value),
        ) is None,
        rate_limit::header_seconds(Some(value)) == rate_limit::stated_seconds(value),
        rate_limit::header_seconds(None) is None,
{
    lemma_unsigned_round_trip(n as nat, u64::MAX as nat);
    lemma_unsigned_round_trip(m as nat, u32::MAX as nat);
    lemma_unsigned_round_trip(0, u32::MAX as nat);
}

/// The wait before a retry is half a second and doubles with every attempt.
pub proof fn law_waits_double(attempt: nat)
    ensures
        bookstack::backoff_millis(attempt) == 500 * pow2(attempt),
    decreases attempt,
{
    lemma2_to64();
    if attempt > 0 {
        law_waits_double((attempt - 1) as nat);
        lemma_pow2_unfold(attempt);
    }
}

// --- Answers ---

/// An answer is a success exactly in the two hundreds.
pub proof fn law_successes(code: u16)
    ensures
        bookstack::is_success(code) <==> code as int / 100 == 2,
{
}

/// Every item must have its embedding: one without is enough to refuse the answer.
pub proof fn law_every_item_is_embedded(items: Seq<Json>)
    ensures
        providers::all_embedded(items) <==> forall|i: int|
            0 <= i < items.len() ==> (json::member(#[trigger] items[i], "embedding"@) matches Some(
                e,
            ) && e is List),
{
    if providers::all_embedded(items) {
        assert forall|i: int| 0 <= i < items.len() implies (json::member(
            #[trigger] items[i],
            "embedding"@,
        ) matches Some(e) && e is List) by {
            assert(providers::has_embedding(items[i]));
        }
    }
}

/// An embedding is taken by the number that its item states, or as if it stated zero.
pub proof fn law_items_state_their_text(item: Json)
    ensures
        json::member(item, "index"@) matches Some(Json::Int(n)) ==> n >= 0
            ==> providers::text_number(item) == n,
        json::member(item, "index"@) matches Some(Json::Big(n)) ==> providers::text_number(item)
            == n,
        json::member(item, "index"@) is None ==> providers::text_number(item) == 0,
{
}

/// The reason of an error is taken from where the service puts it: the first that is
/// stated of the places for the shape.
pub proof fn law_reasons_are_found(answer: Json)
    ensures
        ({
            let inner = match json::member(answer, "error"@) {
                Some(e) => json::text_of(json::member(e, "message"@)),
                None => None,
            };
            let outer = json::text_of(json::member(answer, "detail"@));
            &&& providers::error_message(ErrorShape::Message, answer) == inner
            &&& providers::error_message(ErrorShape::Detail, answer) == outer
            &&& providers::error_message(ErrorShape::Error, answer) == json::text_of(
                json::member(answer, "error"@),
            )
            &&& providers::error_message(ErrorShape::DetailOrMessage, answer) == if outer is Some {
                outer
            } else {
                inner
            }
            &&& providers::error_message(ErrorShape::MessageOrDetail, answer) == if inner is Some {
                inner
            } else {
                outer
            }
        }),
{
}

/// A number without a sign is read as it is, up to the largest; a negative one and
/// anything else is none.
pub proof fn law_unsigned_members(n: i64, m: u64, j: Json)
    ensures
        providers::unsigned_of(Some(Json::Big(m))) == Some(m),
        n >= 0 ==> providers::unsigned_of(Some(Json::Int(n))) == Some(n as u64),
        n < 0 ==> providers::unsigned_of(Some(Json::Int(n))) is None,
        !(j is Int) && !(j is Big) ==> providers::unsigned_of(Some(j)) is None,
        providers::unsigned_of(None) is None,
{
}

/// The dimensions are those of the first embedding, where it is a list.
pub proof fn law_first_embedding_counts(answer: Json)
    ensures
        ({
            let items = json::list_of(json::member(answer, "data"@));
            let bare = json::list_of(json::member(answer, "embeddings"@));
            &&& items is Some && items->0.len() > 0 ==> providers::first_embedding(
                EmbeddingShape::Items,
                answer,
            ) == json::list_of(json::member(items->0[0], "embedding"@))
            &&& !(items is Some && items->0.len() > 0) ==> providers::first_embedding(
                EmbeddingShape::Items,
                answer,
            ) is None
            &&& bare is Some && bare->0.len() > 0 ==> providers::first_embedding(
                EmbeddingShape::Bare,
                answer,
            ) == json::list_of(Some(bare->0[0]))
            &&& !(bare is Some && bare->0.len() > 0) ==> providers::first_embedding(
                EmbeddingShape::Bare,
                answer,
            ) is None
            &&& providers::embedding_list(EmbeddingShape::Items, answer) == items
            &&& providers::embedding_list(EmbeddingShape::Bare, answer) == bare
        }),
{
}

/// An item of a ranking is whole if it has an index without a sign and a score that
/// is a number.
pub open spec fn is_whole_item(item: Json) -> bool {
    let index = json::member(item, "index"@);
    let score = json::member(item, "relevance_score"@);
    &&& index matches Some(i) && (i is Big || (i matches Json::Int(n) && n >= 0))
    &&& score matches Some(s) && (s is Int || s is Big || s is Fraction)
}

/// A ranking is read exactly if all its items are whole, and then has the index of
/// each item at the item's place.
pub proof fn law_ranking_has_every_index(items: Seq<Json>)
    ensures
        match providers::ranked_documents(items, items.len() as int) {
            Ok(found) => found.len() == items.len() && forall|i: int|
                0 <= i < items.len() ==> is_whole_item(#[trigger] items[i])
                    && providers::unsigned_of(json::member(items[i], "index"@)) == Some(found[i]),
            Err(_) => exists|i: int| 0 <= i < items.len() && !is_whole_item(#[trigger] items[i]),
        },
{
    lemma_ranking(items, items.len() as int);
}

proof fn lemma_ranking(items: Seq<Json>, n: int)
    requires
        0 <= n <= items.len(),
    ensures
        match providers::ranked_documents(items, n) {
            Ok(found) => found.len() == n && forall|i: int|
                0 <= i < n ==> is_whole_item(#[trigger] items[i]) && providers::unsigned_of(
                    json::member(items[i], "index"@),
                ) == Some(found[i]),
            Err(_) => exists|i: int| 0 <= i < n && !is_whole_item(#[trigger] items[i]),
        },
    decreases n,
{
    if n > 0 {
        lemma_ranking(items, n - 1);
        assert(providers::item_error(items[n - 1]) is None <==> is_whole_item(items[n - 1]));
    }
}

/// Items are taken from the data, and from the results only where there is no data.
pub proof fn law_ranking_items_are_found(answer: Json)
    ensures
        ({
            let data = json::list_of(json::member(answer, "data"@));
            let results = json::list_of(json::member(answer, "results"@));
            &&& data is Some ==> providers::ranking_items(answer) == data
            &&& data is None ==> providers::ranking_items(answer) == results
        }),
{
}

/// Each document is found once exactly if there are as many items as documents and
/// every document is the index of one; its place is that of the first such item.
pub proof fn law_documents_are_found(found: Seq<u64>, documents: nat, d: int)
    ensures
        match providers::place_of(found, d, 0) {
            Some(i) => 0 <= i < found.len() && found[i] == d && forall|j: int|
                0 <= j < i ==> #[trigger] found[j] != d,
            None => forall|j: int| 0 <= j < found.len() ==> #[trigger] found[j] != d,
        },
        providers::each_found_once(found, documents) ==> found.len() == documents,
        providers::each_found_once(found, documents) && 0 <= d < documents ==> found.contains(
            d as u64,
        ),
        found.len() == documents && documents <= u64::MAX && (forall|e: int|
            0 <= e < documents ==> found.contains(#[trigger] (e as u64)))
            ==> providers::each_found_once(found, documents),
{
    lemma_place_of(found, d, 0);
    if providers::each_found_once(found, documents) && 0 <= d < documents {
        let i = providers::place_of(found, d, 0)->0;
        assert(found[i] == d as u64);
    }
    if found.len() == documents && documents <= u64::MAX && (forall|e: int|
        0 <= e < documents ==> found.contains(#[trigger] (e as u64))) {
        assert forall|e: int| 0 <= e < documents implies #[trigger] providers::place_of(
            found,
            e,
            0,
        ) is Some by {
            lemma_place_of(found, e, 0);
            assert(found.contains(e as u64));
        }
    }
}

proof fn lemma_place_of(found: Seq<u64>, d: int, from: int)
    requires
        0 <= from <= found.len(),
    ensures
        match providers::place_of(found, d, from) {
            Some(i) => from <= i < found.len() && found[i] == d && forall|j: int|
                from <= j < i ==> #[trigger] found[j] != d,
            None => forall|j: int| from <= j < found.len() ==> #[trigger] found[j] != d,
        },
    decreases found.len() - from,
{
    if from < found.len() && found[from] != d {
        lemma_place_of(found, d, from + 1);
    }
}

/// Where a ranking is read, each document has the place of an item that names it, and
/// there are as many items as documents.
pub proof fn law_ranking_names_each_document(
    order: Vec<usize>,
    answer: Json,
    documents: nat,
    d: int,
)
    requires
        providers::is_ranking_of(Ok(order), answer, documents),
        0 <= d < documents,
    ensures
        ({
            let data = json::list_of(json::member(answer, "data"@));
            let items = if data is Some {
                data
            } else {
                json::list_of(json::member(answer, "results"@))
            };
            &&& items is Some
            &&& items->0.len() == documents
            &&& order@.len() == documents
            &&& order@[d] < documents
            &&& providers::unsigned_of(json::member(items->0[order@[d] as int], "index"@)) matches Some(
                n,
            ) && n == d
        }),
{
    law_ranking_items_are_found(answer);
    let items = providers::ranking_items(answer)->0;
    law_ranking_has_every_index(items);
    let found = providers::ranked_documents(items, items.len() as int)->Ok_0;
    law_documents_are_found(found, documents, d);
    assert(providers::place_of(found, d, 0) == Some(order@[d] as int));
    assert(is_whole_item(items[order@[d] as int]));
}

/// Embeddings without numbers are taken as they come.
pub proof fn law_bare_embeddings_keep_their_order(list: Seq<Json>, i: int)
    requires
        0 <= i < list.len() <= usize::MAX,
    ensures
        providers::embedding_positions(EmbeddingShape::Bare, list).len() == list.len(),
        providers::embedding_positions(EmbeddingShape::Bare, list)[i] == i,
        providers::embedding_positions(EmbeddingShape::Items, list) == providers::by_number(list),
{
}

/// The hits of a search are those that reach the threshold.
pub proof fn law_hits_reach_the_threshold(hits: Seq<RankedHit>, threshold: i64)
    ensures
        rows::is_choice(
            hits,
            |h: RankedHit| h.key >= threshold,
            vector::reaching(hits, threshold),
        ),
{
    rows::lemma_chosen(
        hits,
        |h: RankedHit| h.key >= threshold,
        |h: RankedHit| h.key >= threshold,
    );
}

/// A stored secret is the nonce and behind it what was sealed with it.
pub proof fn law_nonce_stands_in_front(
    key: Seq<u8>,
    stored: Seq<char>,
    nonce: Seq<u8>,
    data: Seq<u8>,
    s: Seq<char>,
)
    requires
        nonce.len() == 12,
    ensures
        crypto::base64_bytes(stored) == Some(nonce + data) ==> (crypto::decrypted(key, stored)
            == match crypto::opened(key, nonce, data) {
            Some(plain) => crypto::utf8_text(plain),
            None => None,
        }),
        crypto::base64_bytes(stored) is None ==> crypto::decrypted(key, stored) is None,
        crypto::encrypted(key, nonce, s) == crypto::base64_text(
            nonce + crypto::sealed(key, nonce, vstd::utf8::encode_utf8(s)),
        ),
{
    assert((nonce + data).take(12) =~= nonce);
    assert((nonce + data).skip(12) =~= data);
}

/// A component is stored in four bytes, the lowest first.
pub proof fn law_components_are_stored_lowest_first(bits: Seq<u32>, i: int)
    requires
        0 <= i < bits.len(),
    ensures
        ({
            let blob = vector::blob_of(bits, bits.len() as int);
            &&& blob.len() == 4 * bits.len()
            &&& bits[i] == blob[4 * i] + 256 * blob[4 * i + 1] + 65536 * blob[4 * i + 2] + 16777216
                * blob[4 * i + 3]
        }),
{
    lemma_blob_bytes(bits, bits.len() as int, i);
}

proof fn lemma_blob_bytes(bits: Seq<u32>, n: int, i: int)
    requires
        0 <= n <= bits.len(),
    ensures
        vector::blob_of(bits, n).len() == 4 * n,
        0 <= i < n ==> bits[i] == vector::blob_of(bits, n)[4 * i] + 256 * vector::blob_of(bits, n)[4
            * i + 1] + 65536 * vector::blob_of(bits, n)[4 * i + 2] + 16777216 * vector::blob_of(
            bits,
            n,
        )[4 * i + 3],
    decreases n,
{
    if n > 0 {
        lemma_blob_bytes(bits, n - 1, i);
        lemma_four_bytes(bits[n - 1]);
    }
}

proof fn lemma_four_bytes(x: u32)
    ensures
        ({
            let b = vector::le_bytes(x);
            &&& b.len() == 4
            &&& x == b[0] + 256 * b[1] + 65536 * b[2] + 16777216 * b[3]
        }),
{
    assert(x == x % 256 + 256 * (x / 256 % 256) + 65536 * (x / 65536 % 256) + 16777216 * (x
        / 16777216));
}

// --- Names and addresses ---

/// Slashes alone.
pub open spec fn is_slashes(s: Seq<char>) -> bool {
    forall|i: int| 0 <= i < s.len() ==> #[trigger] s[i] == '/'
}

/// An address is cut before the slashes at its end, and keeps all the rest.
pub proof fn law_slashes_are_cut(front: Seq<char>, slashes: Seq<char>)
    requires
        front.len() == 0 || front.last() != '/',
        is_slashes(slashes),
    ensures
        bookstack::without_slashes(front + slashes) == front,
    decreases slashes.len(),
{
    let s = front + slashes;
    if slashes.len() > 0 {
        assert(s.last() == slashes[slashes.len() - 1]);
        assert(s.drop_last() =~= front + slashes.drop_last());
        law_slashes_are_cut(front, slashes.drop_last());
    } else {
        assert(s =~= front);
    }
}

/// A download is named by what stands behind the last slash and before the query; a
/// download without such a name has the usual one.
pub proof fn law_download_is_named(front: Seq<char>, name: Seq<char>, query: Seq<char>)
    requires
        forall|i: int| 0 <= i < name.len() ==> #[trigger] name[i] != '/' && name[i] != '?',
        forall|i: int| 0 <= i < query.len() ==> #[trigger] query[i] != '/',
        query.len() > 0 ==> query[0] == '?',
    ensures
        bookstack::name_in_url(front + "/"@ + name + query) == if name.len() > 0 {
            name
        } else {
            "download"@
        },
{
    reveal_strlit("/");
    let url = front + "/"@ + name + query;
    let start = (front.len() + 1) as int;
    assert(url[start - 1] == '/');
    assert forall|k: int| start <= k < url.len() implies #[trigger] url[k] != '/' by {
        if k < start + name.len() {
            assert(url[k] == name[k - start]);
        } else {
            assert(url[k] == query[k - start - name.len()]);
        }
    }
    lemma_last_slash(url, url.len() as int, start);
    let end = (start + name.len()) as int;
    assert forall|k: int| start <= k < end implies #[trigger] url[k] != '?' by {
        assert(url[k] == name[k - start]);
    }
    if query.len() > 0 {
        assert(url[end] == query[0]);
    }
    lemma_query(url, start, end);
    assert(url.subrange(start, end) =~= name);
}

proof fn lemma_last_slash(url: Seq<char>, n: int, start: int)
    requires
        0 < start <= n <= url.len(),
        url[start - 1] == '/',
        forall|k: int| start <= k < url.len() ==> #[trigger] url[k] != '/',
    ensures
        bookstack::after_last_slash(url, n) == start,
    decreases n,
{
    if n > start {
        assert(url[n - 1] != '/');
        lemma_last_slash(url, n - 1, start);
    }
}

proof fn lemma_query(url: Seq<char>, i: int, end: int)
    requires
        0 <= i <= end <= url.len(),
        end == url.len() || url[end] == '?',
        forall|k: int| i <= k < end ==> #[trigger] url[k] != '?',
    ensures
        bookstack::query_start(url, i) == end,
    decreases end - i,
{
    if i < end {
        assert(url[i] != '?');
        lemma_query(url, i + 1, end);
    }
}

/// An address of four bytes as a number.
pub open spec fn address_number(o: [u8; 4]) -> int {
    o@[0] * 0x1000000 + o@[1] * 0x10000 + o@[2] * 0x100 + o@[3]
}

/// An address of four bytes is refused exactly if it is in one of the ranges that are
/// not public: loopback, the three private ones, link local, shared, the broadcast
/// address and the unspecified one.
pub proof fn law_addresses_of_four_bytes(o: [u8; 4])
    ensures
        bookstack::is_restricted(IpAddress::V4(o)) <==> {
            let n = address_number(o);
            ||| 0x7f000000 <= n <= 0x7fffffff
            ||| 0x0a000000 <= n <= 0x0affffff
            ||| 0xac100000 <= n <= 0xac1fffff
            ||| 0xc0a80000 <= n <= 0xc0a8ffff
            ||| 0xa9fe0000 <= n <= 0xa9feffff
            ||| 0x64400000 <= n <= 0x647fffff
            ||| n == 0xffffffff
            ||| n == 0
        },
{
}

/// A long address is refused exactly if it is loopback or unspecified, link local or
/// unique local.
pub proof fn law_addresses_of_eight_groups(g: [u16; 8])
    ensures
        bookstack::is_restricted(IpAddress::V6(g)) <==> {
            ||| (forall|i: int| 0 <= i < 7 ==> #[trigger] g@[i] == 0) && (g@[7] == 0 || g@[7] == 1)
            ||| g@[0] as int / 0x40 == 0x3fa
            ||| g@[0] as int / 0x200 == 0x7e
        },
{
    if bookstack::seven_zero_groups(g@) {
        assert forall|i: int| 0 <= i < 7 implies #[trigger] g@[i] == 0 by {}
    }
}

/// A refusal names the first address that is not public.
pub proof fn law_refusal_names_the_first(host: Seq<char>, addrs: Seq<ResolvedAddress>, i: int)
    requires
        0 <= i < addrs.len(),
        bookstack::is_restricted(addrs[i].ip),
        forall|j: int| 0 <= j < i ==> !bookstack::is_restricted((#[trigger] addrs[j]).ip),
    ensures
        bookstack::first_restricted(addrs, 0) == Some(i),
{
    lemma_first_restricted(addrs, 0, i);
}

proof fn lemma_first_restricted(addrs: Seq<ResolvedAddress>, from: int, i: int)
    requires
        0 <= from <= i < addrs.len(),
        bookstack::is_restricted(addrs[i].ip),
        forall|j: int| 0 <= j < i ==> !bookstack::is_restricted((#[trigger] addrs[j]).ip),
    ensures
        bookstack::first_restricted(addrs, from) == Some(i),
    decreases i - from,
{
    if from < i {
        assert(!bookstack::is_restricted(addrs[from].ip));
        lemma_first_restricted(addrs, from + 1, i);
    }
}

/// A file is fetched exactly from an address of one of the two schemes with a host, at
/// the stated port or else at port eighty.
pub proof fn law_fetched_addresses(url: Seq<char>, p: UrlModel, e: Seq<char>)
    ensures
        bookstack::fetch_target(url, Err(e)) is Err,
        bookstack::fetch_target(url, Ok(p)) is Ok <==> (p.scheme == "http"@ || p.scheme
            == "https"@) && p.host is Some,
        bookstack::fetch_target(url, Ok(p)) matches Ok(t) ==> Some(t.0) == p.host && (
        p.port is Some ==> Some(t.1) == p.port) && (p.port is None ==> t.1 == 80),
{
}

/// A listing that failed tells of missing rights exactly if the error has the status
/// or the word, in capitals or not.
pub proof fn law_missing_rights_are_told(before: Seq<char>, after: Seq<char>, error: Seq<char>)
    ensures
        bookstack::is_forbidden(before + "403"@ + after),
        bookstack::is_forbidden(error) ==> (exists|i: int| #[trigger]
            text_laws::stands_at(error, "403"@, i)) || (exists|i: int| #[trigger]
            text_laws::stands_at(text::ascii_lowered(error), "forbidden"@, i)),
        (exists|i: int| #[trigger]
            text_laws::stands_at(text::ascii_lowered(error), "forbidden"@, i))
            ==> bookstack::is_forbidden(error),
{
    text_laws::law_text_contains_its_middle(before, "403"@, after, error);
    text_laws::law_text_contains_its_middle(
        before,
        "forbidden"@,
        after,
        text::ascii_lowered(error),
    );
}

/// Bytes are written as two digits each, the higher half first, with small letters.
pub proof fn law_bytes_are_written_in_hex(bytes: Seq<u8>, i: int)
    requires
        0 <= i < bytes.len(),
    ensures
        ({
            let high = crypto::hex(bytes)[2 * i] as int;
            let low = crypto::hex(bytes)[2 * i + 1] as int;
            let h = if high <= 57 {
                high - 48
            } else {
                high - 87
            };
            let l = if low <= 57 {
                low - 48
            } else {
                low - 87
            };
            &&& crypto::hex(bytes).len() == 2 * bytes.len()
            &&& (48 <= high <= 57 || 97 <= high <= 102) && (48 <= low <= 57 || 97 <= low <= 102)
            &&& bytes[i] == 16 * h + l
        }),
{
    lemma_hex_value(bytes[i] as int / 16);
    lemma_hex_value(bytes[i] as int % 16);
    assert((2 * i) % 2 == 0 && (2 * i) / 2 == i);
    assert((2 * i + 1) % 2 == 1 && (2 * i + 1) / 2 == i);
    assert(crypto::hex(bytes)[2 * i] == crypto::hex_digit(bytes[i] as int / 16));
    assert(crypto::hex(bytes)[2 * i + 1] == crypto::hex_digit(bytes[i] as int % 16));
}

proof fn lemma_hex_value(n: int)
    requires
        0 <= n < 16,
    ensures
        n < 10 ==> crypto::hex_digit(n) as int == 48 + n,
        n >= 10 ==> crypto::hex_digit(n) as int == 87 + n,
{
}

/// The backups among files are those named as such, and the ones to remove are all
/// but the newest, oldest first.
pub proof fn law_oldest_backups_are_removed(files: Seq<Seq<char>>)
    ensures
        forall|i: int|
            0 <= i < files.len() ==> backup::is_backup(#[trigger] files[i]) == (
            text_laws::stands_at(files[i], "bookstack-mcp-backup-"@, 0) && text_laws::stands_at(
                files[i],
                ".db"@,
                files[i].len() - 3,
            )),
        rows::is_choice(
            files,
            |name: Seq<char>| backup::is_backup(name),
            backup::backups(files),
        ),
        ({
            let all = backup::backups_in_order(files);
            let gone = backup::outdated(files);
            &&& all.len() <= 3 ==> gone.len() == 0
            &&& all.len() > 3 ==> gone.len() == all.len() - 3
            &&& forall|i: int| 0 <= i < gone.len() ==> #[trigger] gone[i] == all[i]
        }),
{
    assert forall|i: int| 0 <= i < files.len() implies backup::is_backup(#[trigger] files[i]) == (
    text_laws::stands_at(files[i], "bookstack-mcp-backup-"@, 0) && text_laws::stands_at(
        files[i],
        ".db"@,
        files[i].len() - 3,
    )) by {
        reveal_strlit(".db");
        text_laws::law_front_and_back("bookstack-mcp-backup-"@, ".db"@, files[i]);
    }
    rows::lemma_chosen(
        files,
        |name: Seq<char>| backup::is_backup(name),
        |name: Seq<char>| backup::is_backup(name),
    );
}

} // verus!
