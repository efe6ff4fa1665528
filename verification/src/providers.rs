//! How the answers of embedding and reranking services are read.
//!
//! The components of an embedding and the scores of a ranking are not looked at
//! here: what is told is where they stand in an answer, and in which order.

use crate::bookstack;
use crate::bookstack::show_status;
use crate::json;
use crate::json::Json;
use crate::rows;
use crate::rows::sort_rows;
use crate::startup::{EmbedProvider, RerankProvider};
use crate::vector;
use crate::vector::{search_embeddings, RankedHit};
use vstd::prelude::*;
use vstd::string::StringExecFns;

verus! {

// --- Errors ---

/// Where a service's answer holds the message of an error.
#[derive(Clone, Copy, Debug, PartialEq, Eq, Structural)]
pub enum ErrorShape {
    /// In the member `message` of the member `error`.
    Message,
    /// In the member `error`.
    Error,
    /// In the member `detail`.
    Detail,
    /// In `detail`, else in the message.
    DetailOrMessage,
    /// In the message, else in `detail`.
    MessageOrDetail,
}

/// The message of an answer's `error`.
pub open spec fn nested_message(answer: Json) -> Option<Seq<char>> {
    json::text_of(json::member_opt(json::member(answer, "error"@), "message"@))
}

/// The `detail` of an answer.
pub open spec fn detail(answer: Json) -> Option<Seq<char>> {
    json::text_of(json::member(answer, "detail"@))
}

/// The first of two optional texts that is there.
pub open spec fn either(a: Option<Seq<char>>, b: Option<Seq<char>>) -> Option<Seq<char>> {
    if a is Some {
        a
    } else {
        b
    }
}

/// The message of an error, if the answer holds one.
pub open spec fn error_message(shape: ErrorShape, answer: Json) -> Option<Seq<char>> {
    match shape {
        ErrorShape::Message => nested_message(answer),
        ErrorShape::Error => json::text_of(json::member(answer, "error"@)),
        ErrorShape::Detail => detail(answer),
        ErrorShape::DetailOrMessage => either(detail(answer), nested_message(answer)),
        ErrorShape::MessageOrDetail => either(nested_message(answer), detail(answer)),
    }
}

/// Reads the message of an answer's `error`.
fn read_nested_message<'a>(answer: &'a Json) -> (r: Option<&'a str>)
    ensures
        match r {
            Some(s) => nested_message(*answer) == Some(s@),
            None => nested_message(*answer) is None,
        },
{
    match answer.get("error") {
        Some(e) => e.get_str("message"),
        None => None,
    }
}

/// Reads the message of an error.
fn read_error_message<'a>(shape: ErrorShape, answer: &'a Json) -> (r: Option<&'a str>)
    ensures
        match r {
            Some(s) => error_message(shape, *answer) == Some(s@),
            None => error_message(shape, *answer) is None,
        },
{
    match shape {
        ErrorShape::Message => read_nested_message(answer),
        ErrorShape::Error => answer.get_str("error"),
        ErrorShape::Detail => answer.get_str("detail"),
        ErrorShape::DetailOrMessage => match answer.get_str("detail") {
            Some(s) => Some(s),
            None => read_nested_message(answer),
        },
        ErrorShape::MessageOrDetail => match read_nested_message(answer) {
            Some(s) => Some(s),
            None => answer.get_str("detail"),
        },
    }
}

/// The error for a service that answered with a failure.
pub open spec fn service_error(
    what: Seq<char>,
    status: u16,
    shape: ErrorShape,
    answer: Json,
) -> Seq<char> {
    what + " error "@ + bookstack::status_line(status) + ": "@ + match error_message(
        shape,
        answer,
    ) {
        Some(s) => s,
        None => "unknown error"@,
    }
}

/// Writes the error for a service that answered with a failure; `None` where it
/// answered with success.
pub fn check_answer(what: &str, status: u16, shape: ErrorShape, answer: &Json) -> (r: Option<
    String,
>)
    ensures
        match r {
            None => bookstack::is_success(status),
            Some(e) => !bookstack::is_success(status) && e@ == service_error(
                what@,
                status,
                shape,
                *answer,
            ),
        },
{
    if 200 <= status && status <= 299 {
        return None;
    }
    let line = show_status(status);
    let mut e = String::new();
    e.append(what);
    e.append(" error ");
    e.append(line.as_str());
    e.append(": ");
    match read_error_message(shape, answer) {
        Some(s) => e.append(s),
        None => e.append("unknown error"),
    }
    assert(e@ =~= service_error(what@, status, shape, *answer));
    Some(e)
}

// --- Embeddings ---

/// An unsigned integer in a value.
pub open spec fn unsigned_of(j: Option<Json>) -> Option<u64> {
    match j {
        Some(Json::Int(n)) => if n >= 0 {
            Some(n as u64)
        } else {
            None
        },
        Some(Json::Big(n)) => Some(n),
        _ => None,
    }
}

/// Reads an unsigned integer member.
fn read_unsigned(j: &Json, name: &str) -> (r: Option<u64>)
    ensures
        r == unsigned_of(json::member(*j, name@)),
{
    match j.get(name) {
        Some(Json::Int(n)) => if *n >= 0 {
            Some(*n as u64)
        } else {
            None
        },
        Some(Json::Big(n)) => Some(*n),
        _ => None,
    }
}

/// The text that an embedding belongs to, by its number; the first where none is
/// stated.
pub open spec fn text_number(item: Json) -> u64 {
    match unsigned_of(json::member(item, "index"@)) {
        Some(n) => n,
        None => 0,
    }
}

/// The items by their positions, each with the number of its text.
pub open spec fn numbered(items: Seq<Json>) -> Seq<(usize, u64)> {
    Seq::new(items.len(), |i: int| (i as usize, text_number(items[i])))
}

/// An item comes before one for a later text, and before a later one for the
/// same text.
pub open spec fn numbered_before() -> spec_fn((usize, u64), (usize, u64)) -> bool {
    |a: (usize, u64), b: (usize, u64)| a.1 < b.1 || (a.1 == b.1 && a.0 < b.0)
}

/// The positions of the items in the order of the texts that they belong to;
/// those of one text keep their order.
pub open spec fn by_number(items: Seq<Json>) -> Seq<usize> {
    rows::sorted(numbered(items), numbered_before()).map_values(|p: (usize, u64)| p.0)
}

/// The item holds an embedding.
pub open spec fn has_embedding(item: Json) -> bool {
    json::list_of(json::member(item, "embedding"@)) is Some
}

/// Every item holds an embedding.
pub open spec fn all_embedded(items: Seq<Json>) -> bool {
    forall|i: int| 0 <= i < items.len() ==> has_embedding(#[trigger] items[i])
}

/// The error for an answer without a list.
pub open spec fn no_data(service: Seq<char>) -> Seq<char> {
    "No data array in "@ + service + " response"@
}

/// The number of the text that an item's embedding belongs to.
fn read_text_number(item: &Json) -> (r: u64)
    ensures
        r == text_number(*item),
{
    match read_unsigned(item, "index") {
        Some(n) => n,
        None => 0,
    }
}

/// Whether every item holds an embedding.
fn check_embedded(items: &Vec<Json>) -> (r: bool)
    ensures
        r == all_embedded(items@),
{
    let mut i: usize = 0;
    while i < items.len()
        invariant
            i <= items@.len(),
            forall|j: int| 0 <= j < i ==> has_embedding(#[trigger] items@[j]),
        decreases items@.len() - i,
    {
        if items[i].get_items("embedding").is_none() {
            assert(!has_embedding(items@[i as int]));
            return false;
        }
        i += 1;
    }
    true
}

/// Reads an answer that lists embeddings with the numbers of their texts. The
/// result has the positions of the items in the list, in the order of the texts.
pub fn embedding_order(service: &str, answer: &Json) -> (r: Result<Vec<usize>, String>)
    ensures
        match (r, json::list_of(json::member(*answer, "data"@))) {
            (Ok(order), Some(items)) => all_embedded(items) && order@ == by_number(
                items,
            ) && order@.len() == items.len(),
            (Ok(_), None) => false,
            (Err(e), Some(items)) => !all_embedded(items) && e@
                == "No embedding array in response item"@,
            (Err(e), None) => e@ == no_data(service@),
        },
{
    match answer.get_items("data") {
        None => {
            let mut e = String::new();
            e.append("No data array in ");
            e.append(service);
            e.append(" response");
            assert(e@ =~= no_data(service@));
            Err(e)
        },
        Some(items) => {
            if !check_embedded(items) {
                return Err("No embedding array in response item".to_owned());
            }
            let total: usize = items.len();
            let mut found: Vec<(usize, u64)> = Vec::new();
            let mut i: usize = 0;
            while i < total
                invariant
                    i <= total,
                    total == items@.len(),
                    found@ == numbered(items@).take(i as int),
                decreases total - i,
            {
                found.push((i, read_text_number(&items[i])));
                assert(found@ =~= numbered(items@).take(i + 1));
                i += 1;
            }
            assert(found@ =~= numbered(items@));
            let is_before = |a: &(usize, u64), b: &(usize, u64)| -> (c: bool)
                ensures
                    c == (a.1 < b.1 || (a.1 == b.1 && a.0 < b.0)),
            {
                a.1 < b.1 || (a.1 == b.1 && a.0 < b.0)
            };
            sort_rows(&mut found, is_before, Ghost(numbered_before()));
            proof {
                rows::lemma_sorted_from(numbered(items@), numbered_before());
            }
            let mut order: Vec<usize> = Vec::new();
            let mut j: usize = 0;
            while j < total
                invariant
                    j <= total == found@.len(),
                    order@ == found@.map_values(|p: (usize, u64)| p.0).take(j as int),
                decreases total - j,
            {
                order.push(found[j].0);
                assert(order@ =~= found@.map_values(|p: (usize, u64)| p.0).take(j + 1));
                j += 1;
            }
            assert(order@ =~= by_number(items@));
            Ok(order)
        },
    }
}

/// The embeddings come in the order of their texts, each item once: the numbers
/// never fall, and items of one text stay in their order.
pub proof fn law_embeddings_in_order(items: Seq<Json>)
    requires
        items.len() <= usize::MAX,
    ensures
        by_number(items).len() == items.len(),
        forall|a: int, b: int|
            0 <= a < b < items.len() ==> {
                let p = #[trigger] by_number(items)[a];
                let q = #[trigger] by_number(items)[b];
                &&& p != q
                &&& text_number(items[p as int]) <= text_number(items[q as int])
                &&& text_number(items[p as int]) == text_number(items[q as int]) ==> p < q
            },
        forall|a: int| 0 <= a < items.len() ==> (#[trigger] by_number(items)[a]) < items.len(),
{
    let pairs = numbered(items);
    let less = numbered_before();
    let all = rows::sorted(pairs, less);
    rows::law_sorted(pairs, less);
    rows::lemma_sorted_from(pairs, less);
    assert forall|a: int| 0 <= a < items.len() implies (#[trigger] all[a]).0 < items.len()
        && all[a].1 == text_number(items[all[a].0 as int]) by {
        assert(pairs.contains(all[a]));
        let k = choose|k: int| 0 <= k < pairs.len() && pairs[k] == all[a];
        assert(pairs[k] == (k as usize, text_number(items[k])));
    }
    assert(pairs.no_duplicates());
    pairs.lemma_multiset_has_no_duplicates();
    all.lemma_multiset_has_no_duplicates_conv();
    assert forall|a: int, b: int| 0 <= a < b < items.len() implies {
        let p = #[trigger] by_number(items)[a];
        let q = #[trigger] by_number(items)[b];
        &&& p != q
        &&& text_number(items[p as int]) <= text_number(items[q as int])
        &&& text_number(items[p as int]) == text_number(items[q as int]) ==> p < q
    } by {
        assert(!less(all[b], all[a]));
        assert(all[a] != all[b]);
        assert(all[a].1 == text_number(items[all[a].0 as int]));
        assert(all[b].1 == text_number(items[all[b].0 as int]));
    }
    assert forall|a: int| 0 <= a < items.len() implies (#[trigger] by_number(items)[a])
        < items.len() by {
        assert(all[a].0 < items.len());
    }
}

/// How a service's answer lists its embeddings.
#[derive(Clone, Copy, Debug, PartialEq, Eq, Structural)]
pub enum EmbeddingShape {
    /// The member `data` has items with an embedding each.
    Items,
    /// The member `embeddings` has the embeddings themselves.
    Bare,
}

/// The first embedding of an answer.
pub open spec fn first_embedding(shape: EmbeddingShape, answer: Json) -> Option<Seq<Json>> {
    match shape {
        EmbeddingShape::Items => {
            let items = json::items_of(json::member(answer, "data"@));
            if items.len() > 0 {
                json::list_of(json::member(items[0], "embedding"@))
            } else {
                None
            }
        },
        EmbeddingShape::Bare => {
            let items = json::items_of(json::member(answer, "embeddings"@));
            if items.len() > 0 {
                json::list_of(Some(items[0]))
            } else {
                None
            }
        },
    }
}

/// Tells the number of components from an answer for a single text.
pub fn count_components(shape: EmbeddingShape, service: &str, answer: &Json) -> (r: Result<
    usize,
    String,
>)
    ensures
        match (r, first_embedding(shape, *answer)) {
            (Ok(n), Some(e)) => n == e.len(),
            (Err(e), None) => e@ == "Could not detect dimensions from "@ + service@ + " response"@,
            _ => false,
        },
{
    let found: Option<usize> = match shape {
        EmbeddingShape::Items => match answer.get_items("data") {
            Some(items) => if items.len() > 0 {
                match items[0].get_items("embedding") {
                    Some(v) => Some(v.len()),
                    None => None,
                }
            } else {
                None
            },
            None => None,
        },
        EmbeddingShape::Bare => match answer.get_items("embeddings") {
            Some(items) => if items.len() > 0 {
                match items[0].as_array() {
                    Some(v) => Some(v.len()),
                    None => None,
                }
            } else {
                None
            },
            None => None,
        },
    };
    match found {
        Some(n) => Ok(n),
        None => {
            let mut e = String::new();
            e.append("Could not detect dimensions from ");
            e.append(service);
            e.append(" response");
            assert(e@ =~= "Could not detect dimensions from "@ + service@ + " response"@);
            Err(e)
        },
    }
}

// --- Embedding services ---

/// How long the answer to the text that tells the number of components may
/// take, in seconds.
pub const PROBE_TIMEOUT_SECS: u64 = 120;

/// A service that embeds texts: how it is asked, and how it answers.
#[derive(Clone, Copy, Debug)]
pub struct EmbedService {
    /// Its name in errors.
    pub name: &'static str,
    /// Its name in settings.
    pub provider_name: &'static str,
    /// The path of its requests.
    pub path: &'static str,
    pub errors: ErrorShape,
    pub shape: EmbeddingShape,
    /// How long an answer may take.
    pub timeout_secs: u64,
    /// A single text is sent as a list of one.
    pub lists_single: bool,
    /// A failure to embed the text that tells the number of components is
    /// reported with its message.
    pub checks_probe: bool,
}

/// The service of a provider. A model in this process is none.
pub fn embed_service(provider: EmbedProvider) -> (r: Option<EmbedService>)
    ensures
        match (provider, r) {
            (EmbedProvider::OpenAi, Some(s)) => {
                &&& s.name@ == "OpenAI"@
                &&& s.provider_name@ == "openai"@
                &&& s.path@ == "/v1/embeddings"@
                &&& s.errors == ErrorShape::Message
                &&& s.shape == EmbeddingShape::Items
                &&& s.timeout_secs == 120
                &&& !s.lists_single
                &&& s.checks_probe
            },
            (EmbedProvider::Voyage, Some(s)) => {
                &&& s.name@ == "Voyage"@
                &&& s.provider_name@ == "voyage"@
                &&& s.path@ == "/v1/embeddings"@
                &&& s.errors == ErrorShape::Detail
                &&& s.shape == EmbeddingShape::Items
                &&& s.timeout_secs == 120
                &&& s.lists_single
                &&& s.checks_probe
            },
            (EmbedProvider::Ollama, Some(s)) => {
                &&& s.name@ == "Ollama"@
                &&& s.provider_name@ == "ollama"@
                &&& s.path@ == "/api/embed"@
                &&& s.errors == ErrorShape::Error
                &&& s.shape == EmbeddingShape::Bare
                &&& s.timeout_secs == 300
                &&& !s.lists_single
                &&& !s.checks_probe
            },
            (EmbedProvider::Local, None) => true,
            _ => false,
        },
{
    match provider {
        EmbedProvider::OpenAi => Some(
            EmbedService {
                name: "OpenAI",
                provider_name: "openai",
                path: "/v1/embeddings",
                errors: ErrorShape::Message,
                shape: EmbeddingShape::Items,
                timeout_secs: 120,
                lists_single: false,
                checks_probe: true,
            },
        ),
        EmbedProvider::Voyage => Some(
            EmbedService {
                name: "Voyage",
                provider_name: "voyage",
                path: "/v1/embeddings",
                errors: ErrorShape::Detail,
                shape: EmbeddingShape::Items,
                timeout_secs: 120,
                lists_single: true,
                checks_probe: true,
            },
        ),
        EmbedProvider::Ollama => Some(
            EmbedService {
                name: "Ollama",
                provider_name: "ollama",
                path: "/api/embed",
                errors: ErrorShape::Error,
                shape: EmbeddingShape::Bare,
                timeout_secs: 300,
                lists_single: false,
                checks_probe: false,
            },
        ),
        EmbedProvider::Local => None,
    }
}

/// Checks an answer to a request that is described by what it does.
fn check_service_answer(
    service: &EmbedService,
    deed: &str,
    status: u16,
    answer: &Json,
) -> (r: Option<String>)
    ensures
        match r {
            None => bookstack::is_success(status),
            Some(e) => !bookstack::is_success(status) && e@ == service_error(
                service.name@ + deed@,
                status,
                service.errors,
                *answer,
            ),
        },
{
    let mut what = String::new();
    what.append(service.name);
    what.append(deed);
    assert(what@ =~= service.name@ + deed@);
    check_answer(what.as_str(), status, service.errors, answer)
}

/// Reads the answer to a single text: how many components its embedding has.
pub fn read_probe(service: &EmbedService, status: u16, answer: &Json) -> (r: Result<usize, String>)
    ensures
        if service.checks_probe && !bookstack::is_success(status) {
            r matches Err(e) && e@ == service_error(
                service.name@ + " dim detection"@,
                status,
                service.errors,
                *answer,
            )
        } else {
            match (r, first_embedding(service.shape, *answer)) {
                (Ok(n), Some(e)) => n == e.len(),
                (Err(e), None) => e@ == "Could not detect dimensions from "@ + service.name@
                    + " response"@,
                _ => false,
            }
        },
{
    if service.checks_probe {
        if let Some(e) = check_service_answer(service, " dim detection", status, answer) {
            return Err(e);
        }
    }
    count_components(service.shape, service.name, answer)
}

/// The list that holds the embeddings of an answer.
pub open spec fn embedding_list(shape: EmbeddingShape, answer: Json) -> Option<Seq<Json>> {
    match shape {
        EmbeddingShape::Items => json::list_of(json::member(answer, "data"@)),
        EmbeddingShape::Bare => json::list_of(json::member(answer, "embeddings"@)),
    }
}

/// The positions in that list of the embeddings, in the order of the texts.
pub open spec fn embedding_positions(shape: EmbeddingShape, list: Seq<Json>) -> Seq<usize> {
    match shape {
        EmbeddingShape::Items => by_number(list),
        EmbeddingShape::Bare => Seq::new(list.len(), |i: int| i as usize),
    }
}

/// Reads the answer to so many texts: the positions of their embeddings, one for
/// each text, in the order of the texts.
pub fn read_embeddings(
    service: &EmbedService,
    status: u16,
    answer: &Json,
    texts: usize,
) -> (r: Result<Vec<usize>, String>)
    ensures
        if !bookstack::is_success(status) {
            r matches Err(e) && e@ == service_error(
                service.name@ + " embed"@,
                status,
                service.errors,
                *answer,
            )
        } else {
            match embedding_list(service.shape, *answer) {
                None => r matches Err(e) && e@ == match service.shape {
                    EmbeddingShape::Items => no_data(service.name@),
                    EmbeddingShape::Bare => "No embeddings array in "@ + service.name@
                        + " response"@,
                },
                Some(list) => if service.shape == EmbeddingShape::Items && !all_embedded(list) {
                    r matches Err(e) && e@ == "No embedding array in response item"@
                } else if list.len() != texts {
                    r matches Err(e) && e@ == "embedding response does not hold one vector per text"@
                } else {
                    r matches Ok(order) && order@ == embedding_positions(service.shape, list)
                        && order@.len() == texts
                },
            }
        },
{
    if let Some(e) = check_service_answer(service, " embed", status, answer) {
        return Err(e);
    }
    match service.shape {
        EmbeddingShape::Items => match embedding_order(service.name, answer) {
            Err(e) => Err(e),
            Ok(order) => {
                if order.len() != texts {
                    return Err("embedding response does not hold one vector per text".to_owned());
                }
                Ok(order)
            },
        },
        EmbeddingShape::Bare => match answer.get_items("embeddings") {
            None => {
                let mut e = String::new();
                e.append("No embeddings array in ");
                e.append(service.name);
                e.append(" response");
                assert(e@ =~= "No embeddings array in "@ + service.name@ + " response"@);
                Err(e)
            },
            Some(list) => {
                if list.len() != texts {
                    return Err("embedding response does not hold one vector per text".to_owned());
                }
                let mut order: Vec<usize> = Vec::new();
                let mut i: usize = 0;
                while i < list.len()
                    invariant
                        i <= list@.len(),
                        order@.len() == i,
                        forall|k: int| 0 <= k < i ==> (#[trigger] order@[k]) == k,
                    decreases list@.len() - i,
                {
                    order.push(i);
                    i += 1;
                }
                assert(order@ =~= embedding_positions(service.shape, list@));
                Ok(order)
            },
        },
    }
}

// --- Rankings ---

/// The list of a ranking: the member `data`, or else `results`.
pub open spec fn ranking_items(answer: Json) -> Option<Seq<Json>> {
    match json::list_of(json::member(answer, "data"@)) {
        Some(items) => Some(items),
        None => json::list_of(json::member(answer, "results"@)),
    }
}

/// A number, of whatever kind.
pub open spec fn is_number(j: Option<Json>) -> bool {
    match j {
        Some(Json::Int(_)) => true,
        Some(Json::Big(_)) => true,
        Some(Json::Fraction) => true,
        _ => false,
    }
}

/// What is wrong with an item of a ranking, if anything: it names the document
/// by its number and has a score.
pub open spec fn item_error(item: Json) -> Option<Seq<char>> {
    if unsigned_of(json::member(item, "index"@)) is None {
        Some("rerank item missing 'index'"@)
    } else if !is_number(json::member(item, "relevance_score"@)) {
        Some("rerank item missing 'relevance_score'"@)
    } else {
        None
    }
}

/// The documents of the first `n` items, or what is wrong with the first bad one.
pub open spec fn ranked_documents(items: Seq<Json>, n: int) -> Result<Seq<u64>, Seq<char>>
    decreases n,
{
    if n <= 0 {
        Ok(Seq::empty())
    } else {
        match ranked_documents(items, n - 1) {
            Err(e) => Err(e),
            Ok(before) => match item_error(items[n - 1]) {
                Some(e) => Err(e),
                None => Ok(before.push(unsigned_of(json::member(items[n - 1], "index"@))->0)),
            },
        }
    }
}

/// Once an item is bad, the rest does not matter.
proof fn lemma_bad_item(items: Seq<Json>, i: int, n: int)
    requires
        0 <= i <= n,
        ranked_documents(items, i) is Err,
    ensures
        ranked_documents(items, n) == ranked_documents(items, i),
    decreases n - i,
{
    if i < n {
        lemma_bad_item(items, i, n - 1);
    }
}

/// Whether a value has a member that is a number.
fn has_number(j: &Json, name: &str) -> (r: bool)
    ensures
        r == is_number(json::member(*j, name@)),
{
    match j.get(name) {
        Some(Json::Int(_)) => true,
        Some(Json::Big(_)) => true,
        Some(Json::Fraction) => true,
        _ => false,
    }
}

/// The list of a ranking.
fn read_ranking_items<'a>(answer: &'a Json) -> (r: Option<&'a Vec<Json>>)
    ensures
        match r {
            Some(v) => ranking_items(*answer) == Some(v@),
            None => ranking_items(*answer) is None,
        },
{
    match answer.get_items("data") {
        Some(v) => Some(v),
        None => answer.get_items("results"),
    }
}

/// Reads the documents of a ranking, item by item.
fn read_ranked_documents(answer: &Json) -> (r: Result<Vec<u64>, String>)
    ensures
        match ranking_items(*answer) {
            None => r matches Err(e) && e@ == "rerank response missing 'data' or 'results' array"@,
            Some(items) => match (r, ranked_documents(items, items.len() as int)) {
                (Ok(v), Ok(s)) => v@ == s,
                (Err(e), Err(s)) => e@ == s,
                _ => false,
            },
        },
{
    match read_ranking_items(answer) {
        None => Err("rerank response missing 'data' or 'results' array".to_owned()),
        Some(items) => {
            let mut out: Vec<u64> = Vec::new();
            let mut i: usize = 0;
            assert(out@ =~= Seq::<u64>::empty());
            while i < items.len()
                invariant
                    i <= items@.len(),
                    ranking_items(*answer) == Some(items@),
                    ranked_documents(items@, i as int) == Ok::<Seq<u64>, Seq<char>>(out@),
                decreases items@.len() - i,
            {
                match read_unsigned(&items[i], "index") {
                    None => {
                        proof {
                            lemma_bad_item(items@, i + 1, items@.len() as int);
                        }
                        return Err("rerank item missing 'index'".to_owned());
                    },
                    Some(n) => {
                        if !has_number(&items[i], "relevance_score") {
                            proof {
                                lemma_bad_item(items@, i + 1, items@.len() as int);
                            }
                            return Err("rerank item missing 'relevance_score'".to_owned());
                        }
                        out.push(n);
                    },
                }
                i += 1;
            }
            Ok(out)
        },
    }
}

/// The first position from `i` on at which a document is found.
pub open spec fn place_of(found: Seq<u64>, document: int, i: int) -> Option<int>
    decreases found.len() - i,
{
    if i < 0 || i >= found.len() {
        None
    } else if found[i] == document {
        Some(i)
    } else {
        place_of(found, document, i + 1)
    }
}

/// Each of the documents, numbered from zero, is found once, and nothing else.
pub open spec fn each_found_once(found: Seq<u64>, documents: nat) -> bool {
    &&& found.len() == documents
    &&& forall|d: int| 0 <= d < documents ==> #[trigger] place_of(found, d, 0) is Some
}

/// Puts what was found for documents into the order of the documents: the
/// result has, for each of them, its position in `found`.
pub fn in_document_order(found: &Vec<u64>, documents: usize) -> (r: Result<Vec<usize>, String>)
    ensures
        if each_found_once(found@, documents as nat) {
            r matches Ok(v) && v@.len() == documents && forall|d: int|
                0 <= d < documents ==> place_of(found@, d, 0) == Some(#[trigger] v@[d] as int)
        } else {
            r matches Err(e) && e@ == "rerank response does not score each document once"@
        },
{
    let mut out: Vec<usize> = Vec::new();
    if found.len() != documents {
        return Err("rerank response does not score each document once".to_owned());
    }
    let mut d: usize = 0;
    while d < documents
        invariant
            d <= documents == found@.len(),
            out@.len() == d,
            forall|k: int| 0 <= k < d ==> place_of(found@, k, 0) == Some(#[trigger] out@[k] as int),
        decreases documents - d,
    {
        let mut i: usize = 0;
        while i < found.len() && found[i] != d as u64
            invariant
                i <= found@.len(),
                place_of(found@, d as int, 0) == place_of(found@, d as int, i as int),
            decreases found@.len() - i,
        {
            i += 1;
        }
        if i == found.len() {
            assert(place_of(found@, d as int, 0) is None);
            return Err("rerank response does not score each document once".to_owned());
        }
        out.push(i);
        d += 1;
    }
    assert forall|k: int| 0 <= k < documents implies #[trigger] place_of(found@, k, 0) is Some by {
        assert(place_of(found@, k, 0) == Some(out@[k] as int));
    }
    Ok(out)
}

/// What the ranking of so many documents gives: one hit for each of them, in
/// their order, as the position of its item.
pub open spec fn is_ranking_of(r: Result<Vec<usize>, String>, answer: Json, documents: nat) -> bool {
    match ranking_items(answer) {
        None => r matches Err(e) && e@ == "rerank response missing 'data' or 'results' array"@,
        Some(items) => match ranked_documents(items, items.len() as int) {
            Err(s) => r matches Err(e) && e@ == s,
            Ok(found) => if each_found_once(found, documents) {
                r matches Ok(v) && v@.len() == documents && forall|d: int|
                    0 <= d < documents ==> place_of(found, d, 0) == Some(#[trigger] v@[d] as int)
            } else {
                r matches Err(e) && e@ == "rerank response does not score each document once"@
            },
        },
    }
}

/// Reads the ranking of so many documents. The result has one hit for each of
/// them, in their order: the position of its item.
pub fn parse_ranking(answer: &Json, documents: usize) -> (r: Result<Vec<usize>, String>)
    ensures
        is_ranking_of(r, *answer, documents as nat),
{
    match read_ranked_documents(answer) {
        Err(e) => Err(e),
        Ok(found) => in_document_order(&found, documents),
    }
}

/// A ranking leaves no item out and uses none twice: where every document is
/// found once, each item stands in the place of exactly one document.
pub proof fn law_ranking_uses_each_item_once(found: Seq<u64>, documents: nat, i: int)
    requires
        each_found_once(found, documents),
        0 <= i < found.len(),
    ensures
        exists|d: int| 0 <= d < documents && place_of(found, d, 0) == Some(i),
        forall|d: int, e: int|
            0 <= d < documents && 0 <= e < documents && #[trigger] place_of(found, d, 0) == Some(i)
                && #[trigger] place_of(found, e, 0) == Some(i) ==> d == e,
{
    assert forall|d: int| 0 <= d < documents implies (#[trigger] place_of(found, d, 0) matches Some(
        p,
    ) && 0 <= p < found.len() && found[p] == d) by {
        lemma_place(found, d, 0);
    }
    let places = Seq::new(documents, |d: int| place_of(found, d, 0)->0);
    assert forall|a: int, b: int|
        0 <= a < places.len() && 0 <= b < places.len() && a != b implies places[a] != places[b] by {
        assert(place_of(found, a, 0) == Some(places[a]));
        assert(place_of(found, b, 0) == Some(places[b]));
    }
    places.unique_seq_to_set();
    vstd::set_lib::lemma_int_range(0, documents as int);
    let range = vstd::set_lib::set_int_range(0, documents as int);
    assert(places.to_set().subset_of(range)) by {
        assert forall|p: int| places.to_set().contains(p) implies range.contains(p) by {
            let d = choose|d: int| 0 <= d < places.len() && places[d] == p;
            assert(place_of(found, d, 0) == Some(places[d]));
        }
    }
    vstd::set_lib::lemma_subset_equality(places.to_set(), range);
    assert(places.to_set().contains(i));
    let d = choose|d: int| 0 <= d < places.len() && places[d] == i;
    assert(place_of(found, d, 0) == Some(i));
}

proof fn lemma_place(found: Seq<u64>, document: int, i: int)
    requires
        0 <= i,
    ensures
        place_of(found, document, i) matches Some(p) ==> i <= p < found.len() && found[p]
            == document,
    decreases found.len() - i,
{
    if i < found.len() && found[i] != document {
        lemma_place(found, document, i + 1);
    }
}

/// A service that ranks documents.
#[derive(Clone, Copy, Debug)]
pub struct RerankService {
    /// Its name in errors.
    pub name: &'static str,
    /// Its name in settings.
    pub provider_name: &'static str,
    pub errors: ErrorShape,
}

/// The service of a provider. A model in this process is none.
pub fn rerank_service(provider: RerankProvider) -> (r: Option<RerankService>)
    ensures
        match (provider, r) {
            (RerankProvider::Voyage, Some(s)) => s.name@ == "Voyage"@ && s.provider_name@
                == "voyage"@ && s.errors == ErrorShape::DetailOrMessage,
            (RerankProvider::OpenAi, Some(s)) => s.name@ == "OpenAI"@ && s.provider_name@
                == "openai"@ && s.errors == ErrorShape::MessageOrDetail,
            (RerankProvider::Local, None) => true,
            _ => false,
        },
{
    match provider {
        RerankProvider::Voyage => Some(
            RerankService {
                name: "Voyage",
                provider_name: "voyage",
                errors: ErrorShape::DetailOrMessage,
            },
        ),
        RerankProvider::OpenAi => Some(
            RerankService {
                name: "OpenAI",
                provider_name: "openai",
                errors: ErrorShape::MessageOrDetail,
            },
        ),
        RerankProvider::Local => None,
    }
}

/// Reads the answer of a service that was asked to rank so many documents: one
/// hit for each of them, in their order, as the position of its item.
pub fn read_ranking(
    service: &RerankService,
    status: u16,
    answer: &Json,
    documents: usize,
) -> (r: Result<Vec<usize>, String>)
    ensures
        if !bookstack::is_success(status) {
            r matches Err(e) && e@ == service_error(
                service.name@ + " rerank"@,
                status,
                service.errors,
                *answer,
            )
        } else {
            is_ranking_of(r, *answer, documents as nat)
        },
{
    let mut what = String::new();
    what.append(service.name);
    what.append(" rerank");
    assert(what@ =~= service.name@ + " rerank"@);
    match check_answer(what.as_str(), status, service.errors, answer) {
        Some(e) => Err(e),
        None => parse_ranking(answer, documents),
    }
}

/// Candidates for a ranking: each with its position and the key of its score.
pub open spec fn scored(keys: Seq<i64>) -> Seq<RankedHit> {
    Seq::new(
        keys.len(),
        |i: int| RankedHit { chunk_id: i as i64, page_id: 0, key: keys[i] },
    )
}

/// The hits of a ranking: with `top_k`, at most that many of them, from the best
/// to the worst; without it all of them, as they came. Each score is given by a
/// key, greater for a better score; the result has the positions of the hits,
/// and equal ones stay in their order.
pub fn rank_hits(keys: &Vec<i64>, top_k: Option<usize>) -> (r: Vec<i64>)
    requires
        keys@.len() <= i64::MAX,
    ensures
        match top_k {
            None => r@ == Seq::new(keys@.len(), |i: int| i as i64),
            Some(k) => {
                let all = vector::ranked(scored(keys@), i64::MIN);
                let kept = if all.len() > k {
                    all.take(k as int)
                } else {
                    all
                };
                r@ == Seq::new(kept.len(), |i: int| kept[i].chunk_id)
            },
        },
{
    let total: usize = keys.len();
    let mut hits: Vec<RankedHit> = Vec::new();
    let mut places: Vec<i64> = Vec::new();
    let mut i: usize = 0;
    while i < total
        invariant
            i <= total,
            total == keys@.len(),
            total <= i64::MAX,
            hits@ == scored(keys@.take(i as int)),
            places@ == Seq::new(i as nat, |j: int| j as i64),
        decreases total - i,
    {
        hits.push(RankedHit { chunk_id: i as i64, page_id: 0, key: keys[i] });
        places.push(i as i64);
        assert(hits@ =~= scored(keys@.take(i + 1)));
        assert(places@ =~= Seq::new((i + 1) as nat, |j: int| j as i64));
        i += 1;
    }
    assert(keys@.take(i as int) =~= keys@);
    let limit: usize = match top_k {
        Some(k) => k,
        None => {
            return places;
        },
    };
    let ranked = search_embeddings(hits.as_slice(), limit, i64::MIN);
    let mut out: Vec<i64> = Vec::new();
    let mut j: usize = 0;
    while j < ranked.len()
        invariant
            j <= ranked@.len(),
            out@ == Seq::new(j as nat, |i: int| ranked@[i].chunk_id),
        decreases ranked@.len() - j,
    {
        out.push(ranked[j].chunk_id);
        assert(out@ =~= Seq::new((j + 1) as nat, |i: int| ranked@[i].chunk_id));
        j += 1;
    }
    out
}

} // verus!
