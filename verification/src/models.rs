//! The models that run in process, by the names that settings give them.

use crate::text::same_text;
use vstd::prelude::*;
use vstd::string::StringExecFns;

verus! {

/// An embedding model that the model runtime has built in.
#[derive(Clone, Copy, Debug, PartialEq, Eq, Structural)]
pub enum BuiltinModel {
    BgeLargeEnV15,
    BgeBaseEnV15,
    BgeSmallEnV15,
}

/// The repository of a model that the runtime does not have built in.
#[derive(Clone, Copy, Debug, PartialEq, Eq, Structural)]
pub enum ModelRepo {
    BgeLarge,
    BgeBase,
    BgeSmall,
    EmbeddingGemma,
}

impl ModelRepo {
    /// The repository's name.
    pub open spec fn id(self) -> Seq<char> {
        match self {
            ModelRepo::BgeLarge => "BAAI/bge-large-en-v1.5"@,
            ModelRepo::BgeBase => "BAAI/bge-base-en-v1.5"@,
            ModelRepo::BgeSmall => "BAAI/bge-small-en-v1.5"@,
            ModelRepo::EmbeddingGemma => "onnx-community/embeddinggemma-300m-ONNX"@,
        }
    }

    /// The repository's name.
    pub fn as_str(self) -> (r: &'static str)
        ensures
            r@ == self.id(),
    {
        match self {
            ModelRepo::BgeLarge => "BAAI/bge-large-en-v1.5",
            ModelRepo::BgeBase => "BAAI/bge-base-en-v1.5",
            ModelRepo::BgeSmall => "BAAI/bge-small-en-v1.5",
            ModelRepo::EmbeddingGemma => "onnx-community/embeddinggemma-300m-ONNX",
        }
    }
}

/// How an embedding model is loaded.
#[derive(Clone, Copy, Debug, PartialEq, Eq, Structural)]
pub struct ModelConfig {
    /// The built-in model; `None` for one that is fetched from its repository.
    pub builtin: Option<BuiltinModel>,
    pub hf_repo: ModelRepo,
    /// The number of components of an embedding.
    pub dims: usize,
}

/// The model that a name stands for. The fetched model has short names too.
pub open spec fn model_named(name: Seq<char>) -> Option<ModelConfig> {
    if name == "BAAI/bge-large-en-v1.5"@ {
        Some(
            ModelConfig {
                builtin: Some(BuiltinModel::BgeLargeEnV15),
                hf_repo: ModelRepo::BgeLarge,
                dims: 1024,
            },
        )
    } else if name == "BAAI/bge-base-en-v1.5"@ {
        Some(
            ModelConfig {
                builtin: Some(BuiltinModel::BgeBaseEnV15),
                hf_repo: ModelRepo::BgeBase,
                dims: 768,
            },
        )
    } else if name == "BAAI/bge-small-en-v1.5"@ {
        Some(
            ModelConfig {
                builtin: Some(BuiltinModel::BgeSmallEnV15),
                hf_repo: ModelRepo::BgeSmall,
                dims: 384,
            },
        )
    } else if name == "onnx-community/embeddinggemma-300m-ONNX"@ || name
        == "google/embeddinggemma-300m"@ || name == "embeddinggemma-300m"@ {
        Some(ModelConfig { builtin: None, hf_repo: ModelRepo::EmbeddingGemma, dims: 768 })
    } else {
        None
    }
}

/// Looks a model up by its name.
pub fn resolve_model(name: &str) -> (r: Option<ModelConfig>)
    ensures
        r == model_named(name@),
{
    if same_text(name, "BAAI/bge-large-en-v1.5") {
        Some(
            ModelConfig {
                builtin: Some(BuiltinModel::BgeLargeEnV15),
                hf_repo: ModelRepo::BgeLarge,
                dims: 1024,
            },
        )
    } else if same_text(name, "BAAI/bge-base-en-v1.5") {
        Some(
            ModelConfig {
                builtin: Some(BuiltinModel::BgeBaseEnV15),
                hf_repo: ModelRepo::BgeBase,
                dims: 768,
            },
        )
    } else if same_text(name, "BAAI/bge-small-en-v1.5") {
        Some(
            ModelConfig {
                builtin: Some(BuiltinModel::BgeSmallEnV15),
                hf_repo: ModelRepo::BgeSmall,
                dims: 384,
            },
        )
    } else if same_text(name, "onnx-community/embeddinggemma-300m-ONNX") || same_text(
        name,
        "google/embeddinggemma-300m",
    ) || same_text(name, "embeddinggemma-300m") {
        Some(ModelConfig { builtin: None, hf_repo: ModelRepo::EmbeddingGemma, dims: 768 })
    } else {
        None
    }
}

/// The error for a model that is not known.
pub fn unknown_model(name: &str) -> (r: String)
    ensures
        r@ == "Unknown model: "@ + name@
            + ". Supported: BAAI/bge-large-en-v1.5, BAAI/bge-base-en-v1.5, BAAI/bge-small-en-v1.5, embeddinggemma-300m"@,
{
    let mut e = String::new();
    e.append("Unknown model: ");
    e.append(name);
    e.append(
        ". Supported: BAAI/bge-large-en-v1.5, BAAI/bge-base-en-v1.5, BAAI/bge-small-en-v1.5, embeddinggemma-300m",
    );
    assert(e@ =~= "Unknown model: "@ + name@
        + ". Supported: BAAI/bge-large-en-v1.5, BAAI/bge-base-en-v1.5, BAAI/bge-small-en-v1.5, embeddinggemma-300m"@);
    e
}

/// A reranking model that the model runtime has built in.
#[derive(Clone, Copy, Debug, PartialEq, Eq, Structural)]
pub enum RerankerKind {
    BgeRerankerBase,
    BgeRerankerV2M3,
    JinaRerankerV1TurboEn,
    JinaRerankerV2BaseMultilingual,
}

/// The reranking model that a name stands for: its full name or its name
/// without the owner.
pub open spec fn reranker_named(name: Seq<char>) -> Option<RerankerKind> {
    if name == "BAAI/bge-reranker-base"@ || name == "bge-reranker-base"@ {
        Some(RerankerKind::BgeRerankerBase)
    } else if name == "BAAI/bge-reranker-v2-m3"@ || name == "rozgo/bge-reranker-v2-m3"@ || name
        == "bge-reranker-v2-m3"@ {
        Some(RerankerKind::BgeRerankerV2M3)
    } else if name == "jinaai/jina-reranker-v1-turbo-en"@ || name == "jina-reranker-v1-turbo-en"@ {
        Some(RerankerKind::JinaRerankerV1TurboEn)
    } else if name == "jinaai/jina-reranker-v2-base-multilingual"@ || name
        == "jina-reranker-v2-base-multilingual"@ {
        Some(RerankerKind::JinaRerankerV2BaseMultilingual)
    } else {
        None
    }
}

/// Looks a reranking model up by its name.
pub fn resolve_reranker(name: &str) -> (r: Option<RerankerKind>)
    ensures
        r == reranker_named(name@),
{
    if same_text(name, "BAAI/bge-reranker-base") || same_text(name, "bge-reranker-base") {
        Some(RerankerKind::BgeRerankerBase)
    } else if same_text(name, "BAAI/bge-reranker-v2-m3") || same_text(
        name,
        "rozgo/bge-reranker-v2-m3",
    ) || same_text(name, "bge-reranker-v2-m3") {
        Some(RerankerKind::BgeRerankerV2M3)
    } else if same_text(name, "jinaai/jina-reranker-v1-turbo-en") || same_text(
        name,
        "jina-reranker-v1-turbo-en",
    ) {
        Some(RerankerKind::JinaRerankerV1TurboEn)
    } else if same_text(name, "jinaai/jina-reranker-v2-base-multilingual") || same_text(
        name,
        "jina-reranker-v2-base-multilingual",
    ) {
        Some(RerankerKind::JinaRerankerV2BaseMultilingual)
    } else {
        None
    }
}

/// The error for a reranking model that is not known.
pub fn unknown_reranker(name: &str) -> (r: String)
    ensures
        r@ == "Unknown reranker model: "@ + name@
            + ". Supported: BAAI/bge-reranker-base, BAAI/bge-reranker-v2-m3, jinaai/jina-reranker-v1-turbo-en, jinaai/jina-reranker-v2-base-multilingual"@,
{
    let mut e = String::new();
    e.append("Unknown reranker model: ");
    e.append(name);
    e.append(
        ". Supported: BAAI/bge-reranker-base, BAAI/bge-reranker-v2-m3, jinaai/jina-reranker-v1-turbo-en, jinaai/jina-reranker-v2-base-multilingual",
    );
    assert(e@ =~= "Unknown reranker model: "@ + name@
        + ". Supported: BAAI/bge-reranker-base, BAAI/bge-reranker-v2-m3, jinaai/jina-reranker-v1-turbo-en, jinaai/jina-reranker-v2-base-multilingual"@);
    e
}

/// Every model can be named by the repository that it comes from.
pub proof fn law_repository_names_its_model(name: Seq<char>)
    requires
        model_named(name) is Some,
    ensures
        model_named(model_named(name)->0.hf_repo.id()) == model_named(name),
{
    reveal_strlit("BAAI/bge-large-en-v1.5");
    reveal_strlit("BAAI/bge-base-en-v1.5");
    reveal_strlit("BAAI/bge-small-en-v1.5");
    reveal_strlit("onnx-community/embeddinggemma-300m-ONNX");
    assert("BAAI/bge-large-en-v1.5"@.len() == 22);
    assert("BAAI/bge-base-en-v1.5"@.len() == 21);
    assert("BAAI/bge-small-en-v1.5"@.len() == 22);
    assert("onnx-community/embeddinggemma-300m-ONNX"@.len() == 39);
    assert("BAAI/bge-large-en-v1.5"@[9] == 'l');
    assert("BAAI/bge-small-en-v1.5"@[9] == 's');
}

} // verus!
