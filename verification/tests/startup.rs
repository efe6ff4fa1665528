use bsmcp::startup::{
    check_embed_request, check_rerank_request, detected_dims, is_long_enough_key, is_set,
    parse_role, plan_embedder, plan_reranker, plan_startup, read_port, resolve_role,
    stored_worker_id, EmbedProvider, EmbedWorkerSettings, EmbedderError, EmbedderSettings,
    RerankProvider, RerankSetting, RerankerPlan, RerankerSettings, Role, RoleError,
};

fn args(list: &[&str]) -> Vec<String> {
    list.iter().map(|s| s.to_string()).collect()
}

fn no_embedder<'a>() -> EmbedderSettings<'a> {
    EmbedderSettings {
        provider: None,
        api_key: None,
        model: None,
        api_url: None,
        dims: None,
        model_path: None,
    }
}

fn no_reranker<'a>() -> RerankerSettings<'a> {
    RerankerSettings { provider: None, api_key: None, model: None, api_url: None, model_path: None }
}

#[test]
fn role_as_str_round_trip() {
    assert_eq!(Role::Embedder.as_str(), "embedder");
    assert_eq!(Role::Worker.as_str(), "worker");
    assert_eq!(Role::Both.as_str(), "both");
}

#[test]
fn roles_are_named_in_any_case() {
    assert_eq!(parse_role(" Worker\n"), Some(Role::Worker));
    assert_eq!(parse_role("wor\u{212a}er"), Some(Role::Worker));
    assert_eq!(parse_role("BOTH"), Some(Role::Both));
    assert_eq!(parse_role("boss"), None);
    for role in [Role::Embedder, Role::Worker, Role::Both] {
        assert_eq!(parse_role(role.as_str()), Some(role));
    }
}

#[test]
fn the_argument_decides_the_role() {
    assert!(matches!(resolve_role(&args(&["-v", "--role=worker"]), Some("both")), Ok(Role::Worker)));
    assert!(matches!(resolve_role(&args(&["--role", "both"]), None), Ok(Role::Both)));
    assert!(matches!(resolve_role(&args(&[]), Some("worker")), Ok(Role::Worker)));
    assert!(matches!(resolve_role(&args(&[]), Some("  ")), Ok(Role::Embedder)));
    assert!(matches!(resolve_role(&args(&[]), None), Ok(Role::Embedder)));
    assert!(matches!(
        resolve_role(&args(&["--role=boss"]), None),
        Err(RoleError::BadFlag(s)) if s == "boss"
    ));
    assert!(matches!(resolve_role(&args(&["--role"]), None), Err(RoleError::MissingValue)));
    assert!(matches!(
        resolve_role(&args(&[]), Some("boss")),
        Err(RoleError::BadSetting(s)) if s == "boss"
    ));
}

#[test]
fn settings_are_read() {
    assert!(is_set(Some("x")) && !is_set(Some(" ")) && !is_set(None));
    assert!(is_long_enough_key("0123456789abcdef0123456789abcdef"));
    assert!(!is_long_enough_key("0123456789abcdef0123456789abcde"));
    assert_eq!(stored_worker_id(" id\n").as_deref(), Some("id"));
    assert_eq!(stored_worker_id(" \n"), None);
    assert_eq!(read_port(None), Some(8081));
    assert_eq!(read_port(Some("80")), Some(80));
    assert_eq!(read_port(Some("70000")), None);
    let s = EmbedWorkerSettings::read(
        Some("x"),
        Some("7"),
        None,
        Some("nope"),
        Some("99"),
        Some("3"),
        None,
    );
    assert_eq!((s.poll_interval, s.delay_ms, s.batch_size), (5, 7, 32));
    assert_eq!((s.job_timeout, s.failure_threshold, s.consecutive_abort), (99, 3, 10));
}

#[test]
fn embedders_are_planned() {
    let local = plan_embedder(&no_embedder()).unwrap();
    assert_eq!(local.provider, EmbedProvider::Local);
    assert_eq!(local.model, "BAAI/bge-base-en-v1.5");
    assert_eq!(local.location, "/data/models");
    let open = plan_embedder(&EmbedderSettings {
        provider: Some("OpenAI"),
        api_key: Some("k"),
        api_url: Some(""),
        dims: Some("12"),
        ..no_embedder()
    })
    .unwrap();
    assert_eq!((open.provider, open.dims), (EmbedProvider::OpenAi, Some(12)));
    assert_eq!(open.location, "https://api.openai.com");
    assert_eq!((open.api_key.as_str(), open.model.as_str()), ("k", "text-embedding-3-small"));
    let ollama = plan_embedder(&EmbedderSettings {
        provider: Some("ollama"),
        api_url: Some(""),
        dims: Some(""),
        ..no_embedder()
    })
    .unwrap();
    assert_eq!((ollama.location.as_str(), ollama.dims), ("", None));
    assert_eq!(ollama.model, "nomic-embed-text");
    let voyage = EmbedderSettings { provider: Some("voyage"), ..no_embedder() };
    assert_eq!(plan_embedder(&voyage).unwrap_err(), EmbedderError::MissingApiKey);
    let bad = EmbedderSettings {
        provider: Some("voyage"),
        api_key: Some("k"),
        dims: Some("many"),
        ..no_embedder()
    };
    assert_eq!(plan_embedder(&bad).unwrap_err(), EmbedderError::BadDims);
    assert_eq!(detected_dims(EmbedProvider::Ollama, None), Some(768));
    assert_eq!(detected_dims(EmbedProvider::OpenAi, None), None);
    assert_eq!(detected_dims(EmbedProvider::OpenAi, Some(5)), Some(5));
}

#[test]
fn rerankers_are_planned() {
    assert!(matches!(plan_reranker(&no_reranker()), RerankerPlan::Disabled));
    let none = RerankerSettings { provider: Some("None"), ..no_reranker() };
    assert!(matches!(plan_reranker(&none), RerankerPlan::Disabled));
    let other = RerankerSettings { provider: Some("other"), ..no_reranker() };
    assert!(matches!(plan_reranker(&other), RerankerPlan::Unknown));
    let local = RerankerSettings { provider: Some("local"), ..no_reranker() };
    match plan_reranker(&local) {
        RerankerPlan::Use(c) => {
            assert_eq!(c.provider, RerankProvider::Local);
            assert_eq!(c.model, "BAAI/bge-reranker-v2-m3");
        }
        _ => panic!("is used"),
    }
    let voyage = RerankerSettings { provider: Some("voyage"), api_key: Some(""), ..no_reranker() };
    assert!(matches!(
        plan_reranker(&voyage),
        RerankerPlan::Missing(RerankProvider::Voyage, RerankSetting::ApiKey)
    ));
    let voyage = RerankerSettings { provider: Some("voyage"), api_key: Some("k"), ..no_reranker() };
    match plan_reranker(&voyage) {
        RerankerPlan::Use(c) => {
            assert_eq!((c.model.as_str(), c.location.as_str()), ("rerank-2", "https://api.voyageai.com"))
        }
        _ => panic!("is used"),
    }
    let open = RerankerSettings { provider: Some("openai"), api_key: Some("k"), ..no_reranker() };
    assert!(matches!(
        plan_reranker(&open),
        RerankerPlan::Missing(RerankProvider::OpenAi, RerankSetting::Model)
    ));
    let open = RerankerSettings { model: Some("m"), ..open };
    assert!(matches!(
        plan_reranker(&open),
        RerankerPlan::Missing(RerankProvider::OpenAi, RerankSetting::ApiUrl)
    ));
    let open = RerankerSettings { api_url: Some("u"), ..open };
    assert!(matches!(plan_reranker(&open), RerankerPlan::Use(_)));
}

#[test]
fn embeddings_are_made_anew_once() {
    let first = plan_startup(None, None, None, "m", 768, "");
    assert!(first.reindex && first.store_version && !first.queue_all);
    let second = plan_startup(Some("5"), Some("m"), Some("768"), "m", 768, "");
    assert!(!second.reindex && !second.store_version && !second.clear && !second.queue_all);
    assert!(plan_startup(Some("5"), Some("m"), Some("384"), "m", 768, "").reindex);
    assert!(!plan_startup(Some("5"), Some("m"), None, "m", 768, "").reindex);
    let clean = plan_startup(Some("5"), Some("m"), None, "m", 768, "clean");
    assert!(clean.clear && clean.queue_all);
    let plain = plan_startup(Some("5"), Some("m"), None, "m", 768, "true");
    assert!(!plain.clear && plain.queue_all);
}

#[test]
fn requests_are_checked() {
    assert!(check_embed_request(1).is_none() && check_embed_request(100).is_none());
    assert_eq!(check_embed_request(0).unwrap().message, "texts array must not be empty");
    assert_eq!(check_embed_request(101).unwrap().status, 400);
    assert!(check_rerank_request(true, "q", 200).is_none());
    assert_eq!(check_rerank_request(false, "q", 1).unwrap().status, 503);
    assert_eq!(check_rerank_request(true, "", 1).unwrap().message, "query must not be empty");
    assert_eq!(
        check_rerank_request(true, "q", 0).unwrap().message,
        "documents array must not be empty"
    );
    assert_eq!(
        check_rerank_request(true, "q", 201).unwrap().message,
        "maximum 200 documents per rerank request"
    );
}
