use bsmcp::json::Json;
use bsmcp::providers::{
    check_answer, count_components, embed_service, embedding_order, parse_ranking, rank_hits,
    read_embeddings, read_probe, read_ranking, rerank_service, EmbeddingShape, ErrorShape,
    PROBE_TIMEOUT_SECS,
};
use bsmcp::startup::{EmbedProvider, RerankProvider};

fn answer(members: Vec<(&str, Json)>) -> Json {
    Json::Object(members.into_iter().map(|(k, v)| (k.to_string(), v)).collect())
}

fn item(index: Json) -> Json {
    answer(vec![("index", index), ("embedding", Json::List(vec![Json::Fraction, Json::Int(1)]))])
}

#[test]
fn errors_are_found_where_services_put_them() {
    let message = Json::Text("no key".to_string());
    let nested = answer(vec![("error", answer(vec![("message", message)]))]);
    assert_eq!(check_answer("OpenAI embed", 200, ErrorShape::Message, &nested), None);
    assert_eq!(
        check_answer("OpenAI embed", 401, ErrorShape::Message, &nested).unwrap(),
        "OpenAI embed error 401 Unauthorized: no key"
    );
    assert_eq!(
        check_answer("Voyage embed", 500, ErrorShape::Detail, &nested).unwrap(),
        "Voyage embed error 500 Internal Server Error: unknown error"
    );
    assert!(check_answer("Voyage rerank", 500, ErrorShape::DetailOrMessage, &nested)
        .unwrap()
        .ends_with(": no key"));
    let plain = answer(vec![
        ("error", Json::Text("gone".to_string())),
        ("detail", Json::Text("why".to_string())),
    ]);
    assert!(check_answer("Ollama embed", 500, ErrorShape::Error, &plain).unwrap().ends_with(": gone"));
    assert!(check_answer("OpenAI rerank", 500, ErrorShape::MessageOrDetail, &plain)
        .unwrap()
        .ends_with(": why"));
}

#[test]
fn embeddings_come_in_the_order_of_their_texts() {
    let list = Json::List(vec![
        item(Json::Int(2)),
        item(Json::Int(0)),
        item(Json::Null),
        item(Json::Big(u64::MAX)),
        item(Json::Int(1)),
    ]);
    let data = answer(vec![("data", list)]);
    assert_eq!(embedding_order("OpenAI", &data), Ok(vec![1, 2, 4, 0, 3]));
    assert_eq!(
        embedding_order("OpenAI", &answer(vec![])),
        Err("No data array in OpenAI response".to_string())
    );
    let bad = answer(vec![("data", Json::List(vec![answer(vec![])]))]);
    assert_eq!(
        embedding_order("Voyage", &bad),
        Err("No embedding array in response item".to_string())
    );
}

#[test]
fn components_are_counted() {
    let items = answer(vec![("data", Json::List(vec![item(Json::Int(0))]))]);
    assert_eq!(count_components(EmbeddingShape::Items, "OpenAI", &items), Ok(2));
    let bare = answer(vec![(
        "embeddings",
        Json::List(vec![Json::List(vec![Json::Int(1), Json::Int(2), Json::Int(3)])]),
    )]);
    assert_eq!(count_components(EmbeddingShape::Bare, "Ollama", &bare), Ok(3));
    assert_eq!(
        count_components(EmbeddingShape::Bare, "Ollama", &items),
        Err("Could not detect dimensions from Ollama response".to_string())
    );
}

#[test]
fn rankings_are_parsed() {
    let hit = |index: Json| answer(vec![("index", index), ("relevance_score", Json::Fraction)]);
    let data = answer(vec![("data", Json::List(vec![hit(Json::Int(2)), hit(Json::Int(0))]))]);
    let uneven = "rerank response does not score each document once".to_string();
    assert_eq!(parse_ranking(&data, 2), Err(uneven.clone()));
    assert_eq!(parse_ranking(&data, 3), Err(uneven.clone()));
    let data = answer(vec![(
        "data",
        Json::List(vec![hit(Json::Int(2)), hit(Json::Int(0)), hit(Json::Int(1))]),
    )]);
    assert_eq!(parse_ranking(&data, 3), Ok(vec![1, 2, 0]));
    let twice = answer(vec![("data", Json::List(vec![hit(Json::Int(0)), hit(Json::Int(0))]))]);
    assert_eq!(parse_ranking(&twice, 2), Err(uneven));
    let results = answer(vec![("results", Json::List(vec![hit(Json::Int(0))]))]);
    assert_eq!(parse_ranking(&results, 1), Ok(vec![0]));
    assert_eq!(
        parse_ranking(&answer(vec![]), 1),
        Err("rerank response missing 'data' or 'results' array".to_string())
    );
    let no_index = answer(vec![("data", Json::List(vec![hit(Json::Int(-1))]))]);
    assert_eq!(parse_ranking(&no_index, 1), Err("rerank item missing 'index'".to_string()));
    let no_score =
        answer(vec![("data", Json::List(vec![answer(vec![("index", Json::Int(0))])]))]);
    assert_eq!(
        parse_ranking(&no_score, 1),
        Err("rerank item missing 'relevance_score'".to_string())
    );
}

#[test]
fn hits_are_ranked() {
    assert_eq!(rank_hits(&vec![5, 9, 5, 7], None), vec![0, 1, 2, 3]);
    assert_eq!(rank_hits(&vec![5, 9, 5, 7], Some(4)), vec![1, 3, 0, 2]);
    assert_eq!(rank_hits(&vec![5, 9, 5, 7], Some(2)), vec![1, 3]);
    assert_eq!(rank_hits(&vec![i64::MIN], Some(9)), vec![0]);
}

#[test]
fn services_are_told_apart() {
    let openai = embed_service(EmbedProvider::OpenAi).unwrap();
    let ollama = embed_service(EmbedProvider::Ollama).unwrap();
    assert!(embed_service(EmbedProvider::Local).is_none());
    assert_eq!((openai.path, ollama.path), ("/v1/embeddings", "/api/embed"));
    assert_eq!((openai.timeout_secs, ollama.timeout_secs), (120, 300));
    assert_eq!(PROBE_TIMEOUT_SECS, 120);

    let data = answer(vec![(
        "data",
        Json::List(vec![item(Json::Int(1)), item(Json::Int(0))]),
    )]);
    assert_eq!(read_embeddings(&openai, 200, &data, 2).unwrap(), vec![1, 0]);
    assert_eq!(
        read_embeddings(&openai, 500, &data, 2).err().unwrap(),
        "OpenAI embed error 500 Internal Server Error: unknown error"
    );
    assert_eq!(
        read_embeddings(&openai, 200, &answer(vec![]), 2).err().unwrap(),
        "No data array in OpenAI response"
    );
    let bare = answer(vec![(
        "embeddings",
        Json::List(vec![Json::List(vec![Json::Int(1), Json::Int(2)]), Json::Null]),
    )]);
    assert_eq!(read_embeddings(&ollama, 200, &bare, 2).unwrap(), vec![0, 1]);
    assert_eq!(
        read_embeddings(&ollama, 200, &data, 2).err().unwrap(),
        "No embeddings array in Ollama response"
    );
    for (service, full) in [(&openai, &data), (&ollama, &bare)] {
        assert_eq!(
            read_embeddings(service, 200, full, 3).err().unwrap(),
            "embedding response does not hold one vector per text"
        );
    }
    assert_eq!(read_probe(&ollama, 500, &bare).unwrap(), 2);
    assert_eq!(read_probe(&openai, 200, &data).unwrap(), 2);
    assert_eq!(
        read_probe(&openai, 404, &data).err().unwrap(),
        "OpenAI dim detection error 404 Not Found: unknown error"
    );

    let voyage = rerank_service(RerankProvider::Voyage).unwrap();
    assert!(rerank_service(RerankProvider::Local).is_none());
    let detail = answer(vec![("detail", Json::Text("slow down".to_string()))]);
    assert_eq!(
        read_ranking(&voyage, 429, &detail, 1).err().unwrap(),
        "Voyage rerank error 429 Too Many Requests: slow down"
    );
    let hits = answer(vec![(
        "results",
        Json::List(vec![answer(vec![
            ("index", Json::Int(0)),
            ("relevance_score", Json::Fraction),
        ])]),
    )]);
    assert_eq!(read_ranking(&voyage, 200, &hits, 1).unwrap(), vec![0]);
}
