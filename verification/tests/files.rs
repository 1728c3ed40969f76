use g_map_se::embeddings::{
    embedding_for_file, finish_extraction, json_vec, load_embeddings, lookup_embedding,
    EmbeddingDocument, EmbeddingError, EmbeddingSource, Embeddings, ExtractionFailure, JsonItem,
};
use g_map_se::paths::{
    is_absolute, join_path, path_candidates, resolve_path, select_model_path, PathProbes,
};

fn probes(a: bool, b: bool, c: bool) -> PathProbes {
    PathProbes { path_exists: a, manifest_relative_exists: b, repo_relative_exists: c }
}

#[test]
fn joins_like_pathbuf() {
    for (base, p) in [("/a/b", "c"), ("/a/b/", "c"), ("", "c"), ("/a", "/x/y"), ("a", "../c")] {
        let expected = std::path::Path::new(base).join(p).to_string_lossy().into_owned();
        assert_eq!(join_path(base, p), expected);
    }
    assert!(is_absolute("/x"));
    assert!(!is_absolute("x/"));
}

#[test]
fn resolves_in_order() {
    let root = Some("/repo");
    assert_eq!(resolve_path("/abs/m.json", "/repo/tool", root, probes(false, true, true)), "/abs/m.json");
    assert_eq!(resolve_path("m.json", "/repo/tool", root, probes(true, true, true)), "m.json");
    assert_eq!(resolve_path("m.json", "/repo/tool", root, probes(false, true, true)), "/repo/tool/m.json");
    assert_eq!(resolve_path("m.json", "/repo/tool", root, probes(false, false, true)), "/repo/m.json");
    assert_eq!(resolve_path("m.json", "/repo/tool", None, probes(false, false, true)), "m.json");
    assert_eq!(resolve_path("m.json", "/repo/tool", root, probes(false, false, false)), "m.json");
    assert_eq!(
        path_candidates("m.json", "/repo/tool", root),
        vec!["m.json".to_string(), "/repo/tool/m.json".to_string(), "/repo/m.json".to_string()]
    );
}

#[test]
fn model_path_preference() {
    let s = |x: &str| x.to_string();
    assert_eq!(select_model_path(Some(s("a")), Some(s("b")), s("c")), "a");
    assert_eq!(select_model_path(None, Some(s("b")), s("c")), "b");
    assert_eq!(select_model_path(None, None, s("c")), "c");
}

#[test]
fn json_values_checked() {
    assert_eq!(json_vec(&JsonItem::Array(vec![Some(1.0f32), Some(2.0)]), 2), Ok(vec![1.0, 2.0]));
    assert_eq!(
        json_vec(&JsonItem::Array(vec![Some(1.0f32)]), 2),
        Err(EmbeddingError::LengthMismatch { got: 1, expected: 2 })
    );
    assert_eq!(
        json_vec(&JsonItem::Array(vec![Some(1.0f32), None]), 2),
        Err(EmbeddingError::NonNumber)
    );
    assert_eq!(json_vec::<f32>(&JsonItem::NotArray, 2), Err(EmbeddingError::ValueNotArray));
}

#[test]
fn documents_loaded() {
    let one = load_embeddings(&EmbeddingDocument::Array(vec![Some(1), Some(2)]), 2);
    assert_eq!(one, Ok(Embeddings::One(vec![1, 2])));
    let doc = EmbeddingDocument::Object(vec![
        ("a.wav".to_string(), JsonItem::Array(vec![Some(1), Some(2)])),
        ("b.wav".to_string(), JsonItem::Array(vec![Some(3), Some(4)])),
    ]);
    assert_eq!(
        load_embeddings(&doc, 2),
        Ok(Embeddings::ByFile(vec![("a.wav".to_string(), vec![1, 2]), ("b.wav".to_string(), vec![3, 4])]))
    );
    let bad = EmbeddingDocument::Object(vec![
        ("a.wav".to_string(), JsonItem::NotArray),
        ("b.wav".to_string(), JsonItem::Array(vec![Some(3)])),
    ]);
    assert_eq!(load_embeddings(&bad, 2), Err(EmbeddingError::ValueNotArray));
    assert_eq!(load_embeddings::<i32>(&EmbeddingDocument::Other, 2), Err(EmbeddingError::NotArrayOrObject));
}

#[test]
fn lookup_takes_last_entry() {
    let entries = vec![("a".to_string(), vec![1]), ("b".to_string(), vec![2]), ("a".to_string(), vec![3])];
    assert_eq!(lookup_embedding(&entries, "a"), Some(vec![3]));
    assert_eq!(lookup_embedding(&entries, "c"), None);
}

#[test]
fn embedding_choice() {
    let one = Embeddings::One(vec![5, 6]);
    assert_eq!(
        embedding_for_file(Some("x.wav"), "/d/x.wav", Some(&one), false, 2, false, 0),
        Ok(EmbeddingSource::Given(vec![5, 6]))
    );
    let by_file = Embeddings::ByFile(vec![
        ("x.wav".to_string(), vec![1, 1]),
        ("/d/y.wav".to_string(), vec![2, 2]),
    ]);
    assert_eq!(
        embedding_for_file(Some("x.wav"), "/d/x.wav", Some(&by_file), true, 2, false, 0),
        Ok(EmbeddingSource::Given(vec![1, 1]))
    );
    assert_eq!(
        embedding_for_file(Some("y.wav"), "/d/y.wav", Some(&by_file), true, 2, false, 0),
        Ok(EmbeddingSource::Given(vec![2, 2]))
    );
    assert_eq!(
        embedding_for_file(Some("z.wav"), "/d/z.wav", Some(&by_file), true, 2, true, 0),
        Err(EmbeddingError::NotFound)
    );
    assert_eq!(
        embedding_for_file(None, "/d/..", Some(&by_file), true, 2, true, 0),
        Err(EmbeddingError::InvalidFileName)
    );
    assert_eq!(
        embedding_for_file::<i32>(Some("z.wav"), "/d/z.wav", None, true, 2, false, 0),
        Ok(EmbeddingSource::Extract)
    );
    assert_eq!(
        embedding_for_file(Some("z.wav"), "/d/z.wav", None, false, 3, true, 0),
        Ok(EmbeddingSource::ZeroFallback(vec![0, 0, 0]))
    );
    assert_eq!(
        embedding_for_file::<i32>(Some("z.wav"), "/d/z.wav", None, false, 3, false, 0),
        Err(EmbeddingError::ModelMissing)
    );
}

#[test]
fn extraction_results() {
    assert_eq!(finish_extraction::<i32, &str>(Ok(vec![1, 2]), 2, false, 0), Ok((vec![1, 2], None)));
    assert_eq!(
        finish_extraction::<i32, &str>(Ok(vec![1]), 2, false, 0),
        Err(ExtractionFailure::LengthMismatch { got: 1, expected: 2 })
    );
    assert_eq!(
        finish_extraction::<i32, &str>(Err("boom"), 2, true, 0),
        Ok((vec![0, 0], Some(ExtractionFailure::Model("boom"))))
    );
    assert_eq!(
        finish_extraction::<i32, &str>(Err("boom"), 2, false, 0),
        Err(ExtractionFailure::Model("boom"))
    );
}
