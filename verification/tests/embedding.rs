use omitfs::db::VEC_DIM;
use omitfs::embedding::{
    best_device, model_files, model_source, prepare_tokens, DeviceKind, ModelSource, EMBEDDING_DIM,
    MAX_TOKENS,
};

#[test]
fn the_model_is_loaded_locally_where_it_is_there() {
    assert!(matches!(model_source(true), ModelSource::Local("model")));
    assert!(matches!(
        model_source(false),
        ModelSource::Hub("sentence-transformers/all-MiniLM-L6-v2")
    ));
    let files = model_files();
    assert_eq!(files.config, "config.json");
    assert_eq!(files.tokenizer, "tokenizer.json");
    assert_eq!(files.weights, "model.safetensors");
}

#[test]
fn the_best_device_is_taken() {
    assert_eq!(best_device(true, true), DeviceKind::Cuda);
    assert_eq!(best_device(true, false), DeviceKind::Cuda);
    assert_eq!(best_device(false, true), DeviceKind::Metal);
    assert_eq!(best_device(false, false), DeviceKind::Cpu);
}

#[test]
fn the_model_is_given_as_many_tokens_as_it_takes() {
    assert_eq!(prepare_tokens("text", vec![]), None);
    assert_eq!(prepare_tokens("text", vec![101, 7, 102]), Some(vec![101, 7, 102]));
    let long: Vec<u32> = (0..600).collect();
    assert_eq!(prepare_tokens("long", long.clone()), Some(long[..512].to_vec()));
    let exact: Vec<u32> = (0..512).collect();
    assert_eq!(prepare_tokens("exact", exact.clone()), Some(exact));
    assert_eq!(MAX_TOKENS, 512);
}

#[test]
fn embeddings_fit_their_column() {
    assert_eq!(EMBEDDING_DIM, VEC_DIM as usize);
}

#[test]
fn an_empty_text_is_not_embedded_though_it_has_tokens() {
    assert_eq!(prepare_tokens("", vec![101, 102]), None);
    assert_eq!(prepare_tokens("", vec![]), None);
    assert_eq!(prepare_tokens(" ", vec![101, 102]), Some(vec![101, 102]));
}
