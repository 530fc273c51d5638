use omitfs::config::{Config, StoredConfig};

#[test]
fn without_a_file_the_defaults_hold_and_are_written() {
    let (config, write) = Config::load(None);
    assert_eq!(config, Config::default());
    assert!(write);
    assert_eq!(config.max_results, 10);
    assert_eq!(config.overfetch_factor, 5);
    assert_eq!(config.chunk_words, 200);
    assert_eq!(config.overlap_words, 50);
    assert!(!config.encryption_enabled);
}

#[test]
fn what_a_file_leaves_out_has_its_default() {
    let stored = StoredConfig {
        max_results: Some(3),
        overfetch_factor: None,
        chunk_words: Some(120),
        overlap_words: None,
        encryption_enabled: Some(true),
    };
    let (config, write) = Config::load(Some(stored));
    assert!(!write);
    assert_eq!(
        config,
        Config {
            max_results: 3,
            overfetch_factor: 5,
            chunk_words: 120,
            overlap_words: 50,
            encryption_enabled: true,
        }
    );
}

#[test]
fn settings_load_back() {
    let config = Config {
        max_results: 1,
        overfetch_factor: 2,
        chunk_words: 3,
        overlap_words: 4,
        encryption_enabled: true,
    };
    assert_eq!(Config::load(Some(config.save())), (config, false));
}
