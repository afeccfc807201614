//! Searching for models on the hub.

use asmi::hub::{
    has_fitting_size, map_raw, parse_base_model, parse_languages, parse_license, HfRawConfig,
    HfRawModel, HfRawQuantConfig, HfRawSibling, HfSearchQuery, HubReply, SearchCache,
};

#[test]
fn parse_base_model_extracts_value() {
    let tags = vec!["text-generation".to_string(), "base_model:Qwen/Qwen3-8B".to_string()];
    assert_eq!(parse_base_model(&tags).as_deref(), Some("Qwen/Qwen3-8B"));
}

#[test]
fn parse_license_extracts_value() {
    let tags = vec!["license:apache-2.0".to_string()];
    assert_eq!(parse_license(&tags).as_deref(), Some("apache-2.0"));
}

#[test]
fn parse_languages_returns_all() {
    let tags = vec![
        "language:en".to_string(),
        "language:zh".to_string(),
        "license:mit".to_string(),
    ];
    let langs = parse_languages(&tags);
    assert_eq!(langs, vec!["en".to_string(), "zh".to_string()]);
}

fn raw() -> HfRawModel {
    HfRawModel {
        id: "mlx-community/Qwen3-8B-4bit".to_string(),
        author: None,
        downloads: Some(123),
        likes: Some(7),
        tags: Some(vec![
            "license:apache-2.0".to_string(),
            "language:en".to_string(),
            "base_model:Qwen/Qwen3-8B".to_string(),
        ]),
        pipeline_tag: Some("text-generation".to_string()),
        library_name: Some("mlx".to_string()),
        last_modified: Some("2026-01-01T00:00:00Z".to_string()),
        trending_score: Some(serde_json::Value::from(42.0)),
        gated: None,
        config: Some(HfRawConfig {
            architectures: Some(vec!["Qwen3ForCausalLM".to_string()]),
            model_type: Some("qwen3".to_string()),
            quantization_config: Some(HfRawQuantConfig { bits: Some(4) }),
        }),
        siblings: Some(vec![
            HfRawSibling { rfilename: Some("a".to_string()), size: Some(100) },
            HfRawSibling { rfilename: Some("b".to_string()), size: Some(200) },
        ]),
    }
}

#[test]
fn map_raw_populates_quant_bits_and_arch() {
    let m = map_raw(raw());
    assert_eq!(m.id, "mlx-community/Qwen3-8B-4bit");
    assert_eq!(m.author, "mlx-community");
    assert_eq!(m.quant_bits, Some(4));
    assert_eq!(m.architecture.as_deref(), Some("Qwen3ForCausalLM"));
    assert_eq!(m.base_model.as_deref(), Some("Qwen/Qwen3-8B"));
    assert_eq!(m.license.as_deref(), Some("apache-2.0"));
    assert_eq!(m.languages, vec!["en".to_string()]);
    assert_eq!(m.file_count, Some(2));
    assert_eq!(m.total_size_bytes, Some(300));
    assert_eq!(m.gated, serde_json::Value::Bool(false));
    assert_eq!(m.trending_score, Some(serde_json::Value::from(42.0)));
}

#[test]
fn access_is_passed_on() {
    let mut r = raw();
    r.gated = Some(serde_json::Value::from("manual"));
    assert_eq!(map_raw(r).gated, serde_json::Value::from("manual"));
}

#[test]
fn sizes_beyond_a_number_are_noticed() {
    let mut r = raw();
    assert!(has_fitting_size(&r));
    r.siblings = Some(vec![
        HfRawSibling { rfilename: None, size: Some(u64::MAX) },
        HfRawSibling { rfilename: None, size: Some(1) },
    ]);
    assert!(!has_fitting_size(&r));
}

#[test]
fn a_search_has_defaults_and_a_key() {
    let q = HfSearchQuery {
        q: Some("qwen".to_string()),
        filter: None,
        pipeline_tag: None,
        sort: None,
        limit: None,
    };
    let terms = q.terms();
    assert_eq!(terms.search, "qwen");
    let other = HfSearchQuery {
        q: Some("llama".to_string()),
        filter: None,
        pipeline_tag: None,
        sort: None,
        limit: None,
    }
    .terms();
    assert_ne!(terms.cache_key(), other.cache_key());
    let names: Vec<String> = terms.parameters().into_iter().map(|p| p.0).collect();
    assert!(names.contains(&"search".to_string()));
}

#[test]
fn an_answer_is_given_again_for_a_minute() {
    let mut cache: SearchCache<&str> = SearchCache::new();
    assert!(cache.lookup("a", 0).is_none());
    assert!(cache.store("a", HubReply::Models(vec!["x", "y"]), 1_000).is_ok());
    assert_eq!(cache.lookup("a", 1_000), Some(&vec!["x", "y"]));
    assert_eq!(cache.lookup("a", 60_999), Some(&vec!["x", "y"]));
    assert!(cache.lookup("a", 61_000).is_none());
    assert!(cache.lookup("b", 1_000).is_none());

    assert!(cache.store("b", HubReply::Models(vec![]), 30_000).is_ok());
    assert_eq!(cache.lookup("a", 30_000), Some(&vec!["x", "y"]));
    assert_eq!(cache.lookup("b", 30_000), Some(&vec![]));

    assert!(cache.store("a", HubReply::Models(vec!["z"]), 70_000).is_ok());
    assert_eq!(cache.lookup("a", 70_000), Some(&vec!["z"]));
    assert!(cache.store("c", HubReply::Models(vec![]), 150_000).is_ok());
    assert_eq!(cache.lookup("a", 129_999), Some(&vec!["z"]));
    assert!(cache.lookup("b", 30_000).is_none());
}

#[test]
fn a_failed_search_is_not_kept() {
    let mut cache: SearchCache<u8> = SearchCache::new();
    let texts = [
        (HubReply::Unsent("no route".to_string()), "request failed: no route"),
        (HubReply::Refused("503".to_string()), "HuggingFace API returned 503"),
        (HubReply::Unreadable("eof".to_string()), "decode failed: eof"),
    ];
    for (reply, text) in texts {
        let answer = cache.store("a", reply, 5).unwrap_err();
        assert!(answer.models.is_empty());
        assert_eq!(answer.error.as_deref(), Some(text));
        assert!(cache.lookup("a", 5).is_none());
    }
    assert!(cache.store("a", HubReply::Models(vec![7]), 6).is_ok());
    assert!(cache.store("a", HubReply::Unsent("x".to_string()), 7).is_err());
    assert_eq!(cache.lookup("a", 8), Some(&vec![7]));
}
