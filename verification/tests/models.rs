use llaunchpad::models::{models_from_catalog, to_cloud_ref};

#[test]
fn cloud_ref_rule() {
    assert_eq!(to_cloud_ref("gpt-oss:120b"), "gpt-oss:120b-cloud");
    assert_eq!(to_cloud_ref("glm-4.6"), "glm-4.6:cloud");
    assert_eq!(to_cloud_ref("deepseek-v4-pro"), "deepseek-v4-pro:cloud");
    assert_eq!(to_cloud_ref("gemma4:31b-cloud"), "gemma4:31b-cloud");
    assert_eq!(to_cloud_ref("deepseek-v4-pro:cloud"), "deepseek-v4-pro:cloud");
}

#[test]
fn cloud_ref_is_idempotent() {
    for id in ["gpt-oss:120b", "glm-4.6", "", ":", "x-cloud", "a:b:c", "cloud"] {
        let once = to_cloud_ref(id);
        assert_eq!(to_cloud_ref(&once), once);
        assert!(once.ends_with("-cloud") || once.ends_with(":cloud"));
    }
}

#[test]
fn catalog_is_sorted_by_name() {
    let ids: Vec<String> = ["qwen3-coder:480b", "glm-4.6", "gpt-oss:120b", "deepseek-v3.1:671b-cloud", "gpt-oss:20b", "glm-4.6"]
        .iter()
        .map(|s| s.to_string())
        .collect();
    let names: Vec<String> = models_from_catalog(&ids).into_iter().map(|m| m.name).collect();
    assert_eq!(
        names,
        vec![
            "deepseek-v3.1:671b-cloud",
            "glm-4.6:cloud",
            "glm-4.6:cloud",
            "gpt-oss:120b-cloud",
            "gpt-oss:20b-cloud",
            "qwen3-coder:480b-cloud",
        ]
    );
}

#[test]
fn catalog_order_is_the_order_of_strings() {
    let ids: Vec<String> = ["\u{e9}t\u{e9}", "zeta", "Zeta", "z", "\u{1F600}", "za", ""]
        .iter()
        .map(|s| s.to_string())
        .collect();
    let names: Vec<String> = models_from_catalog(&ids).into_iter().map(|m| m.name).collect();
    let mut expected: Vec<String> = ids.iter().map(|id| to_cloud_ref(id)).collect();
    expected.sort();
    assert_eq!(names, expected);
    assert!(models_from_catalog(&Vec::new()).is_empty());
}
