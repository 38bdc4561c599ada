use jb_api::db::prompt::PromptComponent;

#[test]
fn between_nothing_is_well_defined() {
    assert_eq!(PromptComponent::create_sort_key_between(None, None), "1");
}

#[test]
fn between_open_start_exact() {
    assert_eq!(PromptComponent::create_sort_key_between(None, Some("1")), "01");
    assert_eq!(PromptComponent::create_sort_key_between(None, Some("01")), "001");
}

#[test]
fn between_open_end_exact() {
    assert_eq!(PromptComponent::create_sort_key_between(Some("1"), None), "11");
    assert_eq!(PromptComponent::create_sort_key_between(Some("11"), None), "111");
}

#[test]
fn between_pair_exact() {
    assert_eq!(
        PromptComponent::create_sort_key_between(Some("1"), Some("11")),
        "101"
    );
    assert_eq!(
        PromptComponent::create_sort_key_between(Some("01"), Some("1")),
        "011"
    );
}

#[test]
fn between_sorts_below_any_successor() {
    for succ in ["1", "01", "11", "101", "0001", "1111"] {
        let key = PromptComponent::create_sort_key_between(None, Some(succ));
        assert!(key.as_str() < succ, "{key} should sort before {succ}");
    }
}

#[test]
fn between_sorts_above_any_predecessor() {
    for pred in ["1", "01", "11", "101", "0001", "1111"] {
        let key = PromptComponent::create_sort_key_between(Some(pred), None);
        assert!(key.as_str() > pred, "{key} should sort after {pred}");
    }
}

#[test]
fn between_is_strictly_between() {
    let pairs = [("01", "1"), ("1", "11"), ("101", "11"), ("0001", "001")];
    for (a, b) in pairs {
        assert!(a < b);
        let c = PromptComponent::create_sort_key_between(Some(a), Some(b));
        assert!(a < c.as_str() && c.as_str() < b, "{a} < {c} < {b} violated");
    }
}

#[test]
fn between_is_deterministic() {
    for (a, b) in [(Some("01"), Some("1")), (None, Some("11")), (Some("101"), None)] {
        let first = PromptComponent::create_sort_key_between(a, b);
        let second = PromptComponent::create_sort_key_between(a, b);
        assert_eq!(first, second);
    }
}

#[test]
fn repeated_insertion_after_same_predecessor() {
    // Insert fifty times between the same original pair: each new key lands
    // between the lower key and the previously produced one.
    let lower = "1".to_owned();
    let mut upper = "11".to_owned();
    let mut seen = vec![upper.clone()];
    for _ in 0..50 {
        let key = PromptComponent::create_sort_key_between(Some(&lower), Some(&upper));
        assert!(lower.as_str() < key.as_str() && key.as_str() < upper.as_str());
        assert!(!seen.contains(&key), "{key} repeated");
        assert!(key.len() <= 2 + seen.len());
        seen.push(key.clone());
        upper = key;
    }
}

#[test]
fn repeated_insertion_at_front() {
    let mut upper = "1".to_owned();
    let mut seen = vec![upper.clone()];
    for _ in 0..50 {
        let key = PromptComponent::create_sort_key_between(None, Some(&upper));
        assert!(key.as_str() < upper.as_str());
        assert!(!seen.contains(&key), "{key} repeated");
        seen.push(key.clone());
        upper = key;
    }
}
