use milli::{default_fallback, default_template_text, FieldidsWeightsMap, PromptData, PromptFallbackStrategy};

#[test]
fn weights_map_operations() {
    let mut m = FieldidsWeightsMap::new();
    assert_eq!(m.max_weight(), None);
    assert_eq!(m.insert(1, 5), None);
    assert_eq!(m.insert(2, 9), None);
    assert_eq!(m.insert(1, 3), Some(5));
    assert_eq!(m.weight(1), Some(3));
    assert_eq!(m.weight(7), None);
    assert_eq!(m.max_weight(), Some(9));
    let mut ids = m.ids();
    ids.sort();
    assert_eq!(ids, vec![1, 2]);
    assert_eq!(m.remove(2), Some(9));
    assert_eq!(m.remove(2), None);
    assert_eq!(m.max_weight(), Some(3));
    assert_eq!(m.ids(), vec![1]);
}

#[test]
fn prompt_defaults() {
    assert_eq!(default_fallback(), "<MISSING>");
    assert_eq!(
        default_template_text(),
        "{% for field in fields %} {{ field.name }}: {{ field.value }}\n{% endfor %}"
    );
    let d = PromptData::default();
    assert_eq!(d.template, default_template_text());
    assert_eq!(d.fallback, "<MISSING>");
    assert_eq!(d.strategy, PromptFallbackStrategy::Error);
    assert_eq!(PromptFallbackStrategy::default(), PromptFallbackStrategy::Error);
}
