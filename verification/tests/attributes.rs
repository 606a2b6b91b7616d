use autocontain::text::classify_attributes;

#[test]
fn constructor_parameters_give_attributes() {
    let attrs = classify_attributes("self, x: int, y: str");
    assert_eq!(attrs, vec!["x: int".to_string(), "y: str".to_string()]);
}

#[test]
fn default_value_with_commas_stays_whole() {
    let attrs = classify_attributes("self, items: list=[1,2,3]");
    assert_eq!(attrs, vec!["items: list=[1,2,3]".to_string()]);
}
