use libhier::hier::Hier;
use libhier::hier::HierError;
use libhier::value::Value;

#[test]
fn escape_sequences_are_resolved() {
    let mut hier = Hier::new(Vec::new());

    let value = hier.run("(get \"Test \\n\")".to_string()).unwrap();

    assert_eq!(value.text_representation(), "Test \n");
}

#[test]
fn interpolations_are_resolved() {
    let mut hier = Hier::new(Vec::new());

    let value = hier.run("(run (@test 5) (get \"Test \\(get test)\"))".to_string()).unwrap();

    assert_eq!(value.text_representation(), "Test 5");
}

#[test]
fn is_concatenating_properly() {
    let mut hier = Hier::new(Vec::new());

    let value = hier.run("(+ \"Test\" \" concatenation\")".to_string()).unwrap();

    assert_eq!(value.text_representation(), "Test concatenation");
}

#[test]
fn numbers_keep_their_digits() {
    let mut hier = Hier::new(Vec::new());

    let value = hier.run("(get 3.14159265359)".to_string()).unwrap();

    assert_eq!(value.text_representation(), "3.14159265359");
}

#[test]
fn decimal_addition_is_exact() {
    let mut hier = Hier::new(Vec::new());

    let value = hier.run("(+ 1.5 2.25)".to_string()).unwrap();

    assert_eq!(value.text_representation(), "3.75");
}

#[test]
fn negative_fractions_render_with_leading_zero() {
    let mut hier = Hier::new(Vec::new());

    let value = hier.run("(get -0.5)".to_string()).unwrap();

    assert_eq!(value.text_representation(), "-0.5");
}

#[test]
fn malformed_number_is_a_source_error() {
    let mut hier = Hier::new(Vec::new());

    let result = hier.run("(get 1..2)".to_string());

    assert!(matches!(result, Err(HierError::SOURCE(_))));
}

#[test]
fn unterminated_string_is_a_source_error() {
    let mut hier = Hier::new(Vec::new());

    let result = hier.run("(get \"open".to_string());

    assert!(matches!(result, Err(HierError::SOURCE(_))));
}

#[test]
fn host_variables_are_visible() {
    let mut hier = Hier::new(Vec::new());

    hier.add_variable("greeting".to_string(), Value::STRING("hi".chars().collect()));
    let value = hier.run("(get greeting)".to_string()).unwrap();

    assert_eq!(value.text_representation(), "hi");
}

#[test]
fn namespaced_properties_resolve() {
    let mut hier = Hier::new(Vec::new());

    hier.add_variable("ns#member".to_string(), Value::STRING("found".chars().collect()));
    let value = hier.run("(get ns.member)".to_string()).unwrap();

    assert_eq!(value.text_representation(), "found");
}
