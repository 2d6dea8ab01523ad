use libhier::hier::Hier;
use libhier::hier::HierError;
use libhier::interpreter::EvalError;
use libhier::value::NativeFunction;

#[test]
fn map_function_works() {
    let mut hier = Hier::new(Vec::new());

    let value = hier.run("(map (1 2 3) { (+ element 1) })".to_string()).unwrap();

    assert_eq!(value.text_representation(), "2 3 4 ");
}

#[test]
fn pipe_operator_works() {
    let mut hier = Hier::new(Vec::new());

    let value = hier.run("(1 2 3) > (map { (+ element 1) }) > (get)".to_string()).unwrap();

    assert_eq!(value.text_representation(), "2 3 4 ");
}

#[test]
// Test whether object.function syntax works properly.
fn does_object_root_work() {
    let mut hier = Hier::new(Vec::new());

    let value = hier.run("((1 2 3).map { (+ element 1) })".to_string()).unwrap();

    assert_eq!(value.text_representation(), "2 3 4 ");
}

#[test]
fn does_automatic_root_parenthesis_work() {
    let mut hier = Hier::new(Vec::new());

    let value = hier.run("get (+ 2 2)".to_string()).unwrap();

    assert_eq!(value.text_representation(), "4");
}

#[test]
fn pipe_equals_direct_nesting() {
    let mut piped = Hier::new(Vec::new());
    let mut nested = Hier::new(Vec::new());

    let a = piped.run("(1 2 3) > (map { (+ element 1) }) > (get)".to_string()).unwrap();
    let b = nested.run("(get (map (1 2 3) { (+ element 1) }))".to_string()).unwrap();

    assert_eq!(a.text_representation(), b.text_representation());
}

#[test]
fn property_call_equals_direct_call() {
    let mut through_property = Hier::new(Vec::new());
    let mut direct = Hier::new(Vec::new());

    let a = through_property.run("((1 2 3).map { (+ element 1) })".to_string()).unwrap();
    let b = direct.run("(map (1 2 3) { (+ element 1) })".to_string()).unwrap();

    assert_eq!(a.text_representation(), b.text_representation());
}

#[test]
fn module_inclusion_is_idempotent() {
    let sources = vec![("m".to_string(), "(@x 5)".to_string())];
    let mut once = Hier::new(sources.clone());
    let mut twice = Hier::new(sources);

    let a = once.run("run #<m> (get x)".to_string()).unwrap();
    let b = twice.run("run #<m> #<m> (get x)".to_string()).unwrap();

    assert_eq!(a.text_representation(), "5");
    assert_eq!(b.text_representation(), "5");
}

#[test]
fn unknown_module_is_an_error() {
    let mut hier = Hier::new(Vec::new());

    let result = hier.run("run #<missing> (get 1)".to_string());

    assert!(matches!(result, Err(HierError::SOURCE(_))));
}

#[test]
fn arity_below_minus_one_is_refused() {
    let mut hier = Hier::new(Vec::new());

    let refused = hier.add_function("broken".to_string(), -2, NativeFunction::GET);
    assert!(matches!(refused, Err(HierError::BAD_ARITY)));

    let accepted = hier.add_function("fine".to_string(), -1, NativeFunction::GET);
    assert!(accepted.is_ok());

    let value = hier.run("(fine 7)".to_string()).unwrap();
    assert_eq!(value.text_representation(), "7");
}

#[test]
fn repl_failure_leaves_bindings_intact() {
    let mut hier = Hier::new(Vec::new());

    let first = hier.repl_line("(@x 5)".to_string());
    assert!(first.is_ok());

    let failing = hier.repl_line("(no_such_function 1)".to_string());
    assert!(failing.is_err());

    let after = hier.repl_line("(get x)".to_string()).unwrap();
    assert_eq!(after.text_representation(), "5");
}

#[test]
fn exit_reaches_the_host() {
    let mut hier = Hier::new(Vec::new());

    let result = hier.run("(exit)".to_string());

    assert!(matches!(result, Err(HierError::EVAL(EvalError::EXIT))));
}

#[test]
fn subscript_desugars_to_get() {
    let mut hier = Hier::new(Vec::new());

    let value = hier.run("get (1 2 3)[0]".to_string()).unwrap();

    assert_eq!(value.text_representation(), "1");
}

#[test]
fn subscript_reads_later_elements() {
    let mut hier = Hier::new(Vec::new());

    let value = hier.run("get (1 2 3)[2]".to_string()).unwrap();

    assert_eq!(value.text_representation(), "3");
}

#[test]
fn subscript_out_of_bounds_is_an_error() {
    let mut hier = Hier::new(Vec::new());

    let result = hier.run("get (1 2 3)[5]".to_string());

    assert!(matches!(result, Err(HierError::EVAL(EvalError::OUT_OF_RANGE))));
}

#[test]
fn empty_pipe_target_is_a_source_error() {
    let mut hier = Hier::new(Vec::new());

    let result = hier.run("(1 2 3) > ()".to_string());

    assert!(matches!(result, Err(HierError::SOURCE(_))));
}

#[test]
fn unresolved_identifier_is_an_error() {
    let mut hier = Hier::new(Vec::new());

    let result = hier.run("(get nowhere_bound)".to_string());

    assert!(matches!(result, Err(HierError::EVAL(EvalError::UNRESOLVED(_)))));
}
