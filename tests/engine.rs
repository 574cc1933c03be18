use blog::engine::{Engine, EngineError, Step, Value};

fn bytes(s: &str) -> Value {
    Value::Bytes(s.as_bytes().to_vec())
}

fn eval(e: &mut Engine, id: usize, reads: &[usize], v: Value) {
    e.enter(id).unwrap();
    for d in reads {
        e.record(*d);
    }
    e.exit(id, v).unwrap();
}

#[test]
fn rerun_without_change_is_fresh() {
    let mut e = Engine::new();
    let file = e.add_input(bytes("hello"));
    let page = e.add_query();
    assert_eq!(e.step(page), Step::Execute);
    eval(&mut e, page, &[file], bytes("<p>hello</p>"));
    assert_eq!(e.step(page), Step::Fresh);
    assert_eq!(e.step(page), Step::Fresh);
    assert_eq!(e.revision(), 0);
}

#[test]
fn identical_touch_cuts_off_dependents() {
    let mut e = Engine::new();
    let file = e.add_input(bytes("# a\ntags: [go]"));
    let article = e.add_query();
    let tag_page = e.add_query();
    eval(&mut e, article, &[file], bytes("meta go"));
    eval(&mut e, tag_page, &[article], bytes("<li>a</li>"));

    e.set_input(file, bytes("# a\ntags: [go]")).unwrap();
    assert_eq!(e.step(tag_page), Step::Validate);
    assert_eq!(e.step(article), Step::Validate);
    // The article read a file that changed revision: it must run again.
    assert!(!e.validate(article));
    eval(&mut e, article, &[file], bytes("meta go"));
    // It produced the same value, so the tag page is still valid.
    assert!(e.validate(tag_page));
    assert_eq!(e.step(tag_page), Step::Fresh);
}

#[test]
fn changed_content_invalidates_dependents() {
    let mut e = Engine::new();
    let file = e.add_input(bytes("one"));
    let article = e.add_query();
    let tag_page = e.add_query();
    eval(&mut e, article, &[file], bytes("one"));
    eval(&mut e, tag_page, &[article], bytes("page one"));
    e.set_input(file, bytes("two")).unwrap();
    assert!(!e.validate(article));
    eval(&mut e, article, &[file], bytes("two"));
    assert!(!e.validate(tag_page));
}

#[test]
fn unrelated_input_leaves_pages_valid() {
    let mut e = Engine::new();
    let article_file = e.add_input(bytes("article"));
    let links_file = e.add_input(bytes("- title: x"));
    let article_page = e.add_query();
    let links_page = e.add_query();
    eval(&mut e, article_page, &[article_file], bytes("<p>article</p>"));
    eval(&mut e, links_page, &[links_file], bytes("<ul>x</ul>"));
    e.set_input(links_file, bytes("- title: y")).unwrap();
    assert!(e.validate(article_page));
    assert_eq!(e.step(article_page), Step::Fresh);
    assert!(!e.validate(links_page));
}

#[test]
fn self_requiring_query_is_a_cycle() {
    let mut e = Engine::new();
    let x = e.add_query();
    let y = e.add_query();
    e.enter(x).unwrap();
    e.record(y);
    e.enter(y).unwrap();
    assert_eq!(e.step(x), Step::Cycle);
    assert_eq!(e.enter(x), Err(EngineError::Cycle));
}

#[test]
fn exit_must_match_innermost() {
    let mut e = Engine::new();
    let x = e.add_query();
    let y = e.add_query();
    e.enter(x).unwrap();
    assert_eq!(e.exit(y, bytes("v")), Err(EngineError::NotActive));
    assert!(e.exit(x, bytes("v")).is_ok());
    assert_eq!(e.deps(x).len(), 0);
}

#[test]
fn set_input_refuses_derivations() {
    let mut e = Engine::new();
    let q = e.add_query();
    assert_eq!(e.set_input(q, bytes("v")), Err(EngineError::NotAnInput));
    assert_eq!(e.set_input(7, bytes("v")), Err(EngineError::NotAnInput));
}

#[test]
fn recorded_reads_become_dependencies() {
    let mut e = Engine::new();
    let a = e.add_input(bytes("a"));
    let b = e.add_input(bytes("b"));
    let q = e.add_query();
    eval(&mut e, q, &[a, b], Value::Texts(vec!["x".to_string()]));
    assert_eq!(e.deps(q), &vec![a, b]);
    match e.value(q) {
        Some(Value::Texts(t)) => assert_eq!(t, &vec!["x".to_string()]),
        _ => panic!("no value"),
    }
}
