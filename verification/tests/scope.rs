use lib::scope::{minified_name, Ir, Opt};

fn name(p: &mut Ir, prefix: &str) -> String {
    p.unique_name(&prefix.to_string())
}

#[test]
fn scope_basic() {
    let mut p = Ir::no_globals();
    assert_eq!(name(&mut p, "foo"), "foo");
    assert_eq!(name(&mut p, "foo"), "foo$1");
    assert_eq!(name(&mut p, "foo"), "foo$2");
    assert_eq!(name(&mut p, "foo"), "foo$3");
}

#[test]
fn replacement_overlap1() {
    let mut p = Ir::no_globals();
    assert_eq!(name(&mut p, "foo"), "foo");
    assert_eq!(name(&mut p, "foo$1"), "foo$1");
    assert_eq!(name(&mut p, "foo"), "foo$1$1");
}

#[test]
fn replacement_overlap2() {
    let mut p = Ir::no_globals();
    assert_eq!(name(&mut p, "foo"), "foo");
    assert_eq!(name(&mut p, "foo"), "foo$1");
    assert_eq!(name(&mut p, "foo$1"), "foo$1$1");
}

#[test]
fn empty_string() {
    let mut p = Ir::no_globals();
    assert_eq!(name(&mut p, ""), "_");
    assert_eq!(name(&mut p, ""), "_$1");
}

#[test]
fn minify_deconflict() {
    let mut p = Ir::with_globals(vec!["b".to_string()], Opt { minify: true });
    assert_eq!(name(&mut p, ""), "a");
    assert_eq!(name(&mut p, ""), "c");
}

#[test]
fn minified_names_in_order() {
    assert_eq!(minified_name(0), "a");
    assert_eq!(minified_name(25), "z");
    assert_eq!(minified_name(26), "A");
    assert_eq!(minified_name(51), "Z");
    assert_eq!(minified_name(52), "_");
    assert_eq!(minified_name(53), "$");
    assert_eq!(minified_name(54), "aa");
    assert_eq!(minified_name(55), "ba");
}

#[test]
fn nested_scope_forgets_its_names() {
    let mut p = Ir::no_globals();
    assert_eq!(name(&mut p, "x"), "x");
    {
        let mut c = p.nested();
        assert_eq!(name(&mut c, "x"), "x$1");
        assert_eq!(name(&mut c, "y"), "y");
    }
    assert_eq!(name(&mut p, "y"), "y");
    assert_eq!(name(&mut p, "x"), "x$1");
}
