//! End-to-end checks of `compile` against modules built directly with the
//! qbe crate, and of the determinism and label-uniqueness claims.
use bfc::emit::compile;
use qbe::{Function, Instr, Linkage, Module, Type, Value};

fn chars(s: &str) -> Vec<char> {
    s.chars().collect()
}

fn temp(name: &str) -> Value {
    Value::Temporary(name.to_string())
}

fn new_main() -> Function {
    Function::new(Linkage::public(), "main", Vec::new(), None)
}

fn render(f: Function) -> String {
    let mut m = Module::new();
    m.add_function(f);
    format!("{}", m)
}

fn load_cell(f: &mut Function) {
    f.assign_instr(
        temp("value"),
        Type::Byte,
        Instr::Load(Type::UnsignedByte, temp("pointer")),
    );
}

fn store_cell(f: &mut Function) {
    f.add_instr(Instr::Store(Type::Byte, temp("pointer"), temp("value")));
}

fn open_function(f: &mut Function) {
    f.add_block("start");
    f.assign_instr(temp("pointer"), Type::Long, Instr::Alloc4(30000));
}

#[test]
fn empty_input_emits_alloc_and_ret_only() {
    let mut expected = new_main();
    open_function(&mut expected);
    expected.add_instr(Instr::Ret(None));

    let out = compile(&chars(""));
    assert_eq!(out, render(expected));
    assert!(out.starts_with("export function $main()"));
    assert!(out.contains("alloc4 30000"));
    assert!(out.contains("ret"));
}

#[test]
fn plus_dot_emits_load_add_store_then_write() {
    let mut expected = new_main();
    open_function(&mut expected);
    load_cell(&mut expected);
    expected.assign_instr(temp("value"), Type::Byte, Instr::Add(temp("value"), Value::Const(1)));
    store_cell(&mut expected);
    load_cell(&mut expected);
    expected.add_instr(Instr::Call(
        "putchar".to_string(),
        vec![(Type::UnsignedByte, temp("value"))],
        None,
    ));
    expected.add_instr(Instr::Ret(None));

    assert_eq!(compile(&chars("+.")), render(expected));
}

#[test]
fn each_simple_symbol_lowering() {
    let mut expected = new_main();
    open_function(&mut expected);
    // '-'
    load_cell(&mut expected);
    expected.assign_instr(temp("value"), Type::Byte, Instr::Sub(temp("value"), Value::Const(1)));
    store_cell(&mut expected);
    // '>'
    expected.assign_instr(temp("pointer"), Type::Long, Instr::Add(temp("pointer"), Value::Const(1)));
    // '<'
    expected.assign_instr(temp("pointer"), Type::Long, Instr::Sub(temp("pointer"), Value::Const(1)));
    // ','
    expected.assign_instr(
        temp("value"),
        Type::Byte,
        Instr::Call("getchar".to_string(), Vec::new(), None),
    );
    store_cell(&mut expected);
    expected.add_instr(Instr::Ret(None));

    assert_eq!(compile(&chars("-><,")), render(expected));
}

#[test]
fn nested_loops_emit_two_label_pairs_in_order() {
    let mut expected = new_main();
    open_function(&mut expected);
    load_cell(&mut expected);
    expected.add_instr(Instr::Jnz(temp("value"), "body_0".into(), "end_0".into()));
    expected.add_block("body_0");
    load_cell(&mut expected);
    expected.add_instr(Instr::Jnz(temp("value"), "body_1".into(), "end_1".into()));
    expected.add_block("body_1");
    load_cell(&mut expected);
    expected.assign_instr(temp("value"), Type::Byte, Instr::Sub(temp("value"), Value::Const(1)));
    store_cell(&mut expected);
    load_cell(&mut expected);
    expected.add_instr(Instr::Jnz(temp("value"), "body_1".into(), "end_1".into()));
    expected.add_block("end_1");
    load_cell(&mut expected);
    expected.add_instr(Instr::Jnz(temp("value"), "body_0".into(), "end_0".into()));
    expected.add_block("end_0");
    expected.add_instr(Instr::Ret(None));

    let out = compile(&chars("[[-]]"));
    assert_eq!(out, render(expected));

    // The outer pair encloses the inner pair, and the inner retest comes
    // before the outer retest.
    let body0: usize = out.find("\n@body_0\n").unwrap();
    let body1: usize = out.find("\n@body_1\n").unwrap();
    let end1: usize = out.find("\n@end_1\n").unwrap();
    let end0: usize = out.find("\n@end_0\n").unwrap();
    assert!(body0 < body1 && body1 < end1 && end1 < end0);
}

#[test]
fn label_pairs_are_unique_and_counted_once() {
    // Three loops anywhere in the tree take indices 0, 1, 2, each opened as
    // a block exactly once: one block header per index per family.
    let out = compile(&chars("[[]][]"));
    for lbl in ["\n@body_0\n", "\n@body_1\n", "\n@body_2\n", "\n@end_0\n", "\n@end_1\n", "\n@end_2\n"] {
        assert_eq!(out.matches(lbl).count(), 1, "{lbl}");
    }
    assert!(!out.contains("body_3"));
}

#[test]
fn label_indices_reach_two_digits() {
    // Eleven sibling loops take pair indices 0 through 10.
    let out = compile(&chars("[][][][][][][][][][][]"));
    assert_eq!(out.matches("\n@body_10\n").count(), 1);
    assert_eq!(out.matches("\n@end_10\n").count(), 1);
    assert!(!out.contains("body_11"));
}

#[test]
fn unmatched_close_discards_rest_of_input() {
    assert_eq!(compile(&chars("]abc")), compile(&chars("")));
    assert_eq!(compile(&chars("]+++.")), compile(&chars("")));
}

#[test]
fn compile_is_deterministic() {
    let src = chars("+[>,.<-]x[-]");
    let first = compile(&src);
    let second = compile(&src);
    assert_eq!(first, second);
}

#[test]
fn comment_characters_do_not_change_output() {
    assert_eq!(compile(&chars("a + b . c")), compile(&chars("+.")));
}

#[test]
fn deep_nesting_labels() {
    // "[[[]]]": pairs 0, 1, 2 allocated on the way in, closed inside out.
    let out = compile(&chars("[[[]]]"));
    let b2: usize = out.find("\n@body_2\n").unwrap();
    let e2: usize = out.find("\n@end_2\n").unwrap();
    let e0: usize = out.find("\n@end_0\n").unwrap();
    assert!(b2 < e2 && e2 < e0);
}
