use run_str_demo::{Config, Rt};

struct Output(String);

impl Config for Output {
    fn print(&mut self, text: &str) {
        self.0.push_str(text);
    }
}

fn check(src: &str, expected: &str) {
    let mut rt = Rt::with_config(Output(String::new()));
    rt.load_source(src);
    rt.proc().unwrap();
    assert_eq!(rt.output(), expected);
}

fn check_err(src: &str, msg: &str) {
    let mut rt = Rt::with_config(Output(String::new()));
    rt.load_source(src);
    let e = rt.proc().unwrap_err();
    assert_eq!(e.msg, msg);
}

#[test]
fn short_circuit_skips_side_conditions() {
    // The skipped right operand must not run: an unbound name there is
    // never looked up, while the same name outside suppression is fatal.
    check("x = 1; print 0; print null && nosuchvar; print x;", "0\nNULL\n1\n");
    check("print 1 || nosuchvar;", "1\n");
    check_err("print 1 && nosuchvar;", "Unknown variable");
    check_err("print nosuchvar;", "Unknown variable");
}

#[test]
fn suppressed_branches_skip_lookups() {
    check("if null { print nosuchvar; } print 7;", "7\n");
    check("i = 3; while i < 3 { print nosuchvar; } print i;", "3\n");
}

#[test]
fn error_positions() {
    let mut rt = Rt::with_config(Output(String::new()));
    rt.load_source("x = 2;\n@");
    let e = rt.proc().unwrap_err();
    assert_eq!(e.msg, "Invalid input");
    assert_eq!(e.line, 2);
    assert_eq!(e.col, 1);
    assert_eq!(e.preview_string(), "@");
}

#[test]
fn error_variants() {
    check_err("print 1", "Expected a semicolon");
    check_err("print 'abc;", "String literal not terminated");
    check_err("print \"abc;", "String literal not terminated");
    check_err("print \"a\\x\";", "Invalid soft string escape");
    check_err("print 1.2.3;", "Invalid number");
    check_err("print (1;", "Expected a close parentheses");
    check_err("print 1);", "Invalid operator");
    check_err("x 2;", "Expected a `=`");
    check_err("+ 2;", "Expected a command or assign");
    check_err("if 1 print 1;", "Expected a left brace");
    check_err("{ print 1;", "Expected a command or assign");
    check_err("print ;", "Invalid expression");
}

#[test]
fn number_formatting() {
    check("print 1/0;", "inf\n");
    check("print 0-1/0;", "-inf\n");
    check("print 0/0;", "NaN\n");
    check("print 100000;", "100000\n");
    check("print 0.0001;", "0.0001\n");
    check("print 1/3;", "0.3333333333333333\n");
    check("print 12.34;", "12.34\n");
    check("print 1/4;", "0.25\n");
    check("print 10/4;", "2.5\n");
    check("print 2000000000 * 2000000000;", "4000000000000000000\n");
}

#[test]
fn single_line_while() {
    let mut rt = Rt::with_config(Output(String::new()));
    rt.load_source("x=2;while x<3{print x;x=x+1;}print 'i: '+x;");
    rt.proc().unwrap();
    assert_eq!(rt.output(), "2\ni: 3\n");
}

#[test]
fn removal_is_one_left_to_right_pass() {
    // Removal scans once: an occurrence formed to the left of the scan by
    // a removal stays, so a second application can still find work.
    check("print 'ababcc'-'abc';", "abc\n");
    check("print 'ababcc'-'abc'-'abc';", "\n");
    check("print 'xyz'-'q'-'q';", "xyz\n");
}

#[test]
fn null_binding_can_be_replaced() {
    check("null = 5; print null;", "5\n");
}

#[test]
fn nested_parens_and_unary() {
    check("print !(1 < 2);", "NULL\n");
    check("print -(2 + 3);", "-5\n");
    check("print !'';", "NULL\n");
    check("print - -'ab';", "ab\n");
    check("print -('ab'+'c');", "cba\n");
}

#[test]
fn coercion_units() {
    // Null coerces to the operator's unit: zero for additive, one for
    // multiplicative positions.
    check("print 7 + null;", "7\n");
    check("print 7 - null;", "7\n");
    check("print 7 * null;", "7\n");
    check("print 7 / null;", "7\n");
    check("print null % 7;", "0\n");
    check("print 7 + 'x';", "8\n");
    check("print 7 * 'x';", "7\n");
    check("print 'ab'*(0/0);", "ab\n");
}

#[test]
fn comparisons_between_kinds() {
    check("print 2 < 'a';", "1\n");
    check("print 'a' < 2;", "NULL\n");
    check("print 'a' < 'b';", "1\n");
    check("print 'b' <= 'a';", "NULL\n");
    check("print 'ab' < 'b';", "1\n");
    check("print null < 0;", "1\n");
    check("print null == null;", "1\n");
    check("print 0 == -0;", "NULL\n");
}

#[test]
fn output_streams_to_sink_in_order() {
    let mut rt = Rt::with_config(Output(String::new()));
    rt.load_source("print 1; print 'two'; print null;");
    rt.proc().unwrap();
    assert_eq!(rt.cfg.0, "1\ntwo\nNULL\n");
    assert_eq!(rt.output(), "1\ntwo\nNULL\n");
}

#[test]
fn kind_of_identifier() {
    assert!(run_str_demo::Kind::Ident.is_ident());
    assert!(!run_str_demo::Kind::Number.is_ident());
}
