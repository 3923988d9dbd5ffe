use run_str_demo::{Config, Rt};

struct Output(String);

impl Config for Output {
    fn print(&mut self, text: &str) {
        self.0.push_str(text);
    }
}

fn run(src: &str) -> Rt<Output> {
    let mut rt = Rt::with_config(Output(String::new()));
    rt.load_source(src);
    rt.proc().unwrap();
    rt
}

fn check(src: &str, expected: &str) {
    let rt = run(src);
    assert_eq!(rt.output(), expected);
    assert_eq!(rt.cfg.0, expected);
}

#[test]
fn tests_print_number() {
    check("print 2;", "2\n");
    check("print 2.3;", "2.3\n");
    check("print 0;", "0\n");
}

#[test]
fn tests_comments() {
    check("print 2; // foo", "2\n");
    check("print 2.3;//foo", "2.3\n");
    check("\n            //foo\n            print 0;", "0\n");
}

#[test]
fn tests_multi_print_number() {
    check("print 2; print 3;", "2\n3\n");
    check("print 2; print 3; print 4.2;", "2\n3\n4.2\n");
}

#[test]
fn tests_simple_neg() {
    check("print -2; print - -2;", "-2\n2\n");
}

#[test]
fn tests_simple_not() {
    check("print !null;", "1\n");
    check("print !0;", "NULL\n");
    check("print !!null;", "NULL\n");
    check("print !!3;", "1\n");
    check("print !!'';", "1\n");
}

#[test]
fn tests_add() {
    check("print 1+2;", "3\n");
}

#[test]
fn tests_sub() {
    check("print 3-2;", "1\n");
}

#[test]
fn tests_rem() {
    check("print 5%2;", "1\n");
    check("print 5%3;", "2\n");
    check("print 6%3;", "0\n");
    check("print -4%3;", "-1\n");
}

#[test]
fn tests_multi_sub() {
    check("print 3-2-1;", "0\n");
}

#[test]
fn tests_multi_sub_and_div() {
    check("print 3-1/2-2;", "0.5\n");
}

#[test]
fn tests_multi_sub_and_neg() {
    check("print 3 - - 2;", "5\n");
}

#[test]
fn tests_parens() {
    check("print 3-(2-1);", "2\n");
    check("print 3-((2)-1);", "2\n");
    check("print 3-((2)-(1));", "2\n");
    check("print (3)-((2)-(1));", "2\n");
    check("print ((3))-((2)-(1));", "2\n");
}

#[test]
fn tests_cmp() {
    check("print 1 < 2;", "1\n");
    check("print 1 <= 1;", "1\n");
    check("print 1 < 1;", "NULL\n");
    check("print 1 > 1;", "NULL\n");
    check("print 1 < 2 == 3 < 4;", "1\n");
    check("print 1 < 2 != 3 < 4;", "NULL\n");
}

#[test]
fn tests_cmp_equal() {
    check("print 2 == 1;", "NULL\n");
    check("print 2 != 1;", "1\n");
    check("print 2 == null;", "NULL\n");
    check("print 2 != null;", "1\n");
}

#[test]
fn tests_logic_and() {
    check("print 1 && 2;", "2\n");
    check("print 0 && 2;", "2\n");
    check("print null && 2;", "NULL\n");
    check("print null && null;", "NULL\n");
    check("print 2 && null;", "NULL\n");
}

#[test]
fn tests_logic_or() {
    check("print 1 || 2;", "1\n");
    check("print 0 || 2;", "0\n");
    check("print null || 2;", "2\n");
    check("print null || null;", "NULL\n");
    check("print 2 || null;", "2\n");
}

#[test]
fn tests_logic_prec() {
    check("print 1 && 2 || 3 && 4;", "2\n");
    check("print null && 2 || 3 && 4;", "4\n");
    check("print 1 && null || 3 && 4;", "4\n");
    check("print 1 && null || 3 && 4 || 5 && 6;", "4\n");
    check("print 1 && 2 || 3 && 4 || 5 && 6;", "2\n");
    check("print 1 && 2 || 3 && null || 5 && 6;", "2\n");
    check("print 1 && null || 3 && null || 5 && 6;", "6\n");
}

#[test]
fn tests_str_add() {
    check("print 'a'+'b';", "ab\n");
    check("print 'a'+2;", "a2\n");
    check("print 2+'a';", "3\n");
    check("print 'a'+null;", "a\n");
    check("print null+'a';", "a\n");
}

#[test]
fn tests_str_sub() {
    check("print 'a.b.c'-'.';", "abc\n");
    check("print 'a.b.c'-'';", "a.b.c\n");
    check("print 'a..b..c'-'..';", "abc\n");
    check("print 'a..b..c'-'.';", "abc\n");
    check("print 'a.b.c'-'..';", "a.b.c\n");
}

#[test]
fn tests_str_mul() {
    check("print ''*2;", "\n");
    check("print 'a'*2;", "aa\n");
    check("print 'ab'*2;", "abab\n");
    check("print 'a'*1;", "a\n");
    check("print 'ab'*1;", "ab\n");
    check("print 'ab'*0;", "\n");
    check("print 'ab'*-1;", "ba\n");
    check("print 'ab'*-2;", "baba\n");
    check("print 'ab'*null;", "\n");
    check("print 'ab'*'x';", "ab\n");
}

#[test]
fn tests_str_div() {
    check("print 'abc'/0;", "abc\n");
    check("print 'abc'/1;", "bc\n");
    check("print 'abc'/2;", "c\n");
    check("print 'abc'/3;", "\n");
    check("print 'abc'/4;", "\n");
    check("print ''/0;", "\n");
    check("print ''/1;", "\n");
    check("print ''/2;", "\n");
    check("print '测试'/0;", "测试\n");
    check("print '测试'/1;", "试\n");
    check("print '测试'/2;", "\n");
    check("print '测试'/3;", "\n");
    check("print '测试'/4;", "\n");
}

#[test]
fn tests_str_rem() {
    check("print 'abc'%0;", "\n");
    check("print 'abc'%1;", "a\n");
    check("print 'abc'%2;", "ab\n");
    check("print 'abc'%3;", "abc\n");
    check("print 'abc'%4;", "abc\n");
    check("print 'abc测试'%2;", "ab\n");
    check("print 'abc测试'%3;", "abc\n");
    check("print 'abc测试'%4;", "abc测\n");
    check("print 'abc测试'%5;", "abc测试\n");
    check("print 'abc测试'%6;", "abc测试\n");
    check("print 'abc测试'%7;", "abc测试\n");
}

#[test]
fn tests_str_neg() {
    check("print -'';", "\n");
    check("print -'a';", "a\n");
    check("print -'ab';", "ba\n");
    check("print -'abc';", "cba\n");
    check("print -'abc测';", "测cba\n");
    check("print -'abc测试';", "试测cba\n");
}

#[test]
fn tests_print_hard_string() {
    check(r#"print 'foo';"#, "foo\n");
    check(r#"print 'foo\n\""';"#, "foo\\n\\\"\"\n");
}

#[test]
fn tests_print_soft_string() {
    check(r#"print "foo\nbar";"#, "foo\nbar\n");
    check(r#"print "foo\"bar";"#, "foo\"bar\n");
    check(r#"print "foo\tbar";"#, "foo\tbar\n");
}

#[test]
fn tests_assign() {
    check("x = 2; print x;", "2\n");
    check("x = 2; x = 3; print x;", "3\n");
    check("x = 2; x = 3; print x; x = 4; print x;", "3\n4\n");
}

#[test]
fn tests_unknown_input() {
    let mut rt = Rt::with_config(Output(String::new()));
    rt.load_source("  @  ");
    let e = rt.proc().unwrap_err();
    assert_eq!(e.msg, "Invalid input");
}

#[test]
fn tests_if_() {
    check(
        r#"
            if 2 {
                if null {
                    print 1;
                }
                print 2;
            }
            print 3;
        "#,
        "2\n3\n",
    );
    check(
        r#"
            if null {
                if null {
                    print 1;
                }
                print 2;
            }
            print 3;
        "#,
        "3\n",
    );
    check(
        r#"
            print 1;
            if 1 {
                print 2;
                if null {
                    print 3;
                    if 2 { print 4; }
                    print 5;
                }
                print 6;
            }
            print 7;
        "#,
        "1\n2\n6\n7\n",
    );
}

#[test]
fn tests_while_loop() {
    check(
        r#"
            i = 0;
            while i < 3 {
                print i;
                i = i + 1;
            }
            print 'i: '+i;
        "#,
        "0\n1\n2\ni: 3\n",
    );
    check(
        r#"
            i = 2;
            while i < 3 {
                print i;
                i = i + 1;
            }
            print 'i: '+i;
        "#,
        "2\ni: 3\n",
    );
    check(
        r#"
            i = 3;
            while i < 3 {
                print i;
                i = i + 1;
            }
            print 'i: '+i;
        "#,
        "i: 3\n",
    );
}
