use syscomp::parser::{Argument, Parser};

#[test]
fn parses_one_function_with_one_syscall() {
    let mut parser = Parser::new("fn main() { sys::syscall(1, 'hi', 0) }");
    let source = parser.parse();
    assert_eq!(source.functions.len(), 1);
    let f = &source.functions[0];
    assert_eq!(f.ident, "main");
    assert_eq!(f.body.len(), 1);
    let sc = &f.body[0];
    assert_eq!(sc.id, 1);
    assert!(matches!(&sc.arg0, Argument::Str(s) if s == "'hi'"));
    assert!(matches!(sc.arg1, Argument::U64(0)));
    assert!(matches!(sc.arg2, Argument::Absent));
}

#[test]
fn unknown_path_is_ignored() {
    let mut parser = Parser::new("fn main() { sys::syscall(60) foo::bar(1,2,3) }");
    let source = parser.parse();
    assert_eq!(source.functions.len(), 1);
    let f = &source.functions[0];
    assert_eq!(f.body.len(), 1);
    assert_eq!(f.body[0].id, 60);
    assert!(matches!(f.body[0].arg0, Argument::Absent));
}

#[test]
fn top_level_junk_is_discarded() {
    let mut parser = Parser::new("42 'str' junk fn main() {} junk");
    let source = parser.parse();
    assert_eq!(source.functions.len(), 1);
    assert_eq!(source.functions[0].ident, "main");
    assert!(source.functions[0].body.is_empty());
}

#[test]
fn function_without_name_is_dropped() {
    let mut parser = Parser::new("fn () {} fn ok() {}");
    let source = parser.parse();
    assert_eq!(source.functions.len(), 1);
    assert_eq!(source.functions[0].ident, "ok");
}

#[test]
fn function_without_parameter_list_is_dropped() {
    let mut parser = Parser::new("fn broken { } fn ok() {}");
    let source = parser.parse();
    assert_eq!(source.functions.len(), 1);
    assert_eq!(source.functions[0].ident, "ok");
}

#[test]
fn missing_close_paren_keeps_accumulated_syscall() {
    let mut parser = Parser::new("fn main() { sys::syscall(1, 'oops }");
    let source = parser.parse();
    assert_eq!(source.functions.len(), 1);
    let f = &source.functions[0];
    assert_eq!(f.body.len(), 1);
    assert_eq!(f.body[0].id, 1);
    assert!(matches!(f.body[0].arg0, Argument::Absent));
}

#[test]
fn trailing_comma_is_accepted() {
    let mut parser = Parser::new("fn main() { sys::syscall(60, 0,) }");
    let source = parser.parse();
    assert_eq!(source.functions.len(), 1);
    let f = &source.functions[0];
    assert_eq!(f.body.len(), 1);
    assert_eq!(f.body[0].id, 60);
    assert!(matches!(f.body[0].arg0, Argument::U64(0)));
}

#[test]
fn two_functions_in_order() {
    let mut parser = Parser::new("fn a() { sys::syscall(1, 'x') }\nfn b() { sys::syscall(60, 0) }");
    let source = parser.parse();
    assert_eq!(source.functions.len(), 2);
    assert_eq!(source.functions[0].ident, "a");
    assert_eq!(source.functions[1].ident, "b");
    assert_eq!(source.functions[0].body.len(), 1);
    assert_eq!(source.functions[1].body.len(), 1);
}

#[test]
fn do_path_reads_dotted_path() {
    let mut parser = Parser::new("sys::syscall(");
    let path = parser.do_path();
    assert_eq!(path, vec!["sys".to_string(), "syscall".to_string()]);
}

#[test]
fn do_path_records_leading_double_colon() {
    let mut parser = Parser::new("::sys::write");
    let path = parser.do_path();
    assert_eq!(
        path,
        vec!["::".to_string(), "sys".to_string(), "write".to_string()]
    );
}

#[test]
fn do_parameters_requires_empty_list() {
    let mut parser = Parser::new("( )");
    assert!(parser.do_parameters().is_some());
    let mut parser = Parser::new("(x)");
    assert!(parser.do_parameters().is_none());
}

#[test]
fn do_argument_prefers_integer_then_string() {
    let mut parser = Parser::new("7");
    assert!(matches!(parser.do_argument(), Argument::U64(7)));
    let mut parser = Parser::new("'s'");
    assert!(matches!(parser.do_argument(), Argument::Str(s) if s == "'s'"));
    let mut parser = Parser::new(")");
    assert!(matches!(parser.do_argument(), Argument::Absent));
}

#[test]
fn fresh_tree_and_function_are_empty() {
    let source = syscomp::parser::Source::new();
    assert!(source.functions.is_empty());
    let f = syscomp::parser::Function::new("main".to_string());
    assert_eq!(f.ident, "main");
    assert!(f.body.is_empty());
}
