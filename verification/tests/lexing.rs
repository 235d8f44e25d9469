use syscomp::lexer::{Lexer, Lexme};

fn all_tokens(input: &str) -> Vec<Lexme<'_>> {
    let mut lexer = Lexer::new(input);
    let mut out = Vec::new();
    while let Some(t) = lexer.next() {
        out.push(t);
    }
    out
}

fn span_text(t: &Lexme<'_>) -> String {
    match t {
        Lexme::Fn => "fn".to_string(),
        Lexme::ParenLeft => "(".to_string(),
        Lexme::ParenRight => ")".to_string(),
        Lexme::BraceLeft => "{".to_string(),
        Lexme::BraceRight => "}".to_string(),
        Lexme::DoubleColon => "::".to_string(),
        Lexme::Ident(s) => s.to_string(),
        Lexme::Newline => "\n".to_string(),
        Lexme::Space(s) => s.to_string(),
        Lexme::Integer(n) => format!("{}", n),
        Lexme::Str(s) => s.to_string(),
        Lexme::Comma => ",".to_string(),
    }
}

#[test]
fn tokens_of_simple_function() {
    let toks = all_tokens("fn main() { sys::syscall(1, 'hi', 0) }");
    assert_eq!(
        toks,
        vec![
            Lexme::Fn,
            Lexme::Space(" "),
            Lexme::Ident("main"),
            Lexme::ParenLeft,
            Lexme::ParenRight,
            Lexme::Space(" "),
            Lexme::BraceLeft,
            Lexme::Space(" "),
            Lexme::Ident("sys"),
            Lexme::DoubleColon,
            Lexme::Ident("syscall"),
            Lexme::ParenLeft,
            Lexme::Integer(1),
            Lexme::Comma,
            Lexme::Space(" "),
            Lexme::Str("'hi'"),
            Lexme::Comma,
            Lexme::Space(" "),
            Lexme::Integer(0),
            Lexme::ParenRight,
            Lexme::Space(" "),
            Lexme::BraceRight,
        ]
    );
}

#[test]
fn token_spans_concatenate_to_input() {
    let input = "fn main() {\n    sys::syscall(1, 'hi there', 42)\n}\n";
    let toks = all_tokens(input);
    let rebuilt: String = toks.iter().map(span_text).collect();
    assert_eq!(rebuilt, input);
}

#[test]
fn space_runs_coalesce_but_newlines_stand_alone() {
    let toks = all_tokens("a \t b\nc");
    assert_eq!(
        toks,
        vec![
            Lexme::Ident("a"),
            Lexme::Space(" \t "),
            Lexme::Ident("b"),
            Lexme::Newline,
            Lexme::Ident("c"),
        ]
    );
}

#[test]
fn double_colon_takes_precedence_over_single_colon() {
    let toks = all_tokens("a::b");
    assert_eq!(
        toks,
        vec![Lexme::Ident("a"), Lexme::DoubleColon, Lexme::Ident("b")]
    );
}

#[test]
fn unterminated_string_stops_token_production() {
    let toks = all_tokens("a 'oops");
    assert_eq!(toks, vec![Lexme::Ident("a"), Lexme::Space(" ")]);
}

#[test]
fn unrecognized_character_stops_token_production() {
    let toks = all_tokens("a # b");
    assert_eq!(toks, vec![Lexme::Ident("a"), Lexme::Space(" ")]);
}

#[test]
fn integer_overflow_sets_the_fatal_flag() {
    let mut lexer = Lexer::new("99999999999999999999");
    assert_eq!(lexer.next(), None);
    assert!(lexer.fatal);
}

#[test]
fn largest_integer_still_lexes() {
    let toks = all_tokens("18446744073709551615 ");
    assert_eq!(toks, vec![Lexme::Integer(u64::MAX), Lexme::Space(" ")]);
}

#[test]
fn identifiers_do_not_swallow_digits() {
    let toks = all_tokens("ab7");
    assert_eq!(toks, vec![Lexme::Ident("ab"), Lexme::Integer(7)]);
}

#[test]
fn trailing_identifier_is_produced_at_end_of_input() {
    let toks = all_tokens("fn main");
    assert_eq!(
        toks,
        vec![Lexme::Fn, Lexme::Space(" "), Lexme::Ident("main")]
    );
}

#[test]
fn string_span_keeps_delimiters_and_escape_text() {
    let toks = all_tokens("'hi\\n' ");
    assert_eq!(toks, vec![Lexme::Str("'hi\\n'"), Lexme::Space(" ")]);
}
