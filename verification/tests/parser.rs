use ansl::ast::{root_parse, root_parse_implemented, ASTnode};
use ansl::token::{Source, SourceFile, TokenKind, TokenStream};

fn parse_stream(text: &str) -> TokenStream {
    let mut src = Source::new();
    src.add_file(SourceFile::new("main", text));
    let mut ts = TokenStream::new();
    assert!(ts.tokenize_source_tree("main", &src).is_ok());
    ts
}

#[test]
fn empty_program_parses_to_an_empty_root() {
    let ts = parse_stream("");
    assert!(root_parse_implemented(&ts));
    match root_parse(ts) {
        Ok(ASTnode::Root { globals, functions }) => {
            assert!(globals.is_empty());
            assert!(functions.is_empty());
        },
        _ => panic!("expected an empty root"),
    }
}

#[test]
fn comment_only_program_parses_to_an_empty_root() {
    let ts = parse_stream("// nothing here\n");
    assert!(matches!(root_parse(ts), Ok(ASTnode::Root { .. })));
}

#[test]
fn statement_not_allowed_in_root_namespace() {
    let ts = parse_stream("let x;");
    assert!(root_parse_implemented(&ts));
    let e = root_parse(ts).unwrap_err();
    assert_eq!(e.error(), "statement `let` not allowed in root namespace");
    assert_eq!(e.formatted().unwrap(), "let x;\n\t\t ^~~");
    assert_eq!(
        e.to_display_string(),
        "Error in compilation: statement `let` not allowed in root namespace >> <KWlet `let` [1:1]> :\n\tat 1:1 in file main:\n\t\t let x;\n\t\t ^~~"
    );
}

#[test]
fn const_needs_a_name() {
    let e = root_parse(parse_stream("const 5;")).unwrap_err();
    assert_eq!(e.error(), "expected variable name");
    assert_eq!(e.formatted().unwrap(), "const 5;\n\t\t       ^");
}

#[test]
fn const_needs_a_colon() {
    let e = root_parse(parse_stream("const x 5;")).unwrap_err();
    assert_eq!(e.error(), "expected colon");
    assert_eq!(e.formatted().unwrap(), "const x 5;\n\t\t         ^");
}

#[test]
fn const_needs_a_primitive_type() {
    let e = root_parse(parse_stream("const x : y;")).unwrap_err();
    assert_eq!(e.error(), "expected primitive type");
    assert_eq!(e.formatted().unwrap(), "const x : y;\n\t\t           ^");
}

#[test]
fn const_needs_an_equal_sign() {
    let e = root_parse(parse_stream("const x : u8 5;")).unwrap_err();
    assert_eq!(e.error(), "expected equal sign");
    assert_eq!(e.formatted().unwrap(), "const x : u8 5;\n\t\t              ^");
}

#[test]
fn unimplemented_parts_are_recognised() {
    assert!(!root_parse_implemented(&TokenStream::new()));
    assert!(!root_parse_implemented(&parse_stream("fn main() {}")));
    assert!(!root_parse_implemented(&parse_stream("static x : u8 = 1;")));
    assert!(!root_parse_implemented(&parse_stream("const x : u8 = 1;")));
    assert!(!root_parse_implemented(&parse_stream("const x;")));
    assert!(!root_parse_implemented(&parse_stream("const x : u8;")));
    assert!(root_parse_implemented(&parse_stream("const x : u8 5;")));
    assert!(root_parse_implemented(&parse_stream("x;")));
    let ts = parse_stream("x;");
    assert!(ts.peek_is(TokenKind::Identifer));
}
