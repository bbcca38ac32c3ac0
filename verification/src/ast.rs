//! The syntax tree and the parser of the top level of a program.
use vstd::prelude::*;
use crate::text::{owned, push_str};
use crate::token::{
    CompileError, ErrorView, MetadataReference, PrimitiveType, TokenKind, TokenStream, TokenView,
    formatted_error, new_error, with_token,
};

verus! {

/// An operation on two operands.
#[derive(Debug)]
pub struct BinaryOP {
    left: Box<ASTnode>,
    right: Box<ASTnode>,
    metadata: MetadataReference,
}

/// A node of the syntax tree.
#[derive(Debug)]
pub enum ASTnode {
    Root { globals: Vec<ASTnode>, functions: Vec<ASTnode> },
    Type { name: String, metadata: MetadataReference },
    Variable { name: String, kind: Box<ASTnode>, metadata: MetadataReference },
    NumberLiteral(usize),
    StringLiteral(String),
    ArrayLiteral(Vec<ASTnode>),
    TupleLiteral(Vec<ASTnode>),
    FunctionCall { name: String, params: Vec<ASTnode>, metadata: MetadataReference },
    Block { nodes: Vec<ASTnode> },
    Assign { dest: Box<ASTnode>, expr: Box<ASTnode>, metadata: MetadataReference },
    VariableDeclaration { name: String, kind: Box<ASTnode>, metadata: MetadataReference },
    FunctionDefinition {
        name: String,
        params: Vec<ASTnode>,
        body: Box<ASTnode>,
        metadata: MetadataReference,
    },
    Add(BinaryOP),
    Sub(BinaryOP),
    Mult(BinaryOP),
    Div(BinaryOP),
    Mod(BinaryOP),
    And(BinaryOP),
    Or(BinaryOP),
    Xor(BinaryOP),
    Not { value: Box<ASTnode>, metadata: MetadataReference },
}

/// How parsing ends: with the (empty) root of the program, with an error, or not at all,
/// because the compiler does not implement what comes next.
#[verifier::ext_equal]
pub enum ParseOutcome {
    Root,
    Fail(ErrorView),
    Stuck,
}

/// The error reported at token `t`, underlined against the files `src`.
pub open spec fn error_at(msg: Seq<char>, t: TokenView, src: Map<Seq<char>, Seq<Seq<char>>>) -> ErrorView {
    formatted_error(with_token(new_error(msg), t), src)
}

/// How parsing a constant declaration ends, `rest` being the tokens after `const`: a name,
/// a colon, a primitive type and `=` are expected in turn; a missing token, a `;` or the `=`
/// (whose expression is not parsed) leave the compiler unfinished.
pub open spec fn const_outcome(rest: Seq<TokenView>, src: Map<Seq<char>, Seq<Seq<char>>>) -> ParseOutcome {
    if rest.len() < 1 || rest[0].kind == TokenKind::SemiColon {
        ParseOutcome::Stuck
    } else if rest[0].kind != TokenKind::Identifer {
        ParseOutcome::Fail(error_at("expected variable name"@, rest[0], src))
    } else if rest.len() < 2 || rest[1].kind == TokenKind::SemiColon {
        ParseOutcome::Stuck
    } else if rest[1].kind != TokenKind::Colon {
        ParseOutcome::Fail(error_at("expected colon"@, rest[1], src))
    } else if rest.len() < 3 || rest[2].kind == TokenKind::SemiColon {
        ParseOutcome::Stuck
    } else if !(rest[2].kind is Primitive) {
        ParseOutcome::Fail(error_at("expected primitive type"@, rest[2], src))
    } else if rest.len() < 4 || rest[3].kind == TokenKind::SemiColon || rest[3].kind
        == TokenKind::Assign {
        ParseOutcome::Stuck
    } else {
        ParseOutcome::Fail(error_at("expected equal sign"@, rest[3], src))
    }
}

/// How parsing the top level of `toks` ends: at once with an empty root when the first token
/// ends the file; functions and statics are not implemented; a constant is parsed; any other
/// statement is an error.
pub open spec fn root_outcome(toks: Seq<TokenView>, src: Map<Seq<char>, Seq<Seq<char>>>) -> ParseOutcome {
    if toks.len() == 0 {
        ParseOutcome::Stuck
    } else if toks[0].kind == TokenKind::EOF {
        ParseOutcome::Root
    } else if toks[0].kind == TokenKind::KWfn || toks[0].kind == TokenKind::KWstatic {
        ParseOutcome::Stuck
    } else if toks[0].kind == TokenKind::KWconst {
        const_outcome(toks.drop_first(), src)
    } else {
        ParseOutcome::Fail(
            error_at(
                "statement `"@ + toks[0].lexeme + "` not allowed in root namespace"@,
                toks[0],
                src,
            ),
        )
    }
}

/// The name of a primitive type as written in source.
pub open spec fn primitive_text(p: PrimitiveType) -> Seq<char> {
    match p {
        PrimitiveType::Unsigned8 => seq!['u', '8'],
        PrimitiveType::Unsigned16 => seq!['u', '1', '6'],
        PrimitiveType::Unsigned32 => seq!['u', '3', '2'],
        PrimitiveType::Unsigned64 => seq!['u', '6', '4'],
        PrimitiveType::Signed8 => seq!['i', '8'],
        PrimitiveType::Signed16 => seq!['i', '1', '6'],
        PrimitiveType::Signed32 => seq!['i', '3', '2'],
        PrimitiveType::Signed64 => seq!['i', '6', '4'],
        PrimitiveType::Float32 => seq!['f', '3', '2'],
    }
}

/// The name of a primitive type as written in source.
pub fn primitive_name(p: PrimitiveType) -> (r: String)
    ensures
        r@ == primitive_text(p),
{
    let r = match p {
        PrimitiveType::Unsigned8 => owned("u8"),
        PrimitiveType::Unsigned16 => owned("u16"),
        PrimitiveType::Unsigned32 => owned("u32"),
        PrimitiveType::Unsigned64 => owned("u64"),
        PrimitiveType::Signed8 => owned("i8"),
        PrimitiveType::Signed16 => owned("i16"),
        PrimitiveType::Signed32 => owned("i32"),
        PrimitiveType::Signed64 => owned("i64"),
        PrimitiveType::Float32 => owned("f32"),
    };
    proof {
        reveal_strlit("u8");
        reveal_strlit("u16");
        reveal_strlit("u32");
        reveal_strlit("u64");
        reveal_strlit("i8");
        reveal_strlit("i16");
        reveal_strlit("i32");
        reveal_strlit("i64");
        reveal_strlit("f32");
        assert(r@ =~= primitive_text(p));
    }
    r
}

/// How many tokens parsing a broken constant declaration takes, `rest` being the tokens after
/// `const`: those up to and including the first one out of place.
pub open spec fn const_consumed(rest: Seq<TokenView>) -> int {
    if rest[0].kind != TokenKind::Identifer {
        1
    } else if rest[1].kind != TokenKind::Colon {
        2
    } else if !(rest[2].kind is Primitive) {
        3
    } else {
        4
    }
}

/// The error for a broken constant declaration, `rest` being the tokens after `const`: at the
/// first of its first four tokens that is out of place (before any `;`), the message for the
/// name, the colon, the primitive type or the `=` expected there, with that token attached.
pub proof fn law_const_error(rest: Seq<TokenView>, src: Map<Seq<char>, Seq<Seq<char>>>, k: int)
    requires
        0 <= k < 4,
        k < rest.len(),
        forall|j: int| 0 <= j <= k ==> rest[j].kind != TokenKind::SemiColon,
        k > 0 ==> rest[0].kind == TokenKind::Identifer,
        k > 1 ==> rest[1].kind == TokenKind::Colon,
        k > 2 ==> rest[2].kind is Primitive,
        k == 0 ==> rest[0].kind != TokenKind::Identifer,
        k == 1 ==> rest[1].kind != TokenKind::Colon,
        k == 2 ==> !(rest[2].kind is Primitive),
        k == 3 ==> rest[3].kind != TokenKind::Assign,
    ensures
        const_outcome(rest, src) == ParseOutcome::Fail(
            error_at(
                if k == 0 {
                    "expected variable name"@
                } else if k == 1 {
                    "expected colon"@
                } else if k == 2 {
                    "expected primitive type"@
                } else {
                    "expected equal sign"@
                },
                rest[k],
                src,
            ),
        ),
        const_consumed(rest) == k + 1,
{
    assert(rest[0].kind != TokenKind::SemiColon);
}

/// The top level of a program: parsing ends with the root exactly when the first token is the
/// end-of-file token; a first token that is none of `fn`, `const`, `static` and the end of the
/// file is refused with `statement `TEXT` not allowed in root namespace`, `TEXT` being its
/// text, at that token.
pub proof fn law_root_statement(toks: Seq<TokenView>, src: Map<Seq<char>, Seq<Seq<char>>>)
    ensures
        (root_outcome(toks, src) == ParseOutcome::Root) <==> (toks.len() > 0 && toks[0].kind
            == TokenKind::EOF),
        toks.len() > 0 && toks[0].kind != TokenKind::EOF && toks[0].kind != TokenKind::KWfn
            && toks[0].kind != TokenKind::KWconst && toks[0].kind != TokenKind::KWstatic
            ==> root_outcome(toks, src) == ParseOutcome::Fail(
            formatted_error(
                ErrorView {
                    error: "statement `"@ + toks[0].lexeme + "` not allowed in root namespace"@,
                    metadata: None,
                    token: Some(toks[0]),
                    formatted: None,
                },
                src,
            ),
        ),
{
    if toks.len() > 0 && toks[0].kind == TokenKind::KWconst {
        assert(const_outcome(toks.drop_first(), src) != ParseOutcome::Root);
    }
}

enum ConstState {
    Initial,
    VariableName(crate::token::Token),
    Colon(crate::token::Token),
    Type(ASTnode),
}

/// Parses a constant declaration after its `const`.
fn parse_const(token_stream: &mut TokenStream) -> (r: Result<ASTnode, CompileError>)
    requires
        const_outcome(old(token_stream)@, old(token_stream).files()) != ParseOutcome::Stuck,
    ensures
        match const_outcome(old(token_stream)@, old(token_stream).files()) {
            ParseOutcome::Fail(e) => {
                &&& r matches Err(x) && x@ == e
                &&& final(token_stream)@ == old(token_stream)@.skip(const_consumed(old(token_stream)@))
                &&& final(token_stream).files() == old(token_stream).files()
            },
            _ => false,
        },
{
    let ghost toks = token_stream@;
    let ghost src = token_stream.files();
    let mut state = ConstState::Initial;
    let mut k: usize = 0;
    while !token_stream.peek_is(TokenKind::SemiColon)
        invariant
            k <= 3,
            toks == old(token_stream)@,
            src == old(token_stream).files(),
            token_stream@ == toks.skip(k as int),
            token_stream.files() == src,
            toks.len() >= k,
            const_outcome(toks, src) != ParseOutcome::Stuck,
            k >= 1 ==> toks[0].kind == TokenKind::Identifer,
            k >= 2 ==> toks[1].kind == TokenKind::Colon,
            k >= 3 ==> toks[2].kind is Primitive,
            k == 0 ==> state is Initial,
            k == 1 ==> state is VariableName,
            k == 2 ==> state is Colon,
            k == 3 ==> state is Type,
        decreases token_stream@.len(),
    {
        let token = match token_stream.next() {
            Some(t) => t,
            None => {
                proof {
                    assert(false);
                }
                return Err(CompileError::new(String::new()));
            },
        };
        assert(token@ == toks[k as int]);
        state = match state {
            ConstState::Initial => {
                if token.is(TokenKind::Identifer) {
                    ConstState::VariableName(token)
                } else {
                    let e = CompileError::new(owned("expected variable name"));
                    return Err(e.attach_token(token).fmt_metadata(token_stream.source()));
                }
            },
            ConstState::VariableName(variable) => {
                if token.is(TokenKind::Colon) {
                    ConstState::Colon(variable)
                } else {
                    let e = CompileError::new(owned("expected colon"));
                    return Err(e.attach_token(token).fmt_metadata(token_stream.source()));
                }
            },
            ConstState::Colon(variable) => match token.kind {
                TokenKind::Primitive(kind) => ConstState::Type(
                    ASTnode::VariableDeclaration {
                        name: variable.lexeme,
                        kind: Box::new(ASTnode::Type { name: primitive_name(kind), metadata: token.metadata }),
                        metadata: variable.metadata,
                    },
                ),
                _ => {
                    let e = CompileError::new(owned("expected primitive type"));
                    return Err(e.attach_token(token).fmt_metadata(token_stream.source()));
                },
            },
            ConstState::Type(_left) => {
                if token.is(TokenKind::Assign) {
                    proof {
                        assert(false);
                    }
                    return Err(CompileError::new(String::new()));
                } else {
                    let e = CompileError::new(owned("expected equal sign"));
                    return Err(e.attach_token(token).fmt_metadata(token_stream.source()));
                }
            },
        };
        k = k + 1;
        assert(toks.skip(k as int) =~= toks.skip((k - 1) as int).drop_first());
    }
    proof {
        assert(false);
    }
    Err(CompileError::new(String::new()))
}

/// Parses the top level of a program.
pub fn root_parse(token_stream: TokenStream) -> (r: Result<ASTnode, CompileError>)
    requires
        root_outcome(token_stream@, token_stream.files()) != ParseOutcome::Stuck,
    ensures
        match root_outcome(token_stream@, token_stream.files()) {
            ParseOutcome::Root => r matches Ok(ASTnode::Root { globals, functions }) && globals@.len() == 0
                && functions@.len() == 0,
            ParseOutcome::Fail(e) => r matches Err(x) && x@ == e,
            ParseOutcome::Stuck => false,
        },
{
    let mut token_stream = token_stream;
    let functions: Vec<ASTnode> = Vec::new();
    let globals: Vec<ASTnode> = Vec::new();
    if token_stream.eof() {
        return Ok(ASTnode::Root { globals, functions });
    }
    let ghost toks = token_stream@;
    let token = match token_stream.next() {
        Some(t) => t,
        None => {
            proof {
                assert(false);
            }
            return Err(CompileError::new(String::new()));
        },
    };
    match token.kind {
        TokenKind::KWconst => {
            assert(token_stream@ == toks.drop_first());
            parse_const(&mut token_stream)
        },
        TokenKind::KWfn | TokenKind::KWstatic => {
            proof {
                assert(false);
            }
            Err(CompileError::new(String::new()))
        },
        _ => {
            let mut msg = owned("statement `");
            push_str(&mut msg, token.lexeme.as_str());
            push_str(&mut msg, "` not allowed in root namespace");
            let e = CompileError::new(msg);
            Err(e.attach_token(token).fmt_metadata(token_stream.source()))
        },
    }
}

/// Whether `root_parse` returns on `token_stream`, rather than reaching a part of the
/// compiler that is not implemented.
pub fn root_parse_implemented(token_stream: &TokenStream) -> (r: bool)
    ensures
        r == (root_outcome(token_stream@, token_stream.files()) != ParseOutcome::Stuck),
{
    let n = token_stream.len();
    if n == 0 {
        return false;
    }
    let first = match token_stream.peek() {
        Some(t) => t,
        None => {
            return false;
        },
    };
    if first.kind == TokenKind::KWfn || first.kind == TokenKind::KWstatic {
        return false;
    }
    if first.kind != TokenKind::KWconst {
        return true;
    }
    let mut i: usize = 1;
    while i < 4
        invariant
            1 <= i <= 4,
            n == token_stream@.len(),
            token_stream@[0].kind == TokenKind::KWconst,
            forall|j: int| 1 <= j < i ==> j < n && token_stream@[j].kind != TokenKind::SemiColon,
            i > 1 ==> token_stream@[1].kind == TokenKind::Identifer,
            i > 2 ==> token_stream@[2].kind == TokenKind::Colon,
            i > 3 ==> token_stream@[3].kind is Primitive,
        decreases 4 - i,
    {
        if i >= n {
            return false;
        }
        let kind = token_stream.kind_at(i);
        if kind == TokenKind::SemiColon {
            return false;
        }
        if i == 1 && kind != TokenKind::Identifer {
            return true;
        }
        if i == 2 && kind != TokenKind::Colon {
            return true;
        }
        if i == 3 && !matches!(kind, TokenKind::Primitive(_)) {
            return true;
        }
        i = i + 1;
    }
    if n <= 4 {
        return false;
    }
    let kind = token_stream.kind_at(4);
    kind != TokenKind::SemiColon && kind != TokenKind::Assign
}

} // verus!
