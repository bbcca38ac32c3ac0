//! The line tokenizer: a state machine over the characters of each line, with the
//! preprocessor commands that include other files.
use vstd::prelude::*;
use crate::text::{
    char_is_alphanumeric, is_ascii_alnum, is_decimal_digit, is_plain_word, owned, push_char, push_str, str_is, str_trim, trimmed, lemma_trimmed_plain,
    unicode_alphanumeric,
};
use crate::token::{lemma_source_finite, token_views, MetadataReference, CompileError, ErrorView, MetadataView, PrimitiveType, Source, Token, TokenKind, TokenView, formatted_error, new_error, with_token};

verus! {

/// What the tokenizer is in the middle of.
#[derive(Debug, Clone, Copy, PartialEq, Eq, Structural)]
pub enum State {
    Inital,
    PreComment,
    Comment,
    DoubleCharToken(char),
    BuildingIdentifier,
    BuildingString,
    EndString,
    StrEsc,
}

/// Where finished tokens go: the program, or the pending preprocessor command.
#[derive(Debug, Clone, Copy, PartialEq, Eq, Structural)]
pub enum Stream {
    Master,
    Preprocessor,
}

/// Where an included file is looked for.
#[derive(Debug, Clone, Copy, PartialEq, Eq, Structural)]
pub enum Location {
    System,
    Module,
    Absolute,
    Unset,
}

/// The preprocessor command being read.
#[derive(Debug, Clone, Copy, PartialEq, Eq, Structural)]
pub enum Command {
    Include(Location),
    If,
    Else,
    Unset,
}

/// Why tokenizing stopped: an error, a file that is not among the files given (with the
/// error that reports it), or an input on which the compiler does not return (an unfinished
/// feature, an operator pair it cannot read, or a file that includes itself).
pub enum Halt {
    Fail(CompileError),
    Missing(CompileError, String),
    Stuck,
}

#[verifier::ext_equal]
pub enum HaltView {
    Fail(ErrorView),
    Missing(ErrorView, Seq<char>),
    Stuck,
}

impl View for Halt {
    type V = HaltView;

    open spec fn view(&self) -> HaltView {
        match self {
            Halt::Fail(e) => HaltView::Fail(e@),
            Halt::Missing(e, p) => HaltView::Missing(e@, p@),
            Halt::Stuck => HaltView::Stuck,
        }
    }
}

pub open spec fn halt_fmt(h: HaltView, src: Map<Seq<char>, Seq<Seq<char>>>) -> HaltView {
    match h {
        HaltView::Fail(e) => HaltView::Fail(formatted_error(e, src)),
        HaltView::Missing(e, p) => HaltView::Missing(formatted_error(e, src), p),
        HaltView::Stuck => HaltView::Stuck,
    }
}

pub open spec fn halt_with_token(h: HaltView, t: TokenView) -> HaltView {
    match h {
        HaltView::Fail(e) => HaltView::Fail(with_token(e, t)),
        HaltView::Missing(e, p) => HaltView::Missing(with_token(e, t), p),
        HaltView::Stuck => HaltView::Stuck,
    }
}

/// The state of a tokenizer between two characters.
#[verifier::ext_equal]
pub struct TokState {
    pub state: State,
    pub lexeme: Seq<char>,
    pub col_start: usize,
    pub stream: Stream,
    pub out: Seq<TokenView>,
    pub pre: Seq<TokenView>,
    pub sources: Map<Seq<char>, Seq<Seq<char>>>,
}

/// A fresh tokenizer that has read the files `sources`.
pub open spec fn init_state(sources: Map<Seq<char>, Seq<Seq<char>>>) -> TokState {
    TokState {
        state: State::Inital,
        lexeme: Seq::empty(),
        col_start: 0,
        stream: Stream::Master,
        out: Seq::empty(),
        pre: Seq::empty(),
        sources,
    }
}

/// A finished token goes to the active stream; the lexeme is cleared and the state reset.
pub open spec fn push_token(t: TokState, tok: TokenView) -> TokState {
    TokState {
        out: if t.stream == Stream::Master { t.out.push(tok) } else { t.out },
        pre: if t.stream == Stream::Preprocessor { t.pre.push(tok) } else { t.pre },
        lexeme: Seq::empty(),
        state: State::Inital,
        ..t
    }
}

pub open spec fn meta(file: Seq<char>, line_n: usize, col: usize) -> MetadataView {
    MetadataView { file_name: file, line_number: line_n, column: col }
}

/// The kind of a token made of the single character `c`, if `c` is one.
pub open spec fn single_char_kind(c: char) -> Option<TokenKind> {
    if c == '{' {
        Some(TokenKind::OpenCurly)
    } else if c == '}' {
        Some(TokenKind::ClosedCurly)
    } else if c == '(' {
        Some(TokenKind::OpenParenth)
    } else if c == ')' {
        Some(TokenKind::ClosedParenth)
    } else if c == '[' {
        Some(TokenKind::OpenBracket)
    } else if c == ']' {
        Some(TokenKind::ClosedBracket)
    } else if c == ',' {
        Some(TokenKind::Comma)
    } else if c == '.' {
        Some(TokenKind::Dot)
    } else if c == '+' {
        Some(TokenKind::Plus)
    } else if c == '*' {
        Some(TokenKind::Star)
    } else if c == ':' {
        Some(TokenKind::Colon)
    } else if c == '&' {
        Some(TokenKind::And)
    } else if c == '^' {
        Some(TokenKind::Carot)
    } else if c == '%' {
        Some(TokenKind::Percent)
    } else if c == '$' {
        Some(TokenKind::Dollar)
    } else if c == '@' {
        Some(TokenKind::At)
    } else if c == '!' {
        Some(TokenKind::Exclaim)
    } else if c == '`' {
        Some(TokenKind::BackTick)
    } else if c == '~' {
        Some(TokenKind::Grave)
    } else if c == '\'' {
        Some(TokenKind::Apostro)
    } else {
        None
    }
}

/// The text recorded for a single-character token: the character itself, except that an
/// apostrophe is recorded as `&`.
pub open spec fn single_char_lexeme(c: char) -> Seq<char> {
    if c == '\'' {
        seq!['&']
    } else {
        seq![c]
    }
}

/// Characters that may start a two-character operator.
pub open spec fn starts_double(c: char) -> bool {
    c == '<' || c == '>' || c == '=' || c == '|' || c == '-'
}

/// The token read when `first` was followed by `chr`, and whether `chr` was consumed by it;
/// `None` where the compiler gives up (`>` after anything but `-`).
pub open spec fn double_char(chr: char, first: char) -> Option<(TokenKind, bool)> {
    if chr == '=' {
        if first == '<' {
            Some((TokenKind::LesserEq, true))
        } else if first == '>' {
            Some((TokenKind::GreaterEq, true))
        } else if first == '=' {
            Some((TokenKind::Compare, true))
        } else if first == '|' {
            Some((TokenKind::DoublePipe, true))
        } else if first == '-' {
            Some((TokenKind::Dash, false))
        } else {
            None
        }
    } else if chr == '>' {
        if first == '-' {
            Some((TokenKind::Arrow, true))
        } else {
            None
        }
    } else if first == '<' {
        Some((TokenKind::Lesser, false))
    } else if first == '>' {
        Some((TokenKind::Greater, false))
    } else if first == '=' {
        Some((TokenKind::Assign, false))
    } else if first == '|' {
        Some((TokenKind::Pipe, false))
    } else if first == '-' {
        Some((TokenKind::Dash, false))
    } else {
        None
    }
}

/// The character that the escape `\c` stands for in a string literal.
pub open spec fn escape_char(c: char) -> Option<char> {
    if c == '\\' {
        Some('\\')
    } else if c == 'n' {
        Some('\n')
    } else if c == 't' {
        Some('\t')
    } else if c == 'r' {
        Some('\r')
    } else if c == '\'' {
        Some('\'')
    } else if c == '"' {
        Some('"')
    } else if c == '0' {
        Some('\0')
    } else if c == 'b' {
        Some('\x08')
    } else {
        None
    }
}

/// The message for an invalid escape `\c`.
pub open spec fn escape_error(c: char) -> Seq<char> {
    "invalid escape sequence >>\"\\"@ + seq![c] + "\"<< "@
}

/// Whether `c` continues a word.
pub open spec fn continues_word(c: char) -> bool {
    c == '_' || if c <= '\x7f' {
        is_ascii_alnum(c)
    } else {
        unicode_alphanumeric(c)
    }
}

/// The kind of a finished word: a number when it starts with a digit, else the keyword that
/// its trimmed text is, else an identifier.
pub open spec fn word_kind(lexeme: Seq<char>) -> TokenKind {
    if lexeme.len() > 0 && is_decimal_digit(lexeme[0]) {
        TokenKind::NumberLiteral
    } else {
        match keyword(trimmed(lexeme)) {
            Some(k) => k,
            None => TokenKind::Identifer,
        }
    }
}

/// The keyword that the word `s` is, if any.
pub open spec fn keyword(s: Seq<char>) -> Option<TokenKind> {
    if s == seq!['f', 'n'] {
        Some(TokenKind::KWfn)
    } else if s == seq!['l', 'e', 't'] {
        Some(TokenKind::KWlet)
    } else if s == seq!['r', 'e', 't', 'u', 'r', 'n'] {
        Some(TokenKind::KWreturn)
    } else if s == seq!['i', 'f'] {
        Some(TokenKind::KWif)
    } else if s == seq!['e', 'l', 's', 'e'] {
        Some(TokenKind::KWelse)
    } else if s == seq!['m', 'a', 't', 'c', 'h'] {
        Some(TokenKind::KWmatch)
    } else if s == seq!['w', 'h', 'i', 'l', 'e'] {
        Some(TokenKind::KWwhile)
    } else if s == seq!['f', 'o', 'r'] {
        Some(TokenKind::KWfor)
    } else if s == seq!['i', 'n'] {
        Some(TokenKind::KWin)
    } else if s == seq!['b', 'r', 'e', 'a', 'k'] {
        Some(TokenKind::KWbreak)
    } else if s == seq!['c', 'o', 'n', 't', 'i', 'n', 'u', 'e'] {
        Some(TokenKind::KWcontinue)
    } else if s == seq!['s', 't', 'r', 'u', 'c', 't'] {
        Some(TokenKind::KWstruct)
    } else if s == seq!['e', 'n', 'u', 'm'] {
        Some(TokenKind::KWenum)
    } else if s == seq!['c', 'o', 'n', 's', 't'] {
        Some(TokenKind::KWconst)
    } else if s == seq!['s', 't', 'a', 't', 'i', 'c'] {
        Some(TokenKind::KWstatic)
    } else if s == seq!['u', '8'] {
        Some(TokenKind::Primitive(PrimitiveType::Unsigned8))
    } else if s == seq!['u', '1', '6'] {
        Some(TokenKind::Primitive(PrimitiveType::Unsigned16))
    } else if s == seq!['u', '3', '2'] {
        Some(TokenKind::Primitive(PrimitiveType::Unsigned32))
    } else if s == seq!['u', '6', '4'] {
        Some(TokenKind::Primitive(PrimitiveType::Unsigned64))
    } else if s == seq!['i', '8'] {
        Some(TokenKind::Primitive(PrimitiveType::Signed8))
    } else if s == seq!['i', '1', '6'] {
        Some(TokenKind::Primitive(PrimitiveType::Signed16))
    } else if s == seq!['i', '3', '2'] {
        Some(TokenKind::Primitive(PrimitiveType::Signed32))
    } else if s == seq!['i', '6', '4'] {
        Some(TokenKind::Primitive(PrimitiveType::Signed64))
    } else if s == seq!['f', '3', '2'] {
        Some(TokenKind::Primitive(PrimitiveType::Float32))
    } else if s == seq!['i', 'n', 'c', 'l', 'u', 'd', 'e'] {
        Some(TokenKind::Include)
    } else {
        None
    }
}


/// The number of files that are given but not on the current include path.
pub open spec fn unvisited(fs: Map<Seq<char>, Seq<Seq<char>>>, active: Set<Seq<char>>) -> nat {
    fs.dom().difference(active).len()
}

pub proof fn lemma_unvisited_insert(
    fs: Map<Seq<char>, Seq<Seq<char>>>,
    active: Set<Seq<char>>,
    p: Seq<char>,
)
    requires
        fs.dom().finite(),
        fs.contains_key(p),
        !active.contains(p),
    ensures
        unvisited(fs, active.insert(p)) + 1 == unvisited(fs, active),
{
    assert(fs.dom().difference(active.insert(p)) =~= fs.dom().difference(active).remove(p));
}

/// The outcome of one step of the tokenizer.
#[verifier::ext_equal]
pub struct StepOut {
    pub st: TokState,
    pub adv: bool,
    pub brk: bool,
    pub halt: Option<HaltView>,
}

/// The outcome of tokenizing lines: the tokens produced before any stop, the final state,
/// and why it stopped, if it did.
#[verifier::ext_equal]
pub struct RunOut {
    pub tokens: Seq<TokenView>,
    pub state: TokState,
    pub halt: Option<HaltView>,
}

pub open spec fn go_on(t: TokState) -> StepOut {
    StepOut { st: t, adv: true, brk: false, halt: None }
}

pub open spec fn stop(t: TokState, h: HaltView) -> StepOut {
    StepOut { st: t, adv: true, brk: false, halt: Some(h) }
}

pub open spec fn missing_message(path: Seq<char>) -> Seq<char> {
    "could not open "@ + path
}

/// The file of the system library named `name`: in the system library repository `~/.ansl`
/// (the home directory's, or the machine's at `/var/lib/ansl`), with the source extension.
pub open spec fn system_include_path(name: Seq<char>) -> Seq<char> {
    "~/.ansl/"@ + name + ".ansl"@
}

/// Tokenizes the file `path` from `fs` with a fresh tokenizer, `active` being the files whose
/// tokenizing is under way.
pub open spec fn file_run(
    fs: Map<Seq<char>, Seq<Seq<char>>>,
    path: Seq<char>,
    active: Set<Seq<char>>,
) -> RunOut
    decreases unvisited(fs, active), 1int,
{
    if !fs.contains_key(path) {
        RunOut {
            tokens: Seq::empty(),
            state: init_state(Map::empty()),
            halt: Some(HaltView::Missing(new_error(missing_message(path)), path)),
        }
    } else if active.contains(path) || !fs.dom().finite() {
        RunOut { tokens: Seq::empty(), state: init_state(Map::empty()), halt: Some(HaltView::Stuck) }
    } else {
        proof {
            lemma_unvisited_insert(fs, active, path);
        }
        lines_run(
            includer(fs, active.insert(path)),
            path,
            fs[path],
            0,
            init_state(Map::empty().insert(path, fs[path])),
            Seq::empty(),
            None,
        )
    }
}

/// Tokenizing a file of `fs` with `active` under way, as a function of the file's name.
pub open spec fn includer(
    fs: Map<Seq<char>, Seq<Seq<char>>>,
    active: Set<Seq<char>>,
) -> spec_fn(Seq<char>) -> RunOut
    decreases unvisited(fs, active) + 1, 0int,
{
    |p: Seq<char>| file_run(fs, p, active)
}

/// Tokenizes `lines` from the `n`th on, after tokens `acc`; an error is formatted against
/// `fmt_src` when given, else against the files the tokenizer has read.
pub open spec fn lines_run(
    inc: spec_fn(Seq<char>) -> RunOut,
    file: Seq<char>,
    lines: Seq<Seq<char>>,
    n: int,
    t: TokState,
    acc: Seq<TokenView>,
    fmt_src: Option<Map<Seq<char>, Seq<Seq<char>>>>,
) -> RunOut
    decreases lines.len() - n,
{
    if n < 0 || n >= lines.len() {
        RunOut { tokens: acc, state: t, halt: None }
    } else {
        let (t1, r) = line_run(inc, file, lines[n], (n + 1) as usize, t);
        match r {
            Ok(toks) => lines_run(inc, file, lines, n + 1, t1, acc + toks, fmt_src),
            Err(h) => RunOut {
                tokens: acc,
                state: t1,
                halt: Some(
                    halt_fmt(
                        h,
                        match fmt_src {
                            Some(s) => s,
                            None => t1.sources,
                        },
                    ),
                ),
            },
        }
    }
}

/// Tokenizes one line: a comment ends with its line; the tokens finished on the line are
/// handed out and the rest of the state carries over to the next line.
#[verifier::opaque]
pub open spec fn line_run(
    inc: spec_fn(Seq<char>) -> RunOut,
    file: Seq<char>,
    line: Seq<char>,
    line_n: usize,
    t: TokState,
) -> (TokState, Result<Seq<TokenView>, HaltView>)
{
    let t1 = if t.state == State::Comment {
        TokState { state: State::Inital, ..t }
    } else {
        t
    };
    chars_run(inc, file, line_n, line, 0, t1)
}

/// Tokenizes the characters of `line` from the `i`th on.
pub open spec fn chars_run(
    inc: spec_fn(Seq<char>) -> RunOut,
    file: Seq<char>,
    line_n: usize,
    line: Seq<char>,
    i: int,
    t: TokState,
) -> (TokState, Result<Seq<TokenView>, HaltView>)
    decreases line.len() - i,
{
    if i < 0 || i >= line.len() {
        (TokState { out: Seq::empty(), ..t }, Ok(t.out))
    } else {
        let s = process(inc, file, line_n, i as usize, line[i], t);
        if s.halt is Some {
            (s.st, Err(s.halt->0))
        } else if s.brk {
            (TokState { out: Seq::empty(), ..s.st }, Ok(s.st.out))
        } else {
            chars_run(inc, file, line_n, line, i + 1, s.st)
        }
    }
}

pub proof fn lemma_chars_run_unfold(
    inc: spec_fn(Seq<char>) -> RunOut,
    file: Seq<char>,
    line_n: usize,
    line: Seq<char>,
    i: int,
    t: TokState,
)
    requires
        0 <= i < line.len(),
    ensures
        ({
            let s = process(inc, file, line_n, i as usize, line[i], t);
            chars_run(inc, file, line_n, line, i, t) == (if s.halt is Some {
                (s.st, Err(s.halt->0))
            } else if s.brk {
                (TokState { out: Seq::empty(), ..s.st }, Ok(s.st.out))
            } else {
                chars_run(inc, file, line_n, line, i + 1, s.st)
            })
        }),
{
}

/// One character of a line: a step, and a second step on the same character when the first
/// did not consume it.
#[verifier::opaque]
pub open spec fn process(
    inc: spec_fn(Seq<char>) -> RunOut,
    file: Seq<char>,
    line_n: usize,
    idx: usize,
    chr: char,
    t: TokState,
) -> StepOut
{
    let s1 = step(inc, file, line_n, idx, chr, t);
    if s1.halt is Some || s1.brk || s1.adv {
        s1
    } else {
        step(inc, file, line_n, idx, chr, s1.st)
    }
}

/// One step of the tokenizer on character `chr` at index `idx` of line `line_n`.
#[verifier::opaque]
pub open spec fn step(
    inc: spec_fn(Seq<char>) -> RunOut,
    file: Seq<char>,
    line_n: usize,
    idx: usize,
    chr: char,
    t: TokState,
) -> StepOut
{
    let m = meta(file, line_n, t.col_start);
    match t.state {
        State::Inital => step_initial(inc, file, line_n, idx, chr, t),
        State::DoubleCharToken(first) => match double_char(chr, first) {
            Some((k, adv)) => StepOut {
                st: push_token(t, TokenView { kind: k, lexeme: seq![first], metadata: m }),
                adv,
                brk: false,
                halt: None,
            },
            None => stop(t, HaltView::Stuck),
        },
        State::PreComment => if chr == '/' {
            go_on(TokState { state: State::Comment, ..t })
        } else {
            StepOut {
                st: push_token(t, TokenView { kind: TokenKind::Slash, lexeme: t.lexeme, metadata: m }),
                adv: false,
                brk: false,
                halt: None,
            }
        },
        State::Comment => StepOut { st: t, adv: true, brk: true, halt: None },
        State::BuildingString => if chr == '"' {
            go_on(TokState { state: State::EndString, ..t })
        } else if chr == '\\' {
            go_on(TokState { state: State::StrEsc, ..t })
        } else {
            go_on(TokState { lexeme: t.lexeme.push(chr), ..t })
        },
        State::StrEsc => match escape_char(chr) {
            Some(e) => go_on(TokState { lexeme: t.lexeme.push(e), state: State::BuildingString, ..t }),
            None => stop(t, HaltView::Fail(new_error(escape_error(chr)))),
        },
        State::BuildingIdentifier => if continues_word(chr) {
            go_on(TokState { lexeme: t.lexeme.push(chr), ..t })
        } else {
            StepOut {
                st: push_token(
                    t,
                    TokenView { kind: word_kind(t.lexeme), lexeme: t.lexeme, metadata: m },
                ),
                adv: false,
                brk: false,
                halt: None,
            }
        },
        State::EndString => StepOut {
            st: push_token(t, TokenView { kind: TokenKind::StringLiteral, lexeme: t.lexeme, metadata: m }),
            adv: false,
            brk: false,
            halt: None,
        },
    }
}

/// A step from the initial state: the character starts a token, a comment, a string or a
/// preprocessor command, ends a preprocessor command, or is skipped.
#[verifier::opaque]
pub open spec fn step_initial(
    inc: spec_fn(Seq<char>) -> RunOut,
    file: Seq<char>,
    line_n: usize,
    idx: usize,
    chr: char,
    t: TokState,
) -> StepOut
{
    let t = TokState { col_start: (idx + 1) as usize, ..t };
    let m = meta(file, line_n, t.col_start);
    if chr == '#' {
        go_on(TokState { stream: Stream::Preprocessor, ..t })
    } else if chr == '/' {
        go_on(TokState { state: State::PreComment, ..t })
    } else if chr == '"' {
        go_on(TokState { state: State::BuildingString, ..t })
    } else if chr == ';' {
        if t.stream == Stream::Preprocessor {
            let t1 = TokState { stream: Stream::Master, ..t };
            let (t2, r) = preproc_run(inc, t1, t1.pre, 0, Command::Unset);
            match r {
                Ok(_) => go_on(t2),
                Err(h) => stop(t2, halt_fmt(h, t2.sources)),
            }
        } else {
            go_on(
                push_token(
                    t,
                    TokenView { kind: TokenKind::SemiColon, lexeme: seq![';'], metadata: m },
                ),
            )
        }
    } else if single_char_kind(chr) is Some {
        go_on(
            push_token(
                t,
                TokenView {
                    kind: single_char_kind(chr)->0,
                    lexeme: single_char_lexeme(chr),
                    metadata: m,
                },
            ),
        )
    } else if starts_double(chr) {
        go_on(TokState { state: State::DoubleCharToken(chr), ..t })
    } else if chr == ' ' || chr == '\t' {
        go_on(t)
    } else {
        go_on(TokState { state: State::BuildingIdentifier, lexeme: t.lexeme.push(chr), ..t })
    }

}

/// Runs the preprocessor command `toks` from its `j`th token on, `cmd` being the command read
/// so far; when all is read, the pending command is cleared.
pub open spec fn preproc_run(
    inc: spec_fn(Seq<char>) -> RunOut,
    t: TokState,
    toks: Seq<TokenView>,
    j: int,
    cmd: Command,
) -> (TokState, Result<(), HaltView>)
    decreases toks.len() - j,
{
    if j < 0 || j >= toks.len() {
        (TokState { pre: Seq::empty(), ..t }, Ok(()))
    } else {
        let tk = toks[j];
        match cmd {
            Command::Unset => if tk.kind == TokenKind::Include {
                preproc_run(inc, t, toks, j + 1, Command::Include(Location::Unset))
            } else if tk.kind == TokenKind::KWif {
                preproc_run(inc, t, toks, j + 1, Command::If)
            } else if tk.kind == TokenKind::KWelse {
                preproc_run(inc, t, toks, j + 1, Command::Else)
            } else {
                (
                    t,
                    Err(
                        HaltView::Fail(
                            with_token(new_error("unexpected token in preprocessor command"@), tk),
                        ),
                    ),
                )
            },
            Command::Include(Location::Unset) => if tk.lexeme == seq!['s', 'y', 's', 't', 'e', 'm'] {
                preproc_run(inc, t, toks, j + 1, Command::Include(Location::System))
            } else if tk.lexeme == seq!['m', 'o', 'd', 'u', 'l', 'e'] {
                preproc_run(inc, t, toks, j + 1, Command::Include(Location::Module))
            } else if tk.lexeme == seq!['a', 'b', 's', 'o', 'l', 'u', 't', 'e'] {
                preproc_run(inc, t, toks, j + 1, Command::Include(Location::Absolute))
            } else {
                (
                    t,
                    Err(
                        HaltView::Fail(
                            with_token(new_error("include subword not recognized"@), tk),
                        ),
                    ),
                )
            },
            Command::Include(Location::System) => {
                let (t2, r) = include_run(inc, t, system_include_path(tk.lexeme));
                match r {
                    Ok(_) => preproc_run(inc, t2, toks, j + 1, cmd),
                    Err(h) => (t2, Err(halt_with_token(h, tk))),
                }
            },
            Command::Include(Location::Absolute) => {
                let (t2, r) = include_run(inc, t, tk.lexeme);
                match r {
                    Ok(_) => preproc_run(inc, t2, toks, j + 1, cmd),
                    Err(h) => (t2, Err(h)),
                }
            },
            _ => (t, Err(HaltView::Stuck)),
        }
    }
}

/// Includes file `path`: its tokens are added to the program and the files it read are
/// recorded.
pub open spec fn include_run(
    inc: spec_fn(Seq<char>) -> RunOut,
    t: TokState,
    path: Seq<char>,
) -> (TokState, Result<(), HaltView>)
{
    let o = inc(path);
    match o.halt {
        None => (
            TokState {
                out: t.out + o.tokens,
                sources: t.sources.union_prefer_right(o.state.sources),
                ..t
            },
            Ok(()),
        ),
        Some(h) => (t, Err(h)),
    }
}


/// The kind of a token made of the single character `c`, if `c` is one.
fn single_char_token(c: char) -> (r: Option<TokenKind>)
    ensures
        r == single_char_kind(c),
{
    match c {
        '{' => Some(TokenKind::OpenCurly),
        '}' => Some(TokenKind::ClosedCurly),
        '(' => Some(TokenKind::OpenParenth),
        ')' => Some(TokenKind::ClosedParenth),
        '[' => Some(TokenKind::OpenBracket),
        ']' => Some(TokenKind::ClosedBracket),
        ',' => Some(TokenKind::Comma),
        '.' => Some(TokenKind::Dot),
        '+' => Some(TokenKind::Plus),
        '*' => Some(TokenKind::Star),
        ':' => Some(TokenKind::Colon),
        '&' => Some(TokenKind::And),
        '^' => Some(TokenKind::Carot),
        '%' => Some(TokenKind::Percent),
        '$' => Some(TokenKind::Dollar),
        '@' => Some(TokenKind::At),
        '!' => Some(TokenKind::Exclaim),
        '`' => Some(TokenKind::BackTick),
        '~' => Some(TokenKind::Grave),
        '\'' => Some(TokenKind::Apostro),
        _ => None,
    }
}

/// The token read when `first` was followed by `chr`, and whether `chr` was consumed.
fn double_char_token(chr: char, first: char) -> (r: Option<(TokenKind, bool)>)
    ensures
        r == double_char(chr, first),
{
    match chr {
        '=' => match first {
            '<' => Some((TokenKind::LesserEq, true)),
            '>' => Some((TokenKind::GreaterEq, true)),
            '=' => Some((TokenKind::Compare, true)),
            '|' => Some((TokenKind::DoublePipe, true)),
            '-' => Some((TokenKind::Dash, false)),
            _ => None,
        },
        '>' => match first {
            '-' => Some((TokenKind::Arrow, true)),
            _ => None,
        },
        _ => match first {
            '<' => Some((TokenKind::Lesser, false)),
            '>' => Some((TokenKind::Greater, false)),
            '=' => Some((TokenKind::Assign, false)),
            '|' => Some((TokenKind::Pipe, false)),
            '-' => Some((TokenKind::Dash, false)),
            _ => None,
        },
    }
}

/// The character that the escape `\c` stands for.
fn escaped(c: char) -> (r: Option<char>)
    ensures
        r == escape_char(c),
{
    match c {
        '\\' => Some('\\'),
        'n' => Some('\n'),
        't' => Some('\t'),
        'r' => Some('\r'),
        '\'' => Some('\''),
        '"' => Some('"'),
        '0' => Some('\0'),
        'b' => Some('\x08'),
        _ => None,
    }
}

/// A string of the one character `c`.
fn char_string(c: char) -> (r: String)
    ensures
        r@ == seq![c],
{
    let mut s = String::new();
    push_char(&mut s, c);
    assert(s@ =~= seq![c]);
    s
}

/// The keyword that the word `s` is, if any.
pub fn match_keyword(s: &str) -> (r: Option<TokenKind>)
    ensures
        r == keyword(s@),
{
    if str_is(s, &['f', 'n']) {
        Some(TokenKind::KWfn)
    } else if str_is(s, &['l', 'e', 't']) {
        Some(TokenKind::KWlet)
    } else if str_is(s, &['r', 'e', 't', 'u', 'r', 'n']) {
        Some(TokenKind::KWreturn)
    } else if str_is(s, &['i', 'f']) {
        Some(TokenKind::KWif)
    } else if str_is(s, &['e', 'l', 's', 'e']) {
        Some(TokenKind::KWelse)
    } else if str_is(s, &['m', 'a', 't', 'c', 'h']) {
        Some(TokenKind::KWmatch)
    } else if str_is(s, &['w', 'h', 'i', 'l', 'e']) {
        Some(TokenKind::KWwhile)
    } else if str_is(s, &['f', 'o', 'r']) {
        Some(TokenKind::KWfor)
    } else if str_is(s, &['i', 'n']) {
        Some(TokenKind::KWin)
    } else if str_is(s, &['b', 'r', 'e', 'a', 'k']) {
        Some(TokenKind::KWbreak)
    } else if str_is(s, &['c', 'o', 'n', 't', 'i', 'n', 'u', 'e']) {
        Some(TokenKind::KWcontinue)
    } else if str_is(s, &['s', 't', 'r', 'u', 'c', 't']) {
        Some(TokenKind::KWstruct)
    } else if str_is(s, &['e', 'n', 'u', 'm']) {
        Some(TokenKind::KWenum)
    } else if str_is(s, &['c', 'o', 'n', 's', 't']) {
        Some(TokenKind::KWconst)
    } else if str_is(s, &['s', 't', 'a', 't', 'i', 'c']) {
        Some(TokenKind::KWstatic)
    } else if str_is(s, &['u', '8']) {
        Some(TokenKind::Primitive(PrimitiveType::Unsigned8))
    } else if str_is(s, &['u', '1', '6']) {
        Some(TokenKind::Primitive(PrimitiveType::Unsigned16))
    } else if str_is(s, &['u', '3', '2']) {
        Some(TokenKind::Primitive(PrimitiveType::Unsigned32))
    } else if str_is(s, &['u', '6', '4']) {
        Some(TokenKind::Primitive(PrimitiveType::Unsigned64))
    } else if str_is(s, &['i', '8']) {
        Some(TokenKind::Primitive(PrimitiveType::Signed8))
    } else if str_is(s, &['i', '1', '6']) {
        Some(TokenKind::Primitive(PrimitiveType::Signed16))
    } else if str_is(s, &['i', '3', '2']) {
        Some(TokenKind::Primitive(PrimitiveType::Signed32))
    } else if str_is(s, &['i', '6', '4']) {
        Some(TokenKind::Primitive(PrimitiveType::Signed64))
    } else if str_is(s, &['f', '3', '2']) {
        Some(TokenKind::Primitive(PrimitiveType::Float32))
    } else if str_is(s, &['i', 'n', 'c', 'l', 'u', 'd', 'e']) {
        Some(TokenKind::Include)
    } else {
        None
    }
}

/// The kind of a finished word.
fn word_token_kind(lexeme: &str) -> (r: TokenKind)
    ensures
        r == word_kind(lexeme@),
{
    let n = lexeme.unicode_len();
    if n > 0 && {
        let c = lexeme.get_char(0);
        '0' <= c && c <= '9'
    } {
        TokenKind::NumberLiteral
    } else {
        match match_keyword(str_trim(lexeme)) {
            Some(k) => k,
            None => TokenKind::Identifer,
        }
    }
}


/// The names that a list of strings holds.
pub open spec fn string_set(v: Seq<String>) -> Set<Seq<char>> {
    Set::new(|p: Seq<char>| exists|i: int| 0 <= i < v.len() && v[i]@ == p)
}

fn contains_string(v: &Vec<String>, s: &str) -> (r: bool)
    ensures
        r == string_set(v@).contains(s@),
{
    let w = crate::text::chars_of(s);
    let mut i: usize = 0;
    while i < v.len()
        invariant
            i <= v@.len(),
            w@ == s@,
            forall|k: int| 0 <= k < i ==> v@[k]@ != s@,
        decreases v@.len() - i,
    {
        if str_is(v[i].as_str(), w.as_slice()) {
            assert(string_set(v@).contains(s@));
            return true;
        }
        i = i + 1;
    }
    false
}

fn with_string(v: &Vec<String>, s: &str) -> (r: Vec<String>)
    ensures
        string_set(r@) == string_set(v@).insert(s@),
{
    let mut r: Vec<String> = Vec::new();
    let mut i: usize = 0;
    while i < v.len()
        invariant
            i <= v@.len(),
            r@.len() == i,
            forall|k: int| 0 <= k < i ==> r@[k]@ == v@[k]@,
        decreases v@.len() - i,
    {
        r.push(v[i].clone());
        i = i + 1;
    }
    r.push(owned(s));
    assert forall|p: Seq<char>| string_set(r@).contains(p) <==> string_set(v@).insert(s@).contains(p) by {
        if string_set(r@).contains(p) {
            let k = choose|k: int| 0 <= k < r@.len() && r@[k]@ == p;
            if k < v@.len() {
                assert(string_set(v@).contains(p));
            }
        }
        if string_set(v@).contains(p) {
            let k = choose|k: int| 0 <= k < v@.len() && v@[k]@ == p;
            assert(r@[k]@ == p);
        }
        if p == s@ {
            assert(r@[v@.len() as int]@ == p);
        }
    }
    assert(string_set(r@) =~= string_set(v@).insert(s@));
    r
}

fn copy_tokens(v: &Vec<Token>) -> (r: Vec<Token>)
    ensures
        token_views(r@) == token_views(v@),
{
    let mut r: Vec<Token> = Vec::new();
    let mut i: usize = 0;
    while i < v.len()
        invariant
            i <= v@.len(),
            token_views(r@) =~= token_views(v@).take(i as int),
        decreases v@.len() - i,
    {
        let ghost before = token_views(r@);
        r.push(v[i].duplicate());
        assert(token_views(r@) =~= before.push(v@[i as int]@));
        assert(token_views(v@).take(i + 1) =~= token_views(v@).take(i as int).push(v@[i as int]@));
        i = i + 1;
    }
    assert(token_views(v@).take(v@.len() as int) =~= token_views(v@));
    r
}

pub open spec fn opt_halt_view(h: Option<Halt>) -> Option<HaltView> {
    match h {
        Some(x) => Some(x@),
        None => None,
    }
}

pub open spec fn opt_source_view(s: Option<&Source>) -> Option<Map<Seq<char>, Seq<Seq<char>>>> {
    match s {
        Some(x) => Some(x@),
        None => None,
    }
}

fn halt_formatted(h: Halt, src: &Source) -> (r: Halt)
    ensures
        r@ == halt_fmt(h@, src@),
{
    match h {
        Halt::Fail(e) => Halt::Fail(e.fmt_metadata(src)),
        Halt::Missing(e, p) => Halt::Missing(e.fmt_metadata(src), p),
        Halt::Stuck => Halt::Stuck,
    }
}

fn halt_attached(h: Halt, t: Token) -> (r: Halt)
    ensures
        r@ == halt_with_token(h@, t@),
{
    match h {
        Halt::Fail(e) => Halt::Fail(e.attach_token(t)),
        Halt::Missing(e, p) => Halt::Missing(e.attach_token(t), p),
        Halt::Stuck => Halt::Stuck,
    }
}

/// The tokenizer of one file.
pub struct Tokenizer {
    state: State,
    sources: Source,
    active_lexeme: String,
    lexeme_column_start: usize,
    active_stream: Stream,
    token_stream: Vec<Token>,
    preprocessor_stream: Vec<Token>,
}

impl View for Tokenizer {
    type V = TokState;

    closed spec fn view(&self) -> TokState {
        TokState {
            state: self.state,
            lexeme: self.active_lexeme@,
            col_start: self.lexeme_column_start,
            stream: self.active_stream,
            out: token_views(self.token_stream@),
            pre: token_views(self.preprocessor_stream@),
            sources: self.sources@,
        }
    }
}

impl Tokenizer {
    /// A fresh tokenizer that has read the files `sources`.
    fn new(sources: Source) -> (r: Self)
        ensures
            r@ == init_state(sources@),
    {
        let r = Tokenizer {
            state: State::Inital,
            sources,
            active_lexeme: String::new(),
            lexeme_column_start: 0,
            active_stream: Stream::Master,
            token_stream: Vec::new(),
            preprocessor_stream: Vec::new(),
        };
        assert(token_views(r.token_stream@) =~= Seq::<TokenView>::empty());
        assert(token_views(r.preprocessor_stream@) =~= Seq::<TokenView>::empty());
        r
    }

    fn push_token(&mut self, token: Token)
        ensures
            final(self)@ == push_token(old(self)@, token@),
    {
        let ghost tv = token@;
        match self.active_stream {
            Stream::Master => {
                let ghost before = token_views(self.token_stream@);
                self.token_stream.push(token);
                assert(token_views(self.token_stream@) =~= before.push(tv));
            },
            Stream::Preprocessor => {
                let ghost before = token_views(self.preprocessor_stream@);
                self.preprocessor_stream.push(token);
                assert(token_views(self.preprocessor_stream@) =~= before.push(tv));
            },
        }
        self.active_lexeme = String::new();
        self.state = State::Inital;
    }

    /// Hands out the tokens finished so far.
    fn return_token_stream(&mut self) -> (r: Vec<Token>)
        ensures
            token_views(r@) == old(self)@.out,
            final(self)@ == (TokState { out: Seq::empty(), ..old(self)@ }),
    {
        let mut r: Vec<Token> = Vec::new();
        std::mem::swap(&mut r, &mut self.token_stream);
        assert(token_views(self.token_stream@) =~= Seq::<TokenView>::empty());
        r
    }

    /// A step from the initial state.
    fn step_initial(
        &mut self,
        fs: &Source,
        active: &Vec<String>,
        file_name: &str,
        line_n: usize,
        idx: usize,
        chr: char,
    ) -> (r: (bool, bool, Option<Halt>))
        requires
            idx < usize::MAX,
        ensures
            ({
                let s = step_initial(includer(fs@, string_set(active@)), file_name@, line_n, idx, chr, old(self)@);
                &&& final(self)@ == s.st
                &&& r.0 == s.adv
                &&& r.1 == s.brk
                &&& opt_halt_view(r.2) == s.halt
            }),
        decreases unvisited(fs@, string_set(active@)) + 1, 15int,
    {
        reveal(step_initial);
        self.lexeme_column_start = idx + 1;
        let m = MetadataReference::new(file_name, line_n, self.lexeme_column_start);
        if chr == '#' {
            self.active_stream = Stream::Preprocessor;
            (true, false, None)
        } else if chr == '/' {
            self.state = State::PreComment;
            (true, false, None)
        } else if chr == '"' {
            self.state = State::BuildingString;
            (true, false, None)
        } else if chr == ';' {
            match self.active_stream {
                Stream::Preprocessor => {
                    self.active_stream = Stream::Master;
                    match self.execute_preprocessor(fs, active) {
                        Ok(()) => (true, false, None),
                        Err(h) => {
                            let h2 = halt_formatted(h, &self.sources);
                            (true, false, Some(h2))
                        },
                    }
                },
                Stream::Master => {
                    let lx = char_string(';');
                    let token = Token::new(TokenKind::SemiColon, lx.as_str(), m);
                    self.push_token(token);
                    (true, false, None)
                },
            }
        } else {
            match single_char_token(chr) {
                Some(kind) => {
                    let lx = if chr == '\'' {
                        char_string('&')
                    } else {
                        char_string(chr)
                    };
                    let token = Token::new(kind, lx.as_str(), m);
                    self.push_token(token);
                    (true, false, None)
                },
                None => {
                    if chr == '<' || chr == '>' || chr == '=' || chr == '|' || chr == '-' {
                        self.state = State::DoubleCharToken(chr);
                    } else if chr == ' ' || chr == '\t' {
                    } else {
                        self.state = State::BuildingIdentifier;
                        push_char(&mut self.active_lexeme, chr);
                    }
                    (true, false, None)
                },
            }
        }

    }

    /// One step on character `chr` at index `idx` of line `line_n`: whether the character was
    /// consumed, whether the rest of the line is skipped, and why tokenizing stopped, if it did.
    fn step(
        &mut self,
        fs: &Source,
        active: &Vec<String>,
        file_name: &str,
        line_n: usize,
        idx: usize,
        chr: char,
    ) -> (r: (bool, bool, Option<Halt>))
        requires
            idx < usize::MAX,
        ensures
            ({
                let s = step(includer(fs@, string_set(active@)), file_name@, line_n, idx, chr, old(self)@);
                &&& final(self)@ == s.st
                &&& r.0 == s.adv
                &&& r.1 == s.brk
                &&& opt_halt_view(r.2) == s.halt
            }),
        decreases unvisited(fs@, string_set(active@)) + 1, 20int,
    {
        reveal(step);
        match self.state {
            State::Inital => self.step_initial(fs, active, file_name, line_n, idx, chr),
            State::DoubleCharToken(first) => {
                match double_char_token(chr, first) {
                    Some((kind, adv)) => {
                        let m = MetadataReference::new(file_name, line_n, self.lexeme_column_start);
                        let lx = char_string(first);
                        let token = Token::new(kind, lx.as_str(), m);
                        self.push_token(token);
                        (adv, false, None)
                    },
                    None => (true, false, Some(Halt::Stuck)),
                }
            },
            State::PreComment => {
                if chr == '/' {
                    self.state = State::Comment;
                    (true, false, None)
                } else {
                    let m = MetadataReference::new(file_name, line_n, self.lexeme_column_start);
                    let token = Token::new(TokenKind::Slash, self.active_lexeme.as_str(), m);
                    self.push_token(token);
                    (false, false, None)
                }
            },
            State::Comment => (true, true, None),
            State::BuildingString => {
                if chr == '"' {
                    self.state = State::EndString;
                } else if chr == '\\' {
                    self.state = State::StrEsc;
                } else {
                    push_char(&mut self.active_lexeme, chr);
                }
                (true, false, None)
            },
            State::StrEsc => {
                match escaped(chr) {
                    Some(e) => {
                        push_char(&mut self.active_lexeme, e);
                        self.state = State::BuildingString;
                        (true, false, None)
                    },
                    None => {
                        let mut msg = owned("invalid escape sequence >>\"\\");
                        push_char(&mut msg, chr);
                        push_str(&mut msg, "\"<< ");
                        (true, false, Some(Halt::Fail(CompileError::new(msg))))
                    },
                }
            },
            State::BuildingIdentifier => {
                if chr == '_' || (char_is_alphanumeric(chr) && chr != ' ' && chr != '\t') {
                    push_char(&mut self.active_lexeme, chr);
                    (true, false, None)
                } else {
                    let kind = word_token_kind(self.active_lexeme.as_str());
                    let m = MetadataReference::new(file_name, line_n, self.lexeme_column_start);
                    let token = Token::new(kind, self.active_lexeme.as_str(), m);
                    self.push_token(token);
                    (false, false, None)
                }
            },
            State::EndString => {
                let m = MetadataReference::new(file_name, line_n, self.lexeme_column_start);
                let token = Token::new(TokenKind::StringLiteral, self.active_lexeme.as_str(), m);
                self.push_token(token);
                (false, false, None)
            },
        }
    }

    /// One character of a line: a step, and a second one on the same character when the first
    /// did not consume it. Gives whether the rest of the line is skipped and why tokenizing
    /// stopped, if it did.
    fn process_char(
        &mut self,
        fs: &Source,
        active: &Vec<String>,
        file_name: &str,
        line_n: usize,
        idx: usize,
        chr: char,
    ) -> (r: (bool, Option<Halt>))
        requires
            idx < usize::MAX,
        ensures
            ({
                let s = process(includer(fs@, string_set(active@)), file_name@, line_n, idx, chr, old(self)@);
                &&& final(self)@ == s.st
                &&& r.0 == s.brk
                &&& opt_halt_view(r.1) == s.halt
            }),
        decreases unvisited(fs@, string_set(active@)) + 1, 30int,
    {
        reveal(process);
        let ghost t0 = self@;
        assert(process(includer(fs@, string_set(active@)), file_name@, line_n, idx, chr, t0) == ({
            let s1 = step(includer(fs@, string_set(active@)), file_name@, line_n, idx, chr, t0);
            if s1.halt is Some || s1.brk || s1.adv { s1 } else { step(includer(fs@, string_set(active@)), file_name@, line_n, idx, chr, s1.st) }
        }));
        let (adv, brk, h) = self.step(fs, active, file_name, line_n, idx, chr);
        if h.is_some() || brk || adv {
            return (brk, h);
        }
        let (_adv2, brk2, h2) = self.step(fs, active, file_name, line_n, idx, chr);
        (brk2, h2)
    }

    /// Tokenizes one line and hands out the tokens finished on it.
    fn parse_line(
        &mut self,
        fs: &Source,
        active: &Vec<String>,
        file_name: &str,
        line: &str,
        line_n: usize,
    ) -> (r: Result<Vec<Token>, Halt>)
        ensures
            ({
                let (t, res) = line_run(includer(fs@, string_set(active@)), file_name@, line@, line_n, old(self)@);
                &&& final(self)@ == t
                &&& match (r, res) {
                    (Ok(v), Ok(s)) => token_views(v@) == s,
                    (Err(h), Err(hv)) => h@ == hv,
                    _ => false,
                }
            }),
        decreases unvisited(fs@, string_set(active@)) + 1, 50int,
    {
        reveal(line_run);
        if self.state == State::Comment {
            self.state = State::Inital;
        }
        let ghost t1 = self@;
        assert(t1 =~= (if old(self)@.state == State::Comment {
            TokState { state: State::Inital, ..old(self)@ }
        } else {
            old(self)@
        }));
        assert(line_run(includer(fs@, string_set(active@)), file_name@, line@, line_n, old(self)@) == chars_run(
            includer(fs@, string_set(active@)),
            file_name@,
            line_n,
            line@,
            0,
            t1,
        ));
        let chars = crate::text::chars_of(line);
        let n = chars.len();
        let mut i: usize = 0;
        while i < n
            invariant
                chars@ == line@,
                n == chars@.len(),
                i <= n,
                line_run(includer(fs@, string_set(active@)), file_name@, line@, line_n, old(self)@)
                    == chars_run(includer(fs@, string_set(active@)), file_name@, line_n, line@, 0, t1),
                chars_run(includer(fs@, string_set(active@)), file_name@, line_n, line@, 0, t1)
                    == chars_run(includer(fs@, string_set(active@)), file_name@, line_n, line@, i as int, self@),
            decreases n - i,
        {
            let c = chars[i];
            let ghost before = self@;
            let (brk, h) = self.process_char(fs, active, file_name, line_n, i, c);
            assert(line@[i as int] == c);
            let ghost s = process(includer(fs@, string_set(active@)), file_name@, line_n, i, c, before);
            proof {
                lemma_chars_run_unfold(includer(fs@, string_set(active@)), file_name@, line_n, line@, i as int, before);
            }
            if let Some(h) = h {
                assert(chars_run(includer(fs@, string_set(active@)), file_name@, line_n, line@, i as int, before)
                    == (s.st, Err::<Seq<TokenView>, HaltView>(h@)));
                return Err(h);
            }
            if brk {
                let v = self.return_token_stream();
                assert(chars_run(includer(fs@, string_set(active@)), file_name@, line_n, line@, i as int, before)
                    == (self@, Ok::<Seq<TokenView>, HaltView>(token_views(v@))));
                return Ok(v);
            }
            i = i + 1;
        }
        Ok(self.return_token_stream())
    }

    /// Runs the pending preprocessor command.
    fn execute_preprocessor(&mut self, fs: &Source, active: &Vec<String>) -> (r: Result<(), Halt>)
        ensures
            ({
                let (t, res) = preproc_run(
                    includer(fs@, string_set(active@)),
                    old(self)@,
                    old(self)@.pre,
                    0,
                    Command::Unset,
                );
                &&& final(self)@ == t
                &&& match (r, res) {
                    (Ok(_), Ok(_)) => true,
                    (Err(h), Err(hv)) => h@ == hv,
                    _ => false,
                }
            }),
        decreases unvisited(fs@, string_set(active@)) + 1, 10int,
    {
        let toks = copy_tokens(&self.preprocessor_stream);
        let ghost tv = token_views(toks@);
        let mut command = Command::Unset;
        let mut j: usize = 0;
        while j < toks.len()
            invariant
                j <= toks@.len(),
                tv == token_views(toks@),
                tv == old(self)@.pre,
                preproc_run(includer(fs@, string_set(active@)), old(self)@, tv, 0, Command::Unset)
                    == preproc_run(includer(fs@, string_set(active@)), self@, tv, j as int, command),
            decreases toks@.len() - j,
        {
            let token = &toks[j];
            assert(tv[j as int] == token@);
            match command {
                Command::Unset => {
                    if token.kind == TokenKind::Include {
                        command = Command::Include(Location::Unset);
                    } else if token.kind == TokenKind::KWif {
                        command = Command::If;
                    } else if token.kind == TokenKind::KWelse {
                        command = Command::Else;
                    } else {
                        let e = CompileError::new(owned("unexpected token in preprocessor command"));
                        return Err(Halt::Fail(e.attach_token(token.duplicate())));
                    }
                },
                Command::Include(Location::Unset) => {
                    if str_is(token.lexeme.as_str(), &['s', 'y', 's', 't', 'e', 'm']) {
                        command = Command::Include(Location::System);
                    } else if str_is(token.lexeme.as_str(), &['m', 'o', 'd', 'u', 'l', 'e']) {
                        command = Command::Include(Location::Module);
                    } else if str_is(token.lexeme.as_str(), &['a', 'b', 's', 'o', 'l', 'u', 't', 'e']) {
                        command = Command::Include(Location::Absolute);
                    } else {
                        let e = CompileError::new(owned("include subword not recognized"));
                        return Err(Halt::Fail(e.attach_token(token.duplicate())));
                    }
                },
                Command::Include(Location::System) => {
                    let mut path = owned("~/.ansl/");
                    push_str(&mut path, token.lexeme.as_str());
                    push_str(&mut path, ".ansl");
                    match self.include_file(fs, active, path.as_str()) {
                        Ok(()) => {},
                        Err(h) => {
                            return Err(halt_attached(h, token.duplicate()));
                        },
                    }
                },
                Command::Include(Location::Absolute) => {
                    match self.include_file(fs, active, token.lexeme.as_str()) {
                        Ok(()) => {},
                        Err(h) => {
                            return Err(h);
                        },
                    }
                },
                _ => {
                    return Err(Halt::Stuck);
                },
            }
            j = j + 1;
        }
        self.preprocessor_stream = Vec::new();
        assert(token_views(self.preprocessor_stream@) =~= Seq::<TokenView>::empty());
        Ok(())
    }

    /// Tokenizes file `file` with a fresh tokenizer and adds its tokens here.
    fn include_file(&mut self, fs: &Source, active: &Vec<String>, file: &str) -> (r: Result<(), Halt>)
        ensures
            ({
                let (t, res) = include_run(includer(fs@, string_set(active@)), old(self)@, file@);
                &&& final(self)@ == t
                &&& match (r, res) {
                    (Ok(_), Ok(_)) => true,
                    (Err(h), Err(hv)) => h@ == hv,
                    _ => false,
                }
            }),
        decreases unvisited(fs@, string_set(active@)) + 1, 0int,
    {
        let (toks, srcs, halt) = run_file(fs, file, active);
        match halt {
            None => {
                let mut toks = toks;
                let ghost before = token_views(self.token_stream@);
                let ghost added = token_views(toks@);
                self.token_stream.append(&mut toks);
                assert(token_views(self.token_stream@) =~= before + added);
                self.sources.merge(srcs);
                Ok(())
            },
            Some(h) => Err(h),
        }
    }

    /// Tokenizes `lines` of file `file_name`; an error is formatted against `fmt_src` when
    /// given, else against the files read so far.
    fn run_lines(
        &mut self,
        fs: &Source,
        active: &Vec<String>,
        file_name: &str,
        lines: &Vec<String>,
        fmt_src: Option<&Source>,
    ) -> (r: (Vec<Token>, Option<Halt>))
        ensures
            ({
                let o = lines_run(
                    includer(fs@, string_set(active@)),
                    file_name@,
                    crate::token::views(lines@),
                    0,
                    old(self)@,
                    Seq::empty(),
                    opt_source_view(fmt_src),
                );
                &&& token_views(r.0@) == o.tokens
                &&& final(self)@ == o.state
                &&& opt_halt_view(r.1) == o.halt
            }),
        decreases unvisited(fs@, string_set(active@)) + 1, 60int,
    {
        let ghost lv = crate::token::views(lines@);
        let mut acc: Vec<Token> = Vec::new();
        let mut n: usize = 0;
        assert(token_views(acc@) =~= Seq::<TokenView>::empty());
        while n < lines.len()
            invariant
                n <= lines@.len(),
                lv == crate::token::views(lines@),
                lines_run(includer(fs@, string_set(active@)), file_name@, lv, 0, old(self)@, Seq::empty(), opt_source_view(fmt_src))
                    == lines_run(includer(fs@, string_set(active@)), file_name@, lv, n as int, self@, token_views(acc@), opt_source_view(fmt_src)),
            decreases lines@.len() - n,
        {
            assert(lv[n as int] == lines@[n as int]@);
            match self.parse_line(fs, active, file_name, lines[n].as_str(), n + 1) {
                Ok(toks) => {
                    let mut toks = toks;
                    let ghost before = token_views(acc@);
                    let ghost added = token_views(toks@);
                    acc.append(&mut toks);
                    assert(token_views(acc@) =~= before + added);
                },
                Err(h) => {
                    let h2 = match fmt_src {
                        Some(s) => halt_formatted(h, s),
                        None => halt_formatted(h, &self.sources),
                    };
                    return (acc, Some(h2));
                },
            }
            n = n + 1;
        }
        (acc, None)
    }
}

/// Tokenizes file `path` from `fs` with a fresh tokenizer; `active` are the files whose
/// tokenizing is under way. Gives the tokens, the files read and why it stopped, if it did.
fn run_file(fs: &Source, path: &str, active: &Vec<String>) -> (r: (Vec<Token>, Source, Option<Halt>))
    ensures
        ({
            let o = file_run(fs@, path@, string_set(active@));
            &&& token_views(r.0@) == o.tokens
            &&& r.1@ == o.state.sources
            &&& opt_halt_view(r.2) == o.halt
        }),
    decreases unvisited(fs@, string_set(active@)), 70int,
{
    proof {
        lemma_source_finite(fs);
    }
    let file = match fs.get(path) {
        Some(f) => f,
        None => {
            let mut msg = owned("could not open ");
            push_str(&mut msg, path);
            let v: Vec<Token> = Vec::new();
            assert(token_views(v@) =~= Seq::<TokenView>::empty());
            return (v, Source::new(), Some(Halt::Missing(CompileError::new(msg), owned(path))));
        },
    };
    if contains_string(active, path) {
        let v: Vec<Token> = Vec::new();
        assert(token_views(v@) =~= Seq::<TokenView>::empty());
        return (v, Source::new(), Some(Halt::Stuck));
    }
    let new_active = with_string(active, path);
    proof {
        lemma_unvisited_insert(fs@, string_set(active@), path@);
    }
    let mut sources = Source::new();
    sources.add_file(file.duplicate());
    let mut tokenizer = Tokenizer::new(sources);
    let (toks, halt) = tokenizer.run_lines(fs, &new_active, path, file.lines(), None);
    (toks, tokenizer.sources, halt)
}


/// Tokenizes the entry file `path` of `fs` as a source tree: its lines, with the files its
/// preprocessor commands include; an error on one of its own lines is formatted against `own`.
pub open spec fn tree_run(
    fs: Map<Seq<char>, Seq<Seq<char>>>,
    path: Seq<char>,
    own: Map<Seq<char>, Seq<Seq<char>>>,
) -> RunOut {
    if !fs.contains_key(path) {
        RunOut {
            tokens: Seq::empty(),
            state: init_state(Map::empty()),
            halt: Some(HaltView::Missing(new_error(missing_message(path)), path)),
        }
    } else if !fs.dom().finite() {
        RunOut { tokens: Seq::empty(), state: init_state(Map::empty()), halt: Some(HaltView::Stuck) }
    } else {
        lines_run(
            includer(fs, Set::empty().insert(path)),
            path,
            fs[path],
            0,
            init_state(Map::empty().insert(path, fs[path])),
            Seq::empty(),
            Some(own),
        )
    }
}

/// Tokenizes the entry file `file_path` of `files`: the tokens, the files read and why it
/// stopped, if it did.
pub fn tokenize_tree(files: &Source, file_path: &str, own: &Source) -> (r: (Vec<Token>, Source, Option<Halt>))
    ensures
        ({
            let o = tree_run(files@, file_path@, own@);
            &&& token_views(r.0@) == o.tokens
            &&& r.1@ == o.state.sources
            &&& opt_halt_view(r.2) == o.halt
        }),
{
    proof {
        lemma_source_finite(files);
    }
    let file = match files.get(file_path) {
        Some(f) => f,
        None => {
            let mut msg = owned("could not open ");
            push_str(&mut msg, file_path);
            let v: Vec<Token> = Vec::new();
            assert(token_views(v@) =~= Seq::<TokenView>::empty());
            return (v, Source::new(), Some(Halt::Missing(CompileError::new(msg), owned(file_path))));
        },
    };
    let empty: Vec<String> = Vec::new();
    let active = with_string(&empty, file_path);
    assert(string_set(empty@) =~= Set::<Seq<char>>::empty());
    let mut sources = Source::new();
    sources.add_file(file.duplicate());
    let mut tokenizer = Tokenizer::new(sources);
    let (toks, halt) = tokenizer.run_lines(files, &active, file_path, file.lines(), Some(own));
    (toks, tokenizer.sources, halt)
}
} // verus!

verus! {

/// The location word `absolute`.
pub open spec fn absolute_word() -> Seq<char> {
    seq!['a', 'b', 's', 'o', 'l', 'u', 't', 'e']
}

/// The location word `system`.
pub open spec fn system_word() -> Seq<char> {
    seq!['s', 'y', 's', 't', 'e', 'm']
}

/// The names of an include line, each after a space.
pub open spec fn names_text(names: Seq<Seq<char>>) -> Seq<char>
    decreases names.len(),
{
    if names.len() == 0 {
        Seq::empty()
    } else {
        names_text(names.drop_last()) + seq![' '] + names.last()
    }
}

/// The line `#include LOCATION NAME_1 ... NAME_n;`.
pub open spec fn include_line(location: Seq<char>, names: Seq<Seq<char>>) -> Seq<char> {
    seq!['#', 'i', 'n', 'c', 'l', 'u', 'd', 'e', ' '] + location + names_text(names) + seq![';']
}

/// The file that `#include LOCATION NAME;` names: `NAME` itself for `absolute`, the system
/// library's file of that name for `system`.
pub open spec fn included_path(location: Seq<char>, name: Seq<char>) -> Seq<char> {
    if location == system_word() {
        system_include_path(name)
    } else {
        name
    }
}

/// In the middle of a word, a stretch of word characters is added to the word.
proof fn lemma_word_run(
    inc: spec_fn(Seq<char>) -> RunOut,
    file: Seq<char>,
    line_n: usize,
    line: Seq<char>,
    i: int,
    j: int,
    t: TokState,
)
    requires
        0 <= i <= j <= line.len(),
        t.state == State::BuildingIdentifier,
        forall|k: int| i <= k < j ==> continues_word(#[trigger] line[k]),
    ensures
        chars_run(inc, file, line_n, line, i, t) == chars_run(
            inc,
            file,
            line_n,
            line,
            j,
            TokState { lexeme: t.lexeme + line.subrange(i, j), ..t },
        ),
    decreases j - i,
{
    if i == j {
        assert(t.lexeme + line.subrange(i, j) =~= t.lexeme);
        assert(TokState { lexeme: t.lexeme + line.subrange(i, j), ..t } =~= t);
    } else {
        reveal(process);
        reveal(step);
        lemma_chars_run_unfold(inc, file, line_n, line, i, t);
        let t1 = TokState { lexeme: t.lexeme.push(line[i]), ..t };
        assert(process(inc, file, line_n, i as usize, line[i], t) == go_on(t1));
        lemma_word_run(inc, file, line_n, line, i + 1, j, t1);
        assert(t1.lexeme + line.subrange(i + 1, j) =~= t.lexeme + line.subrange(i, j));
    }
}

/// A word character read between tokens starts a word there.
proof fn lemma_word_start(
    inc: spec_fn(Seq<char>) -> RunOut,
    file: Seq<char>,
    line_n: usize,
    idx: usize,
    c: char,
    t: TokState,
)
    requires
        t.state == State::Inital,
        continues_word(c),
        idx < usize::MAX,
    ensures
        process(inc, file, line_n, idx, c, t) == go_on(
            TokState {
                col_start: (idx + 1) as usize,
                state: State::BuildingIdentifier,
                lexeme: t.lexeme.push(c),
                ..t
            },
        ),
{
    reveal(process);
    reveal(step);
    reveal(step_initial);
}

/// A space after a word ends the word: its token is handed to the active stream.
proof fn lemma_word_end_space(
    inc: spec_fn(Seq<char>) -> RunOut,
    file: Seq<char>,
    line_n: usize,
    idx: usize,
    t: TokState,
)
    requires
        t.state == State::BuildingIdentifier,
        idx < usize::MAX,
    ensures
        process(inc, file, line_n, idx, ' ', t) == go_on(
            TokState {
                col_start: (idx + 1) as usize,
                ..push_token(
                    t,
                    TokenView {
                        kind: word_kind(t.lexeme),
                        lexeme: t.lexeme,
                        metadata: meta(file, line_n, t.col_start),
                    },
                )
            },
        ),
{
    reveal(process);
    reveal(step);
    reveal(step_initial);
}


/// `#` between tokens opens a preprocessor command.
proof fn lemma_command_start(
    inc: spec_fn(Seq<char>) -> RunOut,
    file: Seq<char>,
    line_n: usize,
    idx: usize,
    t: TokState,
)
    requires
        t.state == State::Inital,
        idx < usize::MAX,
    ensures
        process(inc, file, line_n, idx, '#', t) == go_on(
            TokState { col_start: (idx + 1) as usize, stream: Stream::Preprocessor, ..t },
        ),
{
    reveal(process);
    reveal(step);
    reveal(step_initial);
}

/// `;` after a word of a preprocessor command ends the word and runs the command.
proof fn lemma_command_end(
    inc: spec_fn(Seq<char>) -> RunOut,
    file: Seq<char>,
    line_n: usize,
    idx: usize,
    t: TokState,
)
    requires
        t.state == State::BuildingIdentifier,
        t.stream == Stream::Preprocessor,
        idx < usize::MAX,
    ensures
        ({
            let tp = push_token(
                t,
                TokenView {
                    kind: word_kind(t.lexeme),
                    lexeme: t.lexeme,
                    metadata: meta(file, line_n, t.col_start),
                },
            );
            let t1 = TokState { col_start: (idx + 1) as usize, stream: Stream::Master, ..tp };
            let (t2, r) = preproc_run(inc, t1, t1.pre, 0, Command::Unset);
            process(inc, file, line_n, idx, ';', t) == match r {
                Ok(_) => go_on(t2),
                Err(h) => stop(t2, halt_fmt(h, t2.sources)),
            }
        }),
{
    reveal(process);
    reveal(step);
    reveal(step_initial);
}

/// The tokenizing of included files runs under a file whose tokenizing is under way.
pub open spec fn main_includer(
    fs: Map<Seq<char>, Seq<Seq<char>>>,
    main: Seq<char>,
) -> spec_fn(Seq<char>) -> RunOut {
    includer(fs, Set::empty().insert(main))
}

/// The tokenizer's state when it starts on the entry file `main`.
pub open spec fn main_start(fs: Map<Seq<char>, Seq<Seq<char>>>, main: Seq<char>) -> TokState {
    init_state(Map::empty().insert(main, fs[main]))
}

/// The tokens of the files that an include line names, in order.
pub open spec fn included_tokens(
    fs: Map<Seq<char>, Seq<Seq<char>>>,
    main: Seq<char>,
    location: Seq<char>,
    names: Seq<Seq<char>>,
) -> Seq<TokenView>
    decreases names.len(),
{
    if names.len() == 0 {
        Seq::empty()
    } else {
        file_run(fs, included_path(location, names[0]), Set::empty().insert(main)).tokens
            + included_tokens(fs, main, location, names.drop_first())
    }
}

/// The files read once the files an include line names are included, after `base`.
pub open spec fn included_sources(
    fs: Map<Seq<char>, Seq<Seq<char>>>,
    main: Seq<char>,
    location: Seq<char>,
    names: Seq<Seq<char>>,
    base: Map<Seq<char>, Seq<Seq<char>>>,
) -> Map<Seq<char>, Seq<Seq<char>>>
    decreases names.len(),
{
    if names.len() == 0 {
        base
    } else {
        included_sources(
            fs,
            main,
            location,
            names.drop_first(),
            base.union_prefer_right(
                file_run(fs, included_path(location, names[0]), Set::empty().insert(main)).state.sources,
            ),
        )
    }
}

/// Between lines, with nothing pending: no word, string or preprocessor command is open.
pub open spec fn between_lines(t: TokState) -> bool {
    &&& t.state == State::Inital || t.state == State::Comment
    &&& t.stream == Stream::Master
    &&& t.lexeme.len() == 0
    &&& t.out.len() == 0
    &&& t.pre.len() == 0
}

/// The tokenizer's state after an include line read from state `t`.
pub open spec fn after_include(
    t: TokState,
    fs: Map<Seq<char>, Seq<Seq<char>>>,
    main: Seq<char>,
    location: Seq<char>,
    names: Seq<Seq<char>>,
) -> TokState {
    TokState {
        state: State::Inital,
        lexeme: Seq::empty(),
        col_start: include_line(location, names).len() as usize,
        stream: Stream::Master,
        out: Seq::empty(),
        pre: Seq::empty(),
        sources: included_sources(fs, main, location, names, t.sources),
    }
}

/// Whether every name is a word and every file named tokenizes without error.
pub open spec fn includable(
    fs: Map<Seq<char>, Seq<Seq<char>>>,
    main: Seq<char>,
    location: Seq<char>,
    names: Seq<Seq<char>>,
) -> bool {
    &&& location == absolute_word() || location == system_word()
    &&& forall|i: int| 0 <= i < names.len() ==> (#[trigger] names[i]).len() > 0
    &&& forall|i: int, c: int|
        0 <= i < names.len() && 0 <= c < names[i].len() ==> continues_word(#[trigger] names[i][c])
    &&& forall|i: int|
        0 <= i < names.len() ==> (#[trigger] file_run(
            fs,
            included_path(location, names[i]),
            Set::empty().insert(main),
        )).halt is None
}

/// A word after a word: the first word's token is handed out and the second is read.
pub open spec fn next_word_state(s: TokState, file: Seq<char>, line_n: usize, pos: int, w: Seq<char>) -> TokState {
    TokState {
        state: State::BuildingIdentifier,
        lexeme: w,
        col_start: (pos + 2) as usize,
        ..push_token(
            s,
            TokenView { kind: word_kind(s.lexeme), lexeme: s.lexeme, metadata: meta(file, line_n, s.col_start) },
        )
    }
}

/// The state after the first `i` names of an include line, read from `s0` at `base`.
pub open spec fn names_state(
    s0: TokState,
    file: Seq<char>,
    line_n: usize,
    base: int,
    names: Seq<Seq<char>>,
    i: int,
) -> TokState
    decreases i,
{
    if i <= 0 {
        s0
    } else {
        next_word_state(
            names_state(s0, file, line_n, base, names, i - 1),
            file,
            line_n,
            base + names_text(names.take(i - 1)).len(),
            names[i - 1],
        )
    }
}

proof fn lemma_names_text_prefix(names: Seq<Seq<char>>, j: int)
    requires
        0 <= j <= names.len(),
    ensures
        names_text(names.take(j)).len() <= names_text(names).len(),
        forall|m: int|
            0 <= m < names_text(names.take(j)).len() ==> names_text(names)[m] == #[trigger] names_text(
                names.take(j),
            )[m],
    decreases names.len(),
{
    if j == names.len() {
        assert(names.take(j) =~= names);
    } else {
        assert(names.drop_last().take(j) =~= names.take(j));
        lemma_names_text_prefix(names.drop_last(), j);
    }
}

proof fn lemma_names_text_step(names: Seq<Seq<char>>, i: int)
    requires
        0 <= i < names.len(),
    ensures
        names_text(names.take(i + 1)) == names_text(names.take(i)) + seq![' '] + names[i],
{
    assert(names.take(i + 1).drop_last() =~= names.take(i));
}

/// A space, then a word, after a word.
proof fn lemma_space_word(
    inc: spec_fn(Seq<char>) -> RunOut,
    file: Seq<char>,
    line_n: usize,
    line: Seq<char>,
    pos: int,
    w: Seq<char>,
    s: TokState,
)
    requires
        s.state == State::BuildingIdentifier,
        0 <= pos,
        pos + 1 + w.len() < line.len(),
        line.len() < usize::MAX,
        w.len() > 0,
        line[pos] == ' ',
        forall|m: int| 0 <= m < w.len() ==> line[pos + 1 + m] == w[m],
        forall|m: int| 0 <= m < w.len() ==> continues_word(#[trigger] w[m]),
    ensures
        chars_run(inc, file, line_n, line, pos, s) == chars_run(
            inc,
            file,
            line_n,
            line,
            pos + 1 + w.len(),
            next_word_state(s, file, line_n, pos, w),
        ),
{
    let tok = TokenView { kind: word_kind(s.lexeme), lexeme: s.lexeme, metadata: meta(file, line_n, s.col_start) };
    lemma_chars_run_unfold(inc, file, line_n, line, pos, s);
    lemma_word_end_space(inc, file, line_n, pos as usize, s);
    let s1 = TokState { col_start: (pos + 1) as usize, ..push_token(s, tok) };
    lemma_chars_run_unfold(inc, file, line_n, line, pos + 1, s1);
    assert(line[pos + 1] == w[0]);
    lemma_word_start(inc, file, line_n, (pos + 1) as usize, w[0], s1);
    let s2 = TokState { col_start: (pos + 2) as usize, state: State::BuildingIdentifier, lexeme: seq![w[0]], ..s1 };
    assert(s1.lexeme.push(w[0]) =~= seq![w[0]]);
    assert forall|k: int| pos + 2 <= k < pos + 1 + w.len() implies continues_word(#[trigger] line[k]) by {
        assert(line[k] == w[k - pos - 1]);
    }
    lemma_word_run(inc, file, line_n, line, pos + 2, pos + 1 + w.len(), s2);
    assert(seq![w[0]] + line.subrange(pos + 2, pos + 1 + w.len()) =~= w);
    assert(TokState { lexeme: s2.lexeme + line.subrange(pos + 2, pos + 1 + w.len()), ..s2 }
        =~= next_word_state(s, file, line_n, pos, w));
}

/// The names of an include line, read one after the other.
proof fn lemma_names_run(
    inc: spec_fn(Seq<char>) -> RunOut,
    file: Seq<char>,
    line_n: usize,
    line: Seq<char>,
    base: int,
    names: Seq<Seq<char>>,
    i: int,
    s0: TokState,
)
    requires
        s0.state == State::BuildingIdentifier,
        0 <= base,
        0 <= i <= names.len(),
        base + names_text(names).len() < line.len(),
        line.len() < usize::MAX,
        forall|m: int| 0 <= m < names_text(names).len() ==> line[base + m] == #[trigger] names_text(names)[m],
        forall|k: int| 0 <= k < names.len() ==> (#[trigger] names[k]).len() > 0,
        forall|k: int, c: int|
            0 <= k < names.len() && 0 <= c < names[k].len() ==> continues_word(#[trigger] names[k][c]),
    ensures
        chars_run(inc, file, line_n, line, base, s0) == chars_run(
            inc,
            file,
            line_n,
            line,
            base + names_text(names.take(i)).len(),
            names_state(s0, file, line_n, base, names, i),
        ),
        names_state(s0, file, line_n, base, names, i).state == State::BuildingIdentifier,
    decreases i,
{
    if i == 0 {
        assert(names.take(0) =~= Seq::<Seq<char>>::empty());
    } else {
        lemma_names_run(inc, file, line_n, line, base, names, i - 1, s0);
        let pos = base + names_text(names.take(i - 1)).len();
        let w = names[i - 1];
        lemma_names_text_step(names, i - 1);
        lemma_names_text_prefix(names, i);
        let nt = names_text(names.take(i));
        assert(nt[names_text(names.take(i - 1)).len() as int] == ' ');
        assert(line[pos] == ' ');
        assert forall|m: int| 0 <= m < w.len() implies line[pos + 1 + m] == w[m] by {
            let q = names_text(names.take(i - 1)).len() + 1 + m;
            assert(nt[q] == w[m]);
            assert(names_text(names)[q] == nt[q]);
        }
        assert forall|m: int| 0 <= m < w.len() implies continues_word(#[trigger] w[m]) by {
            assert(continues_word(names[i - 1][m]));
        }
        lemma_space_word(inc, file, line_n, line, pos, w, names_state(s0, file, line_n, base, names, i - 1));
    }
}

/// Reading names keeps the stream, the program's tokens and the files, and adds one token
/// per word to the pending command: the word before the names, then each name but the last.
proof fn lemma_names_state(
    s0: TokState,
    file: Seq<char>,
    line_n: usize,
    base: int,
    names: Seq<Seq<char>>,
    i: int,
)
    requires
        s0.stream == Stream::Preprocessor,
        0 <= i <= names.len(),
    ensures
        ({
            let s = names_state(s0, file, line_n, base, names, i);
            &&& s.stream == s0.stream
            &&& s.out == s0.out
            &&& s.sources == s0.sources
            &&& s.lexeme == (if i == 0 { s0.lexeme } else { names[i - 1] })
            &&& s.pre.len() == s0.pre.len() + i
            &&& forall|j: int| 0 <= j < s0.pre.len() ==> s.pre[j] == s0.pre[j]
            &&& forall|j: int|
                0 <= j < i ==> (#[trigger] s.pre[s0.pre.len() + j]).lexeme == (if j == 0 {
                    s0.lexeme
                } else {
                    names[j - 1]
                })
        }),
    decreases i,
{
    if i > 0 {
        lemma_names_state(s0, file, line_n, base, names, i - 1);
    }
}

/// An include command: from its `j`th name on, the file each name gives is included in turn,
/// its tokens added to the program and the files it read recorded, when the files named
/// tokenize without error; the pending command is then cleared.
pub proof fn law_include_command(
    fs: Map<Seq<char>, Seq<Seq<char>>>,
    main: Seq<char>,
    t: TokState,
    toks: Seq<TokenView>,
    location: Seq<char>,
    names: Seq<Seq<char>>,
    j: int,
)
    requires
        includable(fs, main, location, names),
        0 <= j <= names.len(),
        toks.len() == names.len() + 2,
        forall|k: int| 0 <= k < names.len() ==> (#[trigger] toks[k + 2]).lexeme == names[k],
    ensures
        preproc_run(
            main_includer(fs, main),
            t,
            toks,
            j + 2,
            if location == system_word() {
                Command::Include(Location::System)
            } else {
                Command::Include(Location::Absolute)
            },
        ) == (
            TokState {
                pre: Seq::empty(),
                out: t.out + included_tokens(fs, main, location, names.skip(j)),
                sources: included_sources(fs, main, location, names.skip(j), t.sources),
                ..t
            },
            Ok::<(), HaltView>(()),
        ),
    decreases names.len() - j,
{
    let inc = main_includer(fs, main);
    if j == names.len() {
        assert(names.skip(j) =~= Seq::<Seq<char>>::empty());
        assert(t.out + Seq::<TokenView>::empty() =~= t.out);
    } else {
        let tk = toks[j + 2];
        assert(tk.lexeme == names[j]);
        let path = included_path(location, names[j]);
        let o = file_run(fs, path, Set::empty().insert(main));
        assert(o.halt is None);
        assert(inc(path) == o);
        let t2 = TokState { out: t.out + o.tokens, sources: t.sources.union_prefer_right(o.state.sources), ..t };
        assert(include_run(inc, t, path) == (t2, Ok::<(), HaltView>(())));
        law_include_command(fs, main, t2, toks, location, names, j + 1);
        assert(names.skip(j)[0] == names[j]);
        assert(names.skip(j).drop_first() =~= names.skip(j + 1));
        assert(t2.out + included_tokens(fs, main, location, names.skip(j + 1)) =~= t.out
            + included_tokens(fs, main, location, names.skip(j)));
    }
}

/// Tokenizing lines: the first `k` lines, then the rest from where they left off.
proof fn lemma_lines_split(
    inc: spec_fn(Seq<char>) -> RunOut,
    file: Seq<char>,
    lines: Seq<Seq<char>>,
    n: int,
    k: int,
    t: TokState,
    acc: Seq<TokenView>,
    fmt_src: Option<Map<Seq<char>, Seq<Seq<char>>>>,
)
    requires
        0 <= n <= k <= lines.len(),
    ensures
        ({
            let r = lines_run(inc, file, lines.take(k), n, t, acc, fmt_src);
            lines_run(inc, file, lines, n, t, acc, fmt_src) == if r.halt is None {
                lines_run(inc, file, lines, k, r.state, r.tokens, fmt_src)
            } else {
                r
            }
        }),
    decreases k - n,
{
    if n < k {
        assert(lines.take(k)[n] == lines[n]);
        let (t1, r) = line_run(inc, file, lines[n], (n + 1) as usize, t);
        match r {
            Ok(toks) => {
                lemma_lines_split(inc, file, lines, n + 1, k, t1, acc + toks, fmt_src);
            },
            Err(h) => {},
        }
    }
}

/// Tokenizing lines after tokens `acc` gives `acc` and then what it gives after none.
proof fn lemma_lines_acc(
    inc: spec_fn(Seq<char>) -> RunOut,
    file: Seq<char>,
    lines: Seq<Seq<char>>,
    n: int,
    t: TokState,
    acc: Seq<TokenView>,
    fmt_src: Option<Map<Seq<char>, Seq<Seq<char>>>>,
)
    ensures
        ({
            let r = lines_run(inc, file, lines, n, t, Seq::empty(), fmt_src);
            lines_run(inc, file, lines, n, t, acc, fmt_src) == RunOut { tokens: acc + r.tokens, ..r }
        }),
    decreases lines.len() - n,
{
    if 0 <= n < lines.len() {
        let (t1, r) = line_run(inc, file, lines[n], (n + 1) as usize, t);
        match r {
            Ok(toks) => {
                lemma_lines_acc(inc, file, lines, n + 1, t1, acc + toks, fmt_src);
                lemma_lines_acc(inc, file, lines, n + 1, t1, Seq::empty() + toks, fmt_src);
                let r2 = lines_run(inc, file, lines, n + 1, t1, Seq::empty(), fmt_src);
                assert((acc + toks) + r2.tokens =~= acc + ((Seq::<TokenView>::empty() + toks) + r2.tokens));
            },
            Err(h) => {
                assert(acc + Seq::<TokenView>::empty() =~= acc);
            },
        }
    } else {
        assert(acc + Seq::<TokenView>::empty() =~= acc);
    }
}

/// An include line, read between lines: the tokens of the files it names, in order.
proof fn lemma_include_line(
    fs: Map<Seq<char>, Seq<Seq<char>>>,
    main: Seq<char>,
    line_n: usize,
    location: Seq<char>,
    names: Seq<Seq<char>>,
    t: TokState,
)
    requires
        includable(fs, main, location, names),
        between_lines(t),
        include_line(location, names).len() < usize::MAX,
    ensures
        line_run(main_includer(fs, main), main, include_line(location, names), line_n, t) == (
            after_include(t, fs, main, location, names),
            Ok::<Seq<TokenView>, HaltView>(included_tokens(fs, main, location, names)),
        ),
{
    let inc = main_includer(fs, main);
    let line = include_line(location, names);
    let ll = location.len() as int;
    let nt = names_text(names);
    let len = line.len() as int;
    let base = 9 + ll;
    assert(len == 10 + ll + nt.len());
    assert(line[0] == '#');
    assert(line[1] == 'i');
    assert(line[8] == ' ');
    assert(line[9] == location[0]);
    assert(forall|k: int| 9 <= k < 9 + ll ==> line[k] == location[k - 9]);
    assert(forall|m: int| 0 <= m < nt.len() ==> line[base + m] == #[trigger] nt[m]);
    assert(line[len - 1] == ';');
    let word_inc = seq!['i', 'n', 'c', 'l', 'u', 'd', 'e'];
    assert(seq!['i'] + line.subrange(2, 8) =~= word_inc);
    assert(seq![location[0]] + line.subrange(10, 9 + ll) =~= location);
    assert(forall|k: int| 0 <= k < ll ==> continues_word(#[trigger] location[k]));

    reveal(line_run);
    let t0 = TokState { state: State::Inital, ..t };
    assert(line_run(inc, main, line, line_n, t) == chars_run(inc, main, line_n, line, 0, t0));
    // `#`
    lemma_chars_run_unfold(inc, main, line_n, line, 0, t0);
    lemma_command_start(inc, main, line_n, 0, t0);
    let t1 = TokState { col_start: 1, stream: Stream::Preprocessor, ..t0 };
    // `include`
    lemma_chars_run_unfold(inc, main, line_n, line, 1, t1);
    lemma_word_start(inc, main, line_n, 1, 'i', t1);
    let t2 = TokState { col_start: 2, state: State::BuildingIdentifier, lexeme: seq!['i'], ..t1 };
    assert(t1.lexeme.push('i') =~= seq!['i']);
    lemma_word_run(inc, main, line_n, line, 2, 8, t2);
    let t2w = TokState { lexeme: word_inc, ..t2 };
    assert(TokState { lexeme: t2.lexeme + line.subrange(2, 8), ..t2 } =~= t2w);
    let tok_inc = TokenView { kind: word_kind(word_inc), lexeme: word_inc, metadata: meta(main, line_n, 2) };
    lemma_chars_run_unfold(inc, main, line_n, line, 8, t2w);
    lemma_word_end_space(inc, main, line_n, 8, t2w);
    let t3 = TokState { col_start: 9, ..push_token(t2w, tok_inc) };
    // the location
    lemma_chars_run_unfold(inc, main, line_n, line, 9, t3);
    lemma_word_start(inc, main, line_n, 9, location[0], t3);
    let t4 = TokState { col_start: 10, state: State::BuildingIdentifier, lexeme: seq![location[0]], ..t3 };
    assert(t3.lexeme.push(location[0]) =~= seq![location[0]]);
    lemma_word_run(inc, main, line_n, line, 10, 9 + ll, t4);
    let t4w = TokState { lexeme: location, ..t4 };
    assert(TokState { lexeme: t4.lexeme + line.subrange(10, 9 + ll), ..t4 } =~= t4w);
    assert(t4w.pre =~= seq![tok_inc]);
    // the names
    let n = names.len() as int;
    lemma_names_run(inc, main, line_n, line, base, names, n, t4w);
    assert(names.take(n) =~= names);
    let t6w = names_state(t4w, main, line_n, base, names, n);
    lemma_names_state(t4w, main, line_n, base, names, n);
    // `;`
    lemma_chars_run_unfold(inc, main, line_n, line, len - 1, t6w);
    lemma_command_end(inc, main, line_n, (len - 1) as usize, t6w);
    let tok_last = TokenView { kind: word_kind(t6w.lexeme), lexeme: t6w.lexeme, metadata: meta(main, line_n, t6w.col_start) };
    let tp = push_token(t6w, tok_last);
    let t7 = TokState { col_start: len as usize, stream: Stream::Master, ..tp };
    let toks = t7.pre;
    assert(toks.len() == n + 2);
    assert(toks[0] == tok_inc);
    if n > 0 {
        assert(t6w.pre[t4w.pre.len() + 0int].lexeme == location);
    }
    assert(toks[1].lexeme == location);
    assert forall|k: int| 0 <= k < n implies (#[trigger] toks[k + 2]).lexeme == names[k] by {
        if k + 1 < n {
            assert(t6w.pre[1 + (k + 1)].lexeme == names[k]);
        }
    }
    assert(t7.out =~= Seq::<TokenView>::empty());
    // the command
    assert(is_plain_word(word_inc));
    lemma_trimmed_plain(word_inc);
    assert(word_kind(word_inc) == TokenKind::Include);
    let cmd = if location == system_word() {
        Command::Include(Location::System)
    } else {
        Command::Include(Location::Absolute)
    };
    law_include_command(fs, main, t7, toks, location, names, 0);
    assert(names.skip(0) =~= names);
    let t9 = TokState {
        pre: Seq::empty(),
        out: t7.out + included_tokens(fs, main, location, names),
        sources: included_sources(fs, main, location, names, t7.sources),
        ..t7
    };
    assert(preproc_run(inc, t7, toks, 2, cmd) == (t9, Ok::<(), HaltView>(())));
    assert(preproc_run(inc, t7, toks, 1, Command::Include(Location::Unset)) == (
        t9,
        Ok::<(), HaltView>(()),
    ));
    assert(preproc_run(inc, t7, toks, 0, Command::Unset) == (t9, Ok::<(), HaltView>(())));
    // end of the line
    assert(chars_run(inc, main, line_n, line, len, t9) == (
        TokState { out: Seq::empty(), ..t9 },
        Ok::<Seq<TokenView>, HaltView>(t9.out),
    ));
    assert(t9.out =~= included_tokens(fs, main, location, names));
    assert(t7.sources == t.sources);
    assert(TokState { out: Seq::empty(), ..t9 } =~= after_include(t, fs, main, location, names));
    assert(chars_run(inc, main, line_n, line, 0, t0) == chars_run(inc, main, line_n, line, 8, t2w));
    assert(chars_run(inc, main, line_n, line, 8, t2w) == chars_run(inc, main, line_n, line, base, t4w));
    assert(chars_run(inc, main, line_n, line, base, t4w) == chars_run(inc, main, line_n, line, len - 1, t6w));
    assert(chars_run(inc, main, line_n, line, len - 1, t6w) == chars_run(inc, main, line_n, line, len, t9));
}

/// Including files: where line `k` of the entry file is `#include absolute NAMES;` or
/// `#include system NAMES;`, each name a word, and the lines before it leave nothing
/// pending, the tokens are those of the lines before it, then those of each file named, in
/// order, then those of the lines after it, when the files named tokenize without error.
pub proof fn law_include(
    fs: Map<Seq<char>, Seq<Seq<char>>>,
    main: Seq<char>,
    k: int,
    location: Seq<char>,
    names: Seq<Seq<char>>,
    own: Map<Seq<char>, Seq<Seq<char>>>,
)
    requires
        fs.dom().finite(),
        fs.contains_key(main),
        0 <= k < fs[main].len(),
        fs[main][k] == include_line(location, names),
        include_line(location, names).len() < usize::MAX,
        includable(fs, main, location, names),
        lines_run(main_includer(fs, main), main, fs[main].take(k), 0, main_start(fs, main), Seq::empty(), Some(own)).halt is None,
        between_lines(lines_run(main_includer(fs, main), main, fs[main].take(k), 0, main_start(fs, main), Seq::empty(), Some(own)).state),
    ensures
        ({
            let before = lines_run(main_includer(fs, main), main, fs[main].take(k), 0, main_start(fs, main), Seq::empty(), Some(own));
            let after = lines_run(
                main_includer(fs, main),
                main,
                fs[main],
                k + 1,
                after_include(before.state, fs, main, location, names),
                Seq::empty(),
                Some(own),
            );
            tree_run(fs, main, own) == RunOut {
                tokens: before.tokens + included_tokens(fs, main, location, names) + after.tokens,
                ..after
            }
        }),
{
    let inc = main_includer(fs, main);
    let lines = fs[main];
    let t0 = main_start(fs, main);
    let before = lines_run(inc, main, lines.take(k), 0, t0, Seq::empty(), Some(own));
    lemma_lines_split(inc, main, lines, 0, k, t0, Seq::empty(), Some(own));
    lemma_include_line(fs, main, (k + 1) as usize, location, names, before.state);
    let st = after_include(before.state, fs, main, location, names);
    let acc = before.tokens + included_tokens(fs, main, location, names);
    assert(lines_run(inc, main, lines, k, before.state, before.tokens, Some(own)) == lines_run(
        inc,
        main,
        lines,
        k + 1,
        st,
        acc,
        Some(own),
    ));
    lemma_lines_acc(inc, main, lines, k + 1, st, acc, Some(own));
}

/// A comment: a line whose first two characters are `//` gives no token, and leaves the
/// pending command, the active stream and the files read as they were.
pub proof fn law_line_comment(
    inc: spec_fn(Seq<char>) -> RunOut,
    file: Seq<char>,
    line: Seq<char>,
    line_n: usize,
    t: TokState,
)
    requires
        t.state == State::Inital || t.state == State::Comment,
        line.len() >= 2,
        line[0] == '/',
        line[1] == '/',
    ensures
        ({
            let (t1, r) = line_run(inc, file, line, line_n, t);
            &&& r == Ok::<Seq<TokenView>, HaltView>(t.out)
            &&& t1.state == State::Comment
            &&& t1.stream == t.stream
            &&& t1.pre == t.pre
            &&& t1.sources == t.sources
        }),
{
    reveal(line_run);
    reveal(process);
    reveal(step);
    reveal(step_initial);
    let t0 = TokState { state: State::Inital, ..t };
    lemma_chars_run_unfold(inc, file, line_n, line, 0, t0);
    let t1 = TokState { col_start: 1, state: State::PreComment, ..t0 };
    lemma_chars_run_unfold(inc, file, line_n, line, 1, t1);
    let t2 = TokState { state: State::Comment, ..t1 };
    if line.len() > 2 {
        lemma_chars_run_unfold(inc, file, line_n, line, 2, t2);
    }
}


/// The name of a primitive type, as a word, is read back as that type.
pub proof fn law_primitive_name_reads_back(p: PrimitiveType)
    ensures
        keyword(crate::ast::primitive_text(p)) == Some(TokenKind::Primitive(p)),
        word_kind(crate::ast::primitive_text(p)) == TokenKind::Primitive(p),
{
    let w = crate::ast::primitive_text(p);
    assert(is_plain_word(w));
    lemma_trimmed_plain(w);
}


/// A preprocessor command whose first word is none of `include`, `if` and `else` is refused at
/// that word, and nothing is run.
pub proof fn law_preprocessor_unexpected_token(
    inc: spec_fn(Seq<char>) -> RunOut,
    t: TokState,
    toks: Seq<TokenView>,
)
    requires
        toks.len() > 0,
        toks[0].kind != TokenKind::Include,
        toks[0].kind != TokenKind::KWif,
        toks[0].kind != TokenKind::KWelse,
    ensures
        preproc_run(inc, t, toks, 0, Command::Unset) == (
            t,
            Err::<(), HaltView>(
                HaltView::Fail(
                    with_token(new_error("unexpected token in preprocessor command"@), toks[0]),
                ),
            ),
        ),
{
}

/// An include command whose location word is none of `system`, `module` and `absolute` is
/// refused at that word, and nothing is included.
pub proof fn law_include_unknown_location(
    inc: spec_fn(Seq<char>) -> RunOut,
    t: TokState,
    toks: Seq<TokenView>,
)
    requires
        toks.len() > 1,
        toks[0].kind == TokenKind::Include,
        toks[1].lexeme != system_word(),
        toks[1].lexeme != seq!['m', 'o', 'd', 'u', 'l', 'e'],
        toks[1].lexeme != absolute_word(),
    ensures
        preproc_run(inc, t, toks, 0, Command::Unset) == (
            t,
            Err::<(), HaltView>(
                HaltView::Fail(with_token(new_error("include subword not recognized"@), toks[1])),
            ),
        ),
{
    assert(preproc_run(inc, t, toks, 0, Command::Unset) == preproc_run(
        inc,
        t,
        toks,
        1,
        Command::Include(Location::Unset),
    ));
}


/// Tokens of file `file`, line `line_n`, none the end-of-file token, at columns from 1 and
/// below `lim`, each to the right of those before it.
pub open spec fn tokens_in_line(toks: Seq<TokenView>, file: Seq<char>, line_n: usize, lim: int) -> bool {
    &&& forall|k: int|
        0 <= k < toks.len() ==> {
            &&& (#[trigger] toks[k]).metadata.file_name == file
            &&& toks[k].metadata.line_number == line_n
            &&& toks[k].kind != TokenKind::EOF
            &&& 1 <= toks[k].metadata.column < lim
        }
    &&& forall|a: int, b: int|
        0 <= a < b < toks.len() ==> (#[trigger] toks[a]).metadata.column < (
        #[trigger] toks[b]).metadata.column
}

/// A line with no preprocessor command.
pub open spec fn plain_line(line: Seq<char>) -> bool {
    forall|j: int| 0 <= j < line.len() ==> #[trigger] line[j] != '#'
}

/// A `>` at position `j` right after `<`, `>`, `=` or `|`: an operator pair that the
/// tokenizer cannot read when it meets it outside a string or comment.
pub open spec fn unreadable_pair(line: Seq<char>, j: int) -> bool {
    &&& 0 < j < line.len()
    &&& line[j] == '>'
    &&& (line[j - 1] == '<' || line[j - 1] == '>' || line[j - 1] == '=' || line[j - 1] == '|')
}

/// What holds between the characters of a plain line, before its `i`th.
pub open spec fn plain_line_state(line: Seq<char>, file: Seq<char>, line_n: usize, i: int, t: TokState) -> bool {
    &&& t.stream == Stream::Master
    &&& match t.state {
        State::Inital | State::Comment => tokens_in_line(t.out, file, line_n, i + 1),
        State::DoubleCharToken(d) => {
            &&& starts_double(d)
            &&& 1 <= i
            &&& line[i - 1] == d
            &&& 1 <= t.col_start <= i
            &&& tokens_in_line(t.out, file, line_n, t.col_start as int)
        },
        _ => 1 <= t.col_start <= i && tokens_in_line(t.out, file, line_n, t.col_start as int),
    }
}

proof fn lemma_keyword_not_eof(s: Seq<char>)
    ensures
        keyword(s) != Some(TokenKind::EOF),
        word_kind(s) != TokenKind::EOF,
{
}

proof fn lemma_push_in_line(
    out: Seq<TokenView>,
    tok: TokenView,
    file: Seq<char>,
    line_n: usize,
    lim: int,
)
    requires
        tokens_in_line(out, file, line_n, tok.metadata.column as int),
        tok.metadata.file_name == file,
        tok.metadata.line_number == line_n,
        tok.kind != TokenKind::EOF,
        1 <= tok.metadata.column < lim,
    ensures
        tokens_in_line(out.push(tok), file, line_n, lim),
{
    let o2 = out.push(tok);
    assert forall|a: int, b: int| 0 <= a < b < o2.len() implies (#[trigger] o2[a]).metadata.column < (
    #[trigger] o2[b]).metadata.column by {
        assert(o2[a] == out[a]);
        if b < out.len() {
            assert(o2[b] == out[b]);
        }
    }
    assert forall|k: int| 0 <= k < o2.len() implies {
        &&& (#[trigger] o2[k]).metadata.file_name == file
        &&& o2[k].metadata.line_number == line_n
        &&& o2[k].kind != TokenKind::EOF
        &&& 1 <= o2[k].metadata.column < lim
    } by {
        if k < out.len() {
            assert(o2[k] == out[k]);
        }
    }
}

proof fn lemma_in_line_weaken(out: Seq<TokenView>, file: Seq<char>, line_n: usize, lim: int, lim2: int)
    requires
        tokens_in_line(out, file, line_n, lim),
        lim <= lim2,
    ensures
        tokens_in_line(out, file, line_n, lim2),
{
}

/// One step on a plain line keeps what holds between its characters, and gives up only on an
/// unreadable pair.
proof fn lemma_plain_step(
    inc: spec_fn(Seq<char>) -> RunOut,
    file: Seq<char>,
    line_n: usize,
    line: Seq<char>,
    i: int,
    t: TokState,
)
    requires
        plain_line(line),
        0 <= i < line.len(),
        line.len() < usize::MAX,
        plain_line_state(line, file, line_n, i, t),
    ensures
        ({
            let s = step(inc, file, line_n, i as usize, line[i], t);
            &&& s.halt == Some(HaltView::Stuck) ==> unreadable_pair(line, i)
            &&& t.state == State::Inital ==> s.adv && !s.brk && s.halt is None
            &&& s.halt is None && s.brk ==> tokens_in_line(s.st.out, file, line_n, i + 1)
            &&& s.halt is None && !s.brk && s.adv ==> plain_line_state(line, file, line_n, i + 1, s.st)
            &&& s.halt is None && !s.brk && !s.adv ==> s.st.state == State::Inital && plain_line_state(
                line,
                file,
                line_n,
                i,
                s.st,
            )
        }),
{
    reveal(step);
    reveal(step_initial);
    let c = line[i];
    let m = meta(file, line_n, t.col_start);
    assert(c != '#');
    match t.state {
        State::Inital => {
            let t1 = TokState { col_start: (i + 1) as usize, ..t };
            let m1 = meta(file, line_n, t1.col_start);
            if c == ';' || single_char_kind(c) is Some {
                let k = if c == ';' { TokenKind::SemiColon } else { single_char_kind(c)->0 };
                let lx = if c == ';' { seq![';'] } else { single_char_lexeme(c) };
                lemma_in_line_weaken(t.out, file, line_n, i + 1, i + 1);
                lemma_push_in_line(t.out, TokenView { kind: k, lexeme: lx, metadata: m1 }, file, line_n, i + 2);
            } else {
                lemma_in_line_weaken(t.out, file, line_n, i + 1, i + 2);
            }
        },
        State::DoubleCharToken(d) => {
            if c == '>' {
                assert(line[i - 1] == d);
            }
            match double_char(c, d) {
                Some((k, adv)) => {
                    lemma_push_in_line(t.out, TokenView { kind: k, lexeme: seq![d], metadata: m }, file, line_n, i + 1);
                    if adv {
                        lemma_in_line_weaken(
                            t.out.push(TokenView { kind: k, lexeme: seq![d], metadata: m }),
                            file,
                            line_n,
                            i + 1,
                            i + 2,
                        );
                    }
                },
                None => {},
            }
        },
        State::PreComment => {
            if c == '/' {
                lemma_in_line_weaken(t.out, file, line_n, t.col_start as int, i + 2);
            } else {
                lemma_push_in_line(t.out, TokenView { kind: TokenKind::Slash, lexeme: t.lexeme, metadata: m }, file, line_n, i + 1);
            }
        },
        State::Comment => {},
        State::BuildingString => {},
        State::StrEsc => {},
        State::BuildingIdentifier => {
            if !continues_word(c) {
                lemma_keyword_not_eof(trimmed(t.lexeme));
                lemma_push_in_line(t.out, TokenView { kind: word_kind(t.lexeme), lexeme: t.lexeme, metadata: m }, file, line_n, i + 1);
            }
        },
        State::EndString => {
            lemma_push_in_line(t.out, TokenView { kind: TokenKind::StringLiteral, lexeme: t.lexeme, metadata: m }, file, line_n, i + 1);
        },
    }
}

/// The characters of a plain line from the `i`th on: the tokenizer gives up only on an
/// unreadable pair, and the tokens it hands out are of that file and line, at increasing
/// columns within the line.
proof fn lemma_plain_chars(
    inc: spec_fn(Seq<char>) -> RunOut,
    file: Seq<char>,
    line_n: usize,
    line: Seq<char>,
    i: int,
    t: TokState,
)
    requires
        plain_line(line),
        0 <= i <= line.len(),
        line.len() < usize::MAX,
        plain_line_state(line, file, line_n, i, t),
    ensures
        ({
            let (t1, r) = chars_run(inc, file, line_n, line, i, t);
            &&& r == Err::<Seq<TokenView>, HaltView>(HaltView::Stuck) ==> exists|j: int|
                #[trigger] unreadable_pair(line, j)
            &&& r matches Ok(toks) ==> tokens_in_line(toks, file, line_n, line.len() + 1int)
        }),
    decreases line.len() - i,
{
    if i == line.len() {
        match t.state {
            State::Inital | State::Comment => {},
            _ => lemma_in_line_weaken(t.out, file, line_n, t.col_start as int, i + 1),
        }
    } else {
        lemma_chars_run_unfold(inc, file, line_n, line, i, t);
        reveal(process);
        let s1 = step(inc, file, line_n, i as usize, line[i], t);
        lemma_plain_step(inc, file, line_n, line, i, t);
        if s1.halt == Some(HaltView::Stuck) {
            assert(unreadable_pair(line, i));
        }
        if s1.halt is None && !s1.brk && !s1.adv {
            lemma_plain_step(inc, file, line_n, line, i, s1.st);
            let s2 = step(inc, file, line_n, i as usize, line[i], s1.st);
            lemma_plain_chars(inc, file, line_n, line, i + 1, s2.st);
        } else if s1.halt is None && !s1.brk {
            lemma_plain_chars(inc, file, line_n, line, i + 1, s1.st);
        } else if s1.halt is None {
            lemma_in_line_weaken(s1.st.out, file, line_n, i + 1, line.len() + 1int);
        }
    }
}

/// A line with no preprocessor command, read between lines: every token it gives carries the
/// file and the line's number, is no end-of-file token, and stands at a column within the
/// line, to the right of the tokens before it; and the tokenizer gives up on it only where a
/// `>` follows `<`, `>`, `=` or `|`.
pub proof fn law_plain_line_tokens(
    inc: spec_fn(Seq<char>) -> RunOut,
    file: Seq<char>,
    line: Seq<char>,
    line_n: usize,
    t: TokState,
)
    requires
        between_lines(t),
        plain_line(line),
        line.len() < usize::MAX,
    ensures
        ({
            let (t1, r) = line_run(inc, file, line, line_n, t);
            &&& r == Err::<Seq<TokenView>, HaltView>(HaltView::Stuck) ==> exists|j: int|
                #[trigger] unreadable_pair(line, j)
            &&& r matches Ok(toks) ==> tokens_in_line(toks, file, line_n, line.len() + 1int)
        }),
{
    reveal(line_run);
    let t0 = TokState { state: State::Inital, ..t };
    assert(tokens_in_line(t0.out, file, line_n, 1));
    lemma_plain_chars(inc, file, line_n, line, 0, t0);
}


/// No token of `toks` is the end-of-file token.
pub open spec fn no_eof(toks: Seq<TokenView>) -> bool {
    forall|k: int| 0 <= k < toks.len() ==> (#[trigger] toks[k]).kind != TokenKind::EOF
}

/// Every file that `src` holds is held as `fs` gives it.
pub open spec fn as_given(src: Map<Seq<char>, Seq<Seq<char>>>, fs: Map<Seq<char>, Seq<Seq<char>>>) -> bool {
    forall|p: Seq<char>| #[trigger] src.contains_key(p) ==> fs.contains_key(p) && src[p] == fs[p]
}

spec fn good_includer(inc: spec_fn(Seq<char>) -> RunOut, fs: Map<Seq<char>, Seq<Seq<char>>>) -> bool {
    forall|p: Seq<char>| #![trigger inc(p)] no_eof(inc(p).tokens) && as_given(inc(p).state.sources, fs)
}

spec fn good_state(t: TokState, fs: Map<Seq<char>, Seq<Seq<char>>>) -> bool {
    no_eof(t.out) && as_given(t.sources, fs)
}

/// A state that keeps what `t` had: no end-of-file token, the files as given, and at least
/// the files of `t`.
spec fn keeps(t: TokState, t2: TokState, fs: Map<Seq<char>, Seq<Seq<char>>>) -> bool {
    good_state(t2, fs) && t.sources.dom().subset_of(t2.sources.dom())
}

proof fn lemma_push_no_eof(out: Seq<TokenView>, tok: TokenView)
    requires
        no_eof(out),
        tok.kind != TokenKind::EOF,
    ensures
        no_eof(out.push(tok)),
{
    assert forall|k: int| 0 <= k < out.push(tok).len() implies (#[trigger] out.push(tok)[k]).kind
        != TokenKind::EOF by {
        if k < out.len() {
            assert(out.push(tok)[k] == out[k]);
        }
    }
}

proof fn lemma_concat_no_eof(a: Seq<TokenView>, b: Seq<TokenView>)
    requires
        no_eof(a),
        no_eof(b),
    ensures
        no_eof(a + b),
{
    assert forall|k: int| 0 <= k < (a + b).len() implies (#[trigger] (a + b)[k]).kind != TokenKind::EOF by {
        if k < a.len() {
            assert((a + b)[k] == a[k]);
        } else {
            assert((a + b)[k] == b[k - a.len()]);
        }
    }
}

proof fn lemma_union_as_given(
    a: Map<Seq<char>, Seq<Seq<char>>>,
    b: Map<Seq<char>, Seq<Seq<char>>>,
    fs: Map<Seq<char>, Seq<Seq<char>>>,
)
    requires
        as_given(a, fs),
        as_given(b, fs),
    ensures
        as_given(a.union_prefer_right(b), fs),
        a.dom().subset_of(a.union_prefer_right(b).dom()),
{
    assert forall|p: Seq<char>| #[trigger] a.union_prefer_right(b).contains_key(p) implies fs.contains_key(p)
        && a.union_prefer_right(b)[p] == fs[p] by {
        if b.contains_key(p) {
            assert(b.contains_key(p));
        } else {
            assert(a.contains_key(p));
        }
    }
}

proof fn lemma_push_token_keeps(t: TokState, tok: TokenView, fs: Map<Seq<char>, Seq<Seq<char>>>)
    requires
        good_state(t, fs),
        tok.kind != TokenKind::EOF,
    ensures
        keeps(t, push_token(t, tok), fs),
{
    if t.stream == Stream::Master {
        lemma_push_no_eof(t.out, tok);
    }
}

proof fn lemma_preproc_keeps(
    inc: spec_fn(Seq<char>) -> RunOut,
    fs: Map<Seq<char>, Seq<Seq<char>>>,
    t: TokState,
    toks: Seq<TokenView>,
    j: int,
    cmd: Command,
)
    requires
        good_includer(inc, fs),
        good_state(t, fs),
    ensures
        keeps(t, preproc_run(inc, t, toks, j, cmd).0, fs),
    decreases toks.len() - j,
{
    if 0 <= j < toks.len() {
        let tk = toks[j];
        let path = match cmd {
            Command::Include(Location::System) => system_include_path(tk.lexeme),
            _ => tk.lexeme,
        };
        let o = inc(path);
        if o.halt is None {
            lemma_concat_no_eof(t.out, o.tokens);
            lemma_union_as_given(t.sources, o.state.sources, fs);
            let t2 = TokState { out: t.out + o.tokens, sources: t.sources.union_prefer_right(o.state.sources), ..t };
            lemma_preproc_keeps(inc, fs, t2, toks, j + 1, cmd);
        }
        match cmd {
            Command::Unset => {
                lemma_preproc_keeps(inc, fs, t, toks, j + 1, Command::Include(Location::Unset));
                lemma_preproc_keeps(inc, fs, t, toks, j + 1, Command::If);
                lemma_preproc_keeps(inc, fs, t, toks, j + 1, Command::Else);
            },
            Command::Include(Location::Unset) => {
                lemma_preproc_keeps(inc, fs, t, toks, j + 1, Command::Include(Location::System));
                lemma_preproc_keeps(inc, fs, t, toks, j + 1, Command::Include(Location::Module));
                lemma_preproc_keeps(inc, fs, t, toks, j + 1, Command::Include(Location::Absolute));
            },
            _ => {},
        }
    }
}

proof fn lemma_step_keeps(
    inc: spec_fn(Seq<char>) -> RunOut,
    fs: Map<Seq<char>, Seq<Seq<char>>>,
    file: Seq<char>,
    line_n: usize,
    idx: usize,
    c: char,
    t: TokState,
)
    requires
        good_includer(inc, fs),
        good_state(t, fs),
    ensures
        keeps(t, step(inc, file, line_n, idx, c, t).st, fs),
{
    reveal(step);
    reveal(step_initial);
    let m = meta(file, line_n, t.col_start);
    match t.state {
        State::Inital => {
            let t1 = TokState { col_start: (idx + 1) as usize, ..t };
            let m1 = meta(file, line_n, t1.col_start);
            if c == ';' && t1.stream == Stream::Preprocessor {
                let t2 = TokState { stream: Stream::Master, ..t1 };
                lemma_preproc_keeps(inc, fs, t2, t2.pre, 0, Command::Unset);
            } else if c == ';' {
                lemma_push_token_keeps(t1, TokenView { kind: TokenKind::SemiColon, lexeme: seq![';'], metadata: m1 }, fs);
            } else if single_char_kind(c) is Some {
                lemma_push_token_keeps(
                    t1,
                    TokenView { kind: single_char_kind(c)->0, lexeme: single_char_lexeme(c), metadata: m1 },
                    fs,
                );
            }
        },
        State::DoubleCharToken(d) => {
            match double_char(c, d) {
                Some((k, adv)) => lemma_push_token_keeps(t, TokenView { kind: k, lexeme: seq![d], metadata: m }, fs),
                None => {},
            }
        },
        State::PreComment => {
            lemma_push_token_keeps(t, TokenView { kind: TokenKind::Slash, lexeme: t.lexeme, metadata: m }, fs);
        },
        State::BuildingIdentifier => {
            lemma_keyword_not_eof(trimmed(t.lexeme));
            lemma_push_token_keeps(t, TokenView { kind: word_kind(t.lexeme), lexeme: t.lexeme, metadata: m }, fs);
        },
        State::EndString => {
            lemma_push_token_keeps(t, TokenView { kind: TokenKind::StringLiteral, lexeme: t.lexeme, metadata: m }, fs);
        },
        _ => {},
    }
}

proof fn lemma_chars_keeps(
    inc: spec_fn(Seq<char>) -> RunOut,
    fs: Map<Seq<char>, Seq<Seq<char>>>,
    file: Seq<char>,
    line_n: usize,
    line: Seq<char>,
    i: int,
    t: TokState,
)
    requires
        good_includer(inc, fs),
        good_state(t, fs),
    ensures
        ({
            let (t1, r) = chars_run(inc, file, line_n, line, i, t);
            &&& keeps(t, t1, fs)
            &&& r matches Ok(toks) ==> no_eof(toks)
        }),
    decreases line.len() - i,
{
    if 0 <= i < line.len() {
        lemma_chars_run_unfold(inc, file, line_n, line, i, t);
        reveal(process);
        let s1 = step(inc, file, line_n, i as usize, line[i], t);
        lemma_step_keeps(inc, fs, file, line_n, i as usize, line[i], t);
        lemma_step_keeps(inc, fs, file, line_n, i as usize, line[i], s1.st);
        let s = process(inc, file, line_n, i as usize, line[i], t);
        lemma_chars_keeps(inc, fs, file, line_n, line, i + 1, s.st);
    }
}

proof fn lemma_lines_keeps(
    inc: spec_fn(Seq<char>) -> RunOut,
    fs: Map<Seq<char>, Seq<Seq<char>>>,
    file: Seq<char>,
    lines: Seq<Seq<char>>,
    n: int,
    t: TokState,
    acc: Seq<TokenView>,
    fmt_src: Option<Map<Seq<char>, Seq<Seq<char>>>>,
)
    requires
        good_includer(inc, fs),
        good_state(t, fs),
        no_eof(acc),
    ensures
        ({
            let r = lines_run(inc, file, lines, n, t, acc, fmt_src);
            &&& no_eof(r.tokens)
            &&& as_given(r.state.sources, fs)
            &&& t.sources.dom().subset_of(r.state.sources.dom())
        }),
    decreases lines.len() - n,
{
    if 0 <= n < lines.len() {
        reveal(line_run);
        let t0 = if t.state == State::Comment { TokState { state: State::Inital, ..t } } else { t };
        lemma_chars_keeps(inc, fs, file, (n + 1) as usize, lines[n], 0, t0);
        let (t1, r) = line_run(inc, file, lines[n], (n + 1) as usize, t);
        match r {
            Ok(toks) => {
                lemma_concat_no_eof(acc, toks);
                lemma_lines_keeps(inc, fs, file, lines, n + 1, t1, acc + toks, fmt_src);
            },
            Err(h) => {},
        }
    }
}

proof fn lemma_file_keeps(fs: Map<Seq<char>, Seq<Seq<char>>>, path: Seq<char>, active: Set<Seq<char>>)
    ensures
        no_eof(file_run(fs, path, active).tokens),
        as_given(file_run(fs, path, active).state.sources, fs),
    decreases unvisited(fs, active),
{
    if fs.contains_key(path) && !active.contains(path) && fs.dom().finite() {
        let a2 = active.insert(path);
        lemma_unvisited_insert(fs, active, path);
        let inc = includer(fs, a2);
        assert forall|p: Seq<char>| #![trigger inc(p)] no_eof(inc(p).tokens) && as_given(
            inc(p).state.sources,
            fs,
        ) by {
            lemma_file_keeps(fs, p, a2);
        }
        let t0 = init_state(Map::empty().insert(path, fs[path]));
        lemma_lines_keeps(inc, fs, path, fs[path], 0, t0, Seq::empty(), None);
    }
}

/// Tokenizing a source tree never gives an end-of-file token; every file it records is held
/// as given; and the entry file, when given, is among the files it records.
pub proof fn law_tree_tokens(
    fs: Map<Seq<char>, Seq<Seq<char>>>,
    main: Seq<char>,
    own: Map<Seq<char>, Seq<Seq<char>>>,
)
    ensures
        no_eof(tree_run(fs, main, own).tokens),
        as_given(tree_run(fs, main, own).state.sources, fs),
        fs.contains_key(main) && fs.dom().finite() ==> tree_run(fs, main, own).state.sources.contains_key(main),
{
    if fs.contains_key(main) && fs.dom().finite() {
        let a = Set::empty().insert(main);
        let inc = includer(fs, a);
        assert forall|p: Seq<char>| #![trigger inc(p)] no_eof(inc(p).tokens) && as_given(
            inc(p).state.sources,
            fs,
        ) by {
            lemma_file_keeps(fs, p, a);
        }
        let t0 = init_state(Map::empty().insert(main, fs[main]));
        lemma_lines_keeps(inc, fs, main, fs[main], 0, t0, Seq::empty(), Some(own));
        assert(t0.sources.contains_key(main));
    }
}


/// The characters that are tokens on their own, each with the kind of token it is.
pub open spec fn punctuation_kind(c: char) -> Option<TokenKind> {
    match c {
        '{' => Some(TokenKind::OpenCurly),
        '}' => Some(TokenKind::ClosedCurly),
        '(' => Some(TokenKind::OpenParenth),
        ')' => Some(TokenKind::ClosedParenth),
        '[' => Some(TokenKind::OpenBracket),
        ']' => Some(TokenKind::ClosedBracket),
        ',' => Some(TokenKind::Comma),
        '.' => Some(TokenKind::Dot),
        '+' => Some(TokenKind::Plus),
        '*' => Some(TokenKind::Star),
        ':' => Some(TokenKind::Colon),
        ';' => Some(TokenKind::SemiColon),
        '&' => Some(TokenKind::And),
        '^' => Some(TokenKind::Carot),
        '%' => Some(TokenKind::Percent),
        '$' => Some(TokenKind::Dollar),
        '@' => Some(TokenKind::At),
        '!' => Some(TokenKind::Exclaim),
        '`' => Some(TokenKind::BackTick),
        '~' => Some(TokenKind::Grave),
        '\'' => Some(TokenKind::Apostro),
        _ => None,
    }
}

/// Whether `k` is the kind of a one-character punctuation token.
pub open spec fn is_punctuation_kind(k: TokenKind) -> bool {
    match k {
        TokenKind::OpenCurly | TokenKind::ClosedCurly | TokenKind::OpenParenth | TokenKind::ClosedParenth | TokenKind::OpenBracket | TokenKind::ClosedBracket | TokenKind::Comma | TokenKind::Dot | TokenKind::Plus | TokenKind::Star | TokenKind::Colon | TokenKind::SemiColon | TokenKind::And | TokenKind::Carot | TokenKind::Percent | TokenKind::Dollar | TokenKind::At | TokenKind::Exclaim | TokenKind::BackTick | TokenKind::Grave | TokenKind::Apostro => true,
        _ => false,
    }
}

/// The text of the token a punctuation character gives: the character, but `&` for an
/// apostrophe.
pub open spec fn punctuation_text(c: char) -> Seq<char> {
    if c == '\'' {
        seq!['&']
    } else {
        seq![c]
    }
}

/// The punctuation characters of `line` before position `i`: the kind, text and column (from
/// 1) of the token each is to give.
pub open spec fn punctuation_in_line(line: Seq<char>, i: int) -> Seq<(TokenKind, Seq<char>, usize)>
    decreases i,
{
    if i <= 0 {
        Seq::empty()
    } else {
        punctuation_in_line(line, i - 1) + match punctuation_kind(line[i - 1]) {
            Some(k) => seq![(k, punctuation_text(line[i - 1]), i as usize)],
            None => Seq::empty(),
        }
    }
}

/// The punctuation tokens among `toks`: their kind, text and column, in order.
pub open spec fn punctuation_tokens(toks: Seq<TokenView>) -> Seq<(TokenKind, Seq<char>, usize)>
    decreases toks.len(),
{
    if toks.len() == 0 {
        Seq::empty()
    } else {
        punctuation_tokens(toks.drop_last()) + if is_punctuation_kind(toks.last().kind) {
            seq![(toks.last().kind, toks.last().lexeme, toks.last().metadata.column)]
        } else {
            Seq::empty()
        }
    }
}

/// A line with no preprocessor command, string or comment.
pub open spec fn bare_line(line: Seq<char>) -> bool {
    forall|j: int| 0 <= j < line.len() ==> #[trigger] line[j] != '#' && line[j] != '"' && line[j] != '/'
}

spec fn bare_line_state(line: Seq<char>, i: int, t: TokState) -> bool {
    &&& t.stream == Stream::Master
    &&& (t.state == State::Inital || t.state == State::BuildingIdentifier || t.state is DoubleCharToken)
    &&& punctuation_tokens(t.out) == punctuation_in_line(line, i)
}

proof fn lemma_punctuation_push(out: Seq<TokenView>, tok: TokenView)
    ensures
        punctuation_tokens(out.push(tok)) == punctuation_tokens(out) + if is_punctuation_kind(tok.kind) {
            seq![(tok.kind, tok.lexeme, tok.metadata.column)]
        } else {
            Seq::empty()
        },
{
    assert(out.push(tok).drop_last() =~= out);
}

/// Each character is a token on its own exactly where the tokenizer reads it so.
proof fn lemma_single_char_is_punctuation(c: char)
    ensures
        c != ';' ==> single_char_kind(c) == punctuation_kind(c),
        single_char_kind(c) is Some ==> single_char_lexeme(c) == punctuation_text(c),
        punctuation_kind(';') == Some(TokenKind::SemiColon),
{
}

proof fn lemma_not_punctuation_kinds(lexeme: Seq<char>, c: char, d: char)
    ensures
        !is_punctuation_kind(word_kind(lexeme)),
        double_char(c, d) matches Some((k, _)) ==> !is_punctuation_kind(k),
        !is_punctuation_kind(TokenKind::Slash),
        !is_punctuation_kind(TokenKind::StringLiteral),
{
}

proof fn lemma_bare_step(
    inc: spec_fn(Seq<char>) -> RunOut,
    file: Seq<char>,
    line_n: usize,
    line: Seq<char>,
    i: int,
    t: TokState,
)
    requires
        bare_line(line),
        0 <= i < line.len(),
        line.len() < usize::MAX,
        bare_line_state(line, i, t),
    ensures
        ({
            let s = step(inc, file, line_n, i as usize, line[i], t);
            &&& !s.brk
            &&& t.state == State::Inital ==> s.adv && s.halt is None
            &&& s.halt is None && s.adv ==> bare_line_state(line, i + 1, s.st)
            &&& s.halt is None && !s.adv ==> s.st.state == State::Inital && s.st.stream == Stream::Master
                && punctuation_tokens(s.st.out) == punctuation_in_line(line, i)
        }),
{
    reveal(step);
    reveal(step_initial);
    let c = line[i];
    let m = meta(file, line_n, t.col_start);
    assert(c != '#' && c != '"' && c != '/');
    lemma_single_char_is_punctuation(c);
    assert(punctuation_in_line(line, i + 1) == punctuation_in_line(line, i) + match punctuation_kind(line[i]) {
        Some(k) => seq![(k, punctuation_text(line[i]), (i + 1) as usize)],
        None => Seq::<(TokenKind, Seq<char>, usize)>::empty(),
    });
    match t.state {
        State::Inital => {
            let t1 = TokState { col_start: (i + 1) as usize, ..t };
            let m1 = meta(file, line_n, t1.col_start);
            if c == ';' {
                lemma_punctuation_push(t1.out, TokenView { kind: TokenKind::SemiColon, lexeme: seq![';'], metadata: m1 });
            } else if single_char_kind(c) is Some {
                lemma_punctuation_push(
                    t1.out,
                    TokenView { kind: single_char_kind(c)->0, lexeme: single_char_lexeme(c), metadata: m1 },
                );
            } else {
                assert(punctuation_in_line(line, i) + Seq::<(TokenKind, Seq<char>, usize)>::empty()
                    =~= punctuation_in_line(line, i));
            }
        },
        State::DoubleCharToken(d) => {
            lemma_not_punctuation_kinds(t.lexeme, c, d);
            match double_char(c, d) {
                Some((k, adv)) => {
                    lemma_punctuation_push(t.out, TokenView { kind: k, lexeme: seq![d], metadata: m });
                    assert(punctuation_tokens(t.out) + Seq::<(TokenKind, Seq<char>, usize)>::empty()
                        =~= punctuation_tokens(t.out));
                    if adv {
                        assert(punctuation_kind(c) is None);
                        assert(punctuation_in_line(line, i) + Seq::<(TokenKind, Seq<char>, usize)>::empty()
                            =~= punctuation_in_line(line, i));
                    }
                },
                None => {},
            }
        },
        State::BuildingIdentifier => {
            lemma_not_punctuation_kinds(t.lexeme, c, c);
            if continues_word(c) {
                assert(punctuation_kind(c) is None);
                assert(punctuation_in_line(line, i) + Seq::<(TokenKind, Seq<char>, usize)>::empty()
                    =~= punctuation_in_line(line, i));
            } else {
                lemma_punctuation_push(t.out, TokenView { kind: word_kind(t.lexeme), lexeme: t.lexeme, metadata: m });
                assert(punctuation_tokens(t.out) + Seq::<(TokenKind, Seq<char>, usize)>::empty()
                    =~= punctuation_tokens(t.out));
                if punctuation_kind(c) is None {
                    assert(punctuation_in_line(line, i) + Seq::<(TokenKind, Seq<char>, usize)>::empty()
                        =~= punctuation_in_line(line, i));
                }
            }
        },
        _ => {},
    }
}

proof fn lemma_bare_chars(
    inc: spec_fn(Seq<char>) -> RunOut,
    file: Seq<char>,
    line_n: usize,
    line: Seq<char>,
    i: int,
    t: TokState,
)
    requires
        bare_line(line),
        0 <= i <= line.len(),
        line.len() < usize::MAX,
        bare_line_state(line, i, t),
    ensures
        chars_run(inc, file, line_n, line, i, t).1 matches Ok(toks) ==> punctuation_tokens(toks)
            == punctuation_in_line(line, line.len() as int),
    decreases line.len() - i,
{
    if i < line.len() {
        lemma_chars_run_unfold(inc, file, line_n, line, i, t);
        reveal(process);
        let s1 = step(inc, file, line_n, i as usize, line[i], t);
        lemma_bare_step(inc, file, line_n, line, i, t);
        if s1.halt is None && !s1.adv {
            let t1 = s1.st;
            let s2 = step(inc, file, line_n, i as usize, line[i], t1);
            assert(bare_line_state(line, i, t1));
            lemma_bare_step(inc, file, line_n, line, i, t1);
            lemma_bare_chars(inc, file, line_n, line, i + 1, s2.st);
        } else if s1.halt is None {
            lemma_bare_chars(inc, file, line_n, line, i + 1, s1.st);
        }
    }
}

/// Punctuation: on a line with no preprocessor command, string or comment, read between
/// lines, the punctuation tokens are exactly the line's punctuation characters, in order: each
/// gives one token of the kind named for it (`+` a `Plus`, `;` a `SemiColon`, and so on), with
/// the character as its text (`&` for an apostrophe), at the character's column; and no other
/// character gives a token of those kinds.
pub proof fn law_punctuation_tokens(
    inc: spec_fn(Seq<char>) -> RunOut,
    file: Seq<char>,
    line: Seq<char>,
    line_n: usize,
    t: TokState,
)
    requires
        between_lines(t),
        bare_line(line),
        line.len() < usize::MAX,
    ensures
        line_run(inc, file, line, line_n, t).1 matches Ok(toks) ==> punctuation_tokens(toks)
            == punctuation_in_line(line, line.len() as int),
{
    reveal(line_run);
    let t0 = TokState { state: State::Inital, ..t };
    assert(t0.out =~= Seq::<TokenView>::empty());
    assert(punctuation_tokens(t0.out) =~= punctuation_in_line(line, 0));
    lemma_bare_chars(inc, file, line_n, line, 0, t0);
}


/// The word of each keyword, primitive type and preprocessor command.
pub open spec fn keyword_text(k: TokenKind) -> Option<Seq<char>> {
    match k {
        TokenKind::KWfn => Some(seq!['f', 'n']),
        TokenKind::KWlet => Some(seq!['l', 'e', 't']),
        TokenKind::KWreturn => Some(seq!['r', 'e', 't', 'u', 'r', 'n']),
        TokenKind::KWif => Some(seq!['i', 'f']),
        TokenKind::KWelse => Some(seq!['e', 'l', 's', 'e']),
        TokenKind::KWmatch => Some(seq!['m', 'a', 't', 'c', 'h']),
        TokenKind::KWwhile => Some(seq!['w', 'h', 'i', 'l', 'e']),
        TokenKind::KWfor => Some(seq!['f', 'o', 'r']),
        TokenKind::KWin => Some(seq!['i', 'n']),
        TokenKind::KWbreak => Some(seq!['b', 'r', 'e', 'a', 'k']),
        TokenKind::KWcontinue => Some(seq!['c', 'o', 'n', 't', 'i', 'n', 'u', 'e']),
        TokenKind::KWstruct => Some(seq!['s', 't', 'r', 'u', 'c', 't']),
        TokenKind::KWenum => Some(seq!['e', 'n', 'u', 'm']),
        TokenKind::KWconst => Some(seq!['c', 'o', 'n', 's', 't']),
        TokenKind::KWstatic => Some(seq!['s', 't', 'a', 't', 'i', 'c']),
        TokenKind::Primitive(PrimitiveType::Unsigned8) => Some(seq!['u', '8']),
        TokenKind::Primitive(PrimitiveType::Unsigned16) => Some(seq!['u', '1', '6']),
        TokenKind::Primitive(PrimitiveType::Unsigned32) => Some(seq!['u', '3', '2']),
        TokenKind::Primitive(PrimitiveType::Unsigned64) => Some(seq!['u', '6', '4']),
        TokenKind::Primitive(PrimitiveType::Signed8) => Some(seq!['i', '8']),
        TokenKind::Primitive(PrimitiveType::Signed16) => Some(seq!['i', '1', '6']),
        TokenKind::Primitive(PrimitiveType::Signed32) => Some(seq!['i', '3', '2']),
        TokenKind::Primitive(PrimitiveType::Signed64) => Some(seq!['i', '6', '4']),
        TokenKind::Primitive(PrimitiveType::Float32) => Some(seq!['f', '3', '2']),
        TokenKind::Include => Some(seq!['i', 'n', 'c', 'l', 'u', 'd', 'e']),
        _ => None,
    }
}

proof fn lemma_keyword_named_0(k: TokenKind)
    requires
        k == TokenKind::KWfn || k == TokenKind::KWlet || k == TokenKind::KWreturn || k == TokenKind::KWif || k == TokenKind::KWelse,
    ensures
        keyword(keyword_text(k)->0) == Some(k),
{
    match k {
        TokenKind::KWfn => {
            let w = seq!['f', 'n'];
            assert(w.len() != seq!['l', 'e', 't'].len());
            assert(w.len() != seq!['r', 'e', 't', 'u', 'r', 'n'].len());
            assert(w[0] != seq!['i', 'f'][0]);
            assert(w.len() != seq!['e', 'l', 's', 'e'].len());
            assert(w.len() != seq!['m', 'a', 't', 'c', 'h'].len());
            assert(w.len() != seq!['w', 'h', 'i', 'l', 'e'].len());
            assert(w.len() != seq!['f', 'o', 'r'].len());
            assert(w[0] != seq!['i', 'n'][0]);
            assert(w.len() != seq!['b', 'r', 'e', 'a', 'k'].len());
            assert(w.len() != seq!['c', 'o', 'n', 't', 'i', 'n', 'u', 'e'].len());
            assert(w.len() != seq!['s', 't', 'r', 'u', 'c', 't'].len());
            assert(w.len() != seq!['e', 'n', 'u', 'm'].len());
            assert(w.len() != seq!['c', 'o', 'n', 's', 't'].len());
            assert(w.len() != seq!['s', 't', 'a', 't', 'i', 'c'].len());
            assert(w[0] != seq!['u', '8'][0]);
            assert(w.len() != seq!['u', '1', '6'].len());
            assert(w.len() != seq!['u', '3', '2'].len());
            assert(w.len() != seq!['u', '6', '4'].len());
            assert(w[0] != seq!['i', '8'][0]);
            assert(w.len() != seq!['i', '1', '6'].len());
            assert(w.len() != seq!['i', '3', '2'].len());
            assert(w.len() != seq!['i', '6', '4'].len());
            assert(w.len() != seq!['f', '3', '2'].len());
            assert(w.len() != seq!['i', 'n', 'c', 'l', 'u', 'd', 'e'].len());
            assert(keyword(w) == Some(TokenKind::KWfn));
        },
        TokenKind::KWlet => {
            let w = seq!['l', 'e', 't'];
            assert(w.len() != seq!['f', 'n'].len());
            assert(w.len() != seq!['r', 'e', 't', 'u', 'r', 'n'].len());
            assert(w.len() != seq!['i', 'f'].len());
            assert(w.len() != seq!['e', 'l', 's', 'e'].len());
            assert(w.len() != seq!['m', 'a', 't', 'c', 'h'].len());
            assert(w.len() != seq!['w', 'h', 'i', 'l', 'e'].len());
            assert(w[0] != seq!['f', 'o', 'r'][0]);
            assert(w.len() != seq!['i', 'n'].len());
            assert(w.len() != seq!['b', 'r', 'e', 'a', 'k'].len());
            assert(w.len() != seq!['c', 'o', 'n', 't', 'i', 'n', 'u', 'e'].len());
            assert(w.len() != seq!['s', 't', 'r', 'u', 'c', 't'].len());
            assert(w.len() != seq!['e', 'n', 'u', 'm'].len());
            assert(w.len() != seq!['c', 'o', 'n', 's', 't'].len());
            assert(w.len() != seq!['s', 't', 'a', 't', 'i', 'c'].len());
            assert(w.len() != seq!['u', '8'].len());
            assert(w[0] != seq!['u', '1', '6'][0]);
            assert(w[0] != seq!['u', '3', '2'][0]);
            assert(w[0] != seq!['u', '6', '4'][0]);
            assert(w.len() != seq!['i', '8'].len());
            assert(w[0] != seq!['i', '1', '6'][0]);
            assert(w[0] != seq!['i', '3', '2'][0]);
            assert(w[0] != seq!['i', '6', '4'][0]);
            assert(w[0] != seq!['f', '3', '2'][0]);
            assert(w.len() != seq!['i', 'n', 'c', 'l', 'u', 'd', 'e'].len());
            assert(keyword(w) == Some(TokenKind::KWlet));
        },
        TokenKind::KWreturn => {
            let w = seq!['r', 'e', 't', 'u', 'r', 'n'];
            assert(w.len() != seq!['f', 'n'].len());
            assert(w.len() != seq!['l', 'e', 't'].len());
            assert(w.len() != seq!['i', 'f'].len());
            assert(w.len() != seq!['e', 'l', 's', 'e'].len());
            assert(w.len() != seq!['m', 'a', 't', 'c', 'h'].len());
            assert(w.len() != seq!['w', 'h', 'i', 'l', 'e'].len());
            assert(w.len() != seq!['f', 'o', 'r'].len());
            assert(w.len() != seq!['i', 'n'].len());
            assert(w.len() != seq!['b', 'r', 'e', 'a', 'k'].len());
            assert(w.len() != seq!['c', 'o', 'n', 't', 'i', 'n', 'u', 'e'].len());
            assert(w[0] != seq!['s', 't', 'r', 'u', 'c', 't'][0]);
            assert(w.len() != seq!['e', 'n', 'u', 'm'].len());
            assert(w.len() != seq!['c', 'o', 'n', 's', 't'].len());
            assert(w[0] != seq!['s', 't', 'a', 't', 'i', 'c'][0]);
            assert(w.len() != seq!['u', '8'].len());
            assert(w.len() != seq!['u', '1', '6'].len());
            assert(w.len() != seq!['u', '3', '2'].len());
            assert(w.len() != seq!['u', '6', '4'].len());
            assert(w.len() != seq!['i', '8'].len());
            assert(w.len() != seq!['i', '1', '6'].len());
            assert(w.len() != seq!['i', '3', '2'].len());
            assert(w.len() != seq!['i', '6', '4'].len());
            assert(w.len() != seq!['f', '3', '2'].len());
            assert(w.len() != seq!['i', 'n', 'c', 'l', 'u', 'd', 'e'].len());
            assert(keyword(w) == Some(TokenKind::KWreturn));
        },
        TokenKind::KWif => {
            let w = seq!['i', 'f'];
            assert(w[0] != seq!['f', 'n'][0]);
            assert(w.len() != seq!['l', 'e', 't'].len());
            assert(w.len() != seq!['r', 'e', 't', 'u', 'r', 'n'].len());
            assert(w.len() != seq!['e', 'l', 's', 'e'].len());
            assert(w.len() != seq!['m', 'a', 't', 'c', 'h'].len());
            assert(w.len() != seq!['w', 'h', 'i', 'l', 'e'].len());
            assert(w.len() != seq!['f', 'o', 'r'].len());
            assert(w[1] != seq!['i', 'n'][1]);
            assert(w.len() != seq!['b', 'r', 'e', 'a', 'k'].len());
            assert(w.len() != seq!['c', 'o', 'n', 't', 'i', 'n', 'u', 'e'].len());
            assert(w.len() != seq!['s', 't', 'r', 'u', 'c', 't'].len());
            assert(w.len() != seq!['e', 'n', 'u', 'm'].len());
            assert(w.len() != seq!['c', 'o', 'n', 's', 't'].len());
            assert(w.len() != seq!['s', 't', 'a', 't', 'i', 'c'].len());
            assert(w[0] != seq!['u', '8'][0]);
            assert(w.len() != seq!['u', '1', '6'].len());
            assert(w.len() != seq!['u', '3', '2'].len());
            assert(w.len() != seq!['u', '6', '4'].len());
            assert(w[1] != seq!['i', '8'][1]);
            assert(w.len() != seq!['i', '1', '6'].len());
            assert(w.len() != seq!['i', '3', '2'].len());
            assert(w.len() != seq!['i', '6', '4'].len());
            assert(w.len() != seq!['f', '3', '2'].len());
            assert(w.len() != seq!['i', 'n', 'c', 'l', 'u', 'd', 'e'].len());
            assert(keyword(w) == Some(TokenKind::KWif));
        },
        TokenKind::KWelse => {
            let w = seq!['e', 'l', 's', 'e'];
            assert(w.len() != seq!['f', 'n'].len());
            assert(w.len() != seq!['l', 'e', 't'].len());
            assert(w.len() != seq!['r', 'e', 't', 'u', 'r', 'n'].len());
            assert(w.len() != seq!['i', 'f'].len());
            assert(w.len() != seq!['m', 'a', 't', 'c', 'h'].len());
            assert(w.len() != seq!['w', 'h', 'i', 'l', 'e'].len());
            assert(w.len() != seq!['f', 'o', 'r'].len());
            assert(w.len() != seq!['i', 'n'].len());
            assert(w.len() != seq!['b', 'r', 'e', 'a', 'k'].len());
            assert(w.len() != seq!['c', 'o', 'n', 't', 'i', 'n', 'u', 'e'].len());
            assert(w.len() != seq!['s', 't', 'r', 'u', 'c', 't'].len());
            assert(w[1] != seq!['e', 'n', 'u', 'm'][1]);
            assert(w.len() != seq!['c', 'o', 'n', 's', 't'].len());
            assert(w.len() != seq!['s', 't', 'a', 't', 'i', 'c'].len());
            assert(w.len() != seq!['u', '8'].len());
            assert(w.len() != seq!['u', '1', '6'].len());
            assert(w.len() != seq!['u', '3', '2'].len());
            assert(w.len() != seq!['u', '6', '4'].len());
            assert(w.len() != seq!['i', '8'].len());
            assert(w.len() != seq!['i', '1', '6'].len());
            assert(w.len() != seq!['i', '3', '2'].len());
            assert(w.len() != seq!['i', '6', '4'].len());
            assert(w.len() != seq!['f', '3', '2'].len());
            assert(w.len() != seq!['i', 'n', 'c', 'l', 'u', 'd', 'e'].len());
            assert(keyword(w) == Some(TokenKind::KWelse));
        },
        _ => {},
    }
}

proof fn lemma_keyword_named_1(k: TokenKind)
    requires
        k == TokenKind::KWmatch || k == TokenKind::KWwhile || k == TokenKind::KWfor || k == TokenKind::KWin || k == TokenKind::KWbreak,
    ensures
        keyword(keyword_text(k)->0) == Some(k),
{
    match k {
        TokenKind::KWmatch => {
            let w = seq!['m', 'a', 't', 'c', 'h'];
            assert(w.len() != seq!['f', 'n'].len());
            assert(w.len() != seq!['l', 'e', 't'].len());
            assert(w.len() != seq!['r', 'e', 't', 'u', 'r', 'n'].len());
            assert(w.len() != seq!['i', 'f'].len());
            assert(w.len() != seq!['e', 'l', 's', 'e'].len());
            assert(w[0] != seq!['w', 'h', 'i', 'l', 'e'][0]);
            assert(w.len() != seq!['f', 'o', 'r'].len());
            assert(w.len() != seq!['i', 'n'].len());
            assert(w[0] != seq!['b', 'r', 'e', 'a', 'k'][0]);
            assert(w.len() != seq!['c', 'o', 'n', 't', 'i', 'n', 'u', 'e'].len());
            assert(w.len() != seq!['s', 't', 'r', 'u', 'c', 't'].len());
            assert(w.len() != seq!['e', 'n', 'u', 'm'].len());
            assert(w[0] != seq!['c', 'o', 'n', 's', 't'][0]);
            assert(w.len() != seq!['s', 't', 'a', 't', 'i', 'c'].len());
            assert(w.len() != seq!['u', '8'].len());
            assert(w.len() != seq!['u', '1', '6'].len());
            assert(w.len() != seq!['u', '3', '2'].len());
            assert(w.len() != seq!['u', '6', '4'].len());
            assert(w.len() != seq!['i', '8'].len());
            assert(w.len() != seq!['i', '1', '6'].len());
            assert(w.len() != seq!['i', '3', '2'].len());
            assert(w.len() != seq!['i', '6', '4'].len());
            assert(w.len() != seq!['f', '3', '2'].len());
            assert(w.len() != seq!['i', 'n', 'c', 'l', 'u', 'd', 'e'].len());
            assert(keyword(w) == Some(TokenKind::KWmatch));
        },
        TokenKind::KWwhile => {
            let w = seq!['w', 'h', 'i', 'l', 'e'];
            assert(w.len() != seq!['f', 'n'].len());
            assert(w.len() != seq!['l', 'e', 't'].len());
            assert(w.len() != seq!['r', 'e', 't', 'u', 'r', 'n'].len());
            assert(w.len() != seq!['i', 'f'].len());
            assert(w.len() != seq!['e', 'l', 's', 'e'].len());
            assert(w[0] != seq!['m', 'a', 't', 'c', 'h'][0]);
            assert(w.len() != seq!['f', 'o', 'r'].len());
            assert(w.len() != seq!['i', 'n'].len());
            assert(w[0] != seq!['b', 'r', 'e', 'a', 'k'][0]);
            assert(w.len() != seq!['c', 'o', 'n', 't', 'i', 'n', 'u', 'e'].len());
            assert(w.len() != seq!['s', 't', 'r', 'u', 'c', 't'].len());
            assert(w.len() != seq!['e', 'n', 'u', 'm'].len());
            assert(w[0] != seq!['c', 'o', 'n', 's', 't'][0]);
            assert(w.len() != seq!['s', 't', 'a', 't', 'i', 'c'].len());
            assert(w.len() != seq!['u', '8'].len());
            assert(w.len() != seq!['u', '1', '6'].len());
            assert(w.len() != seq!['u', '3', '2'].len());
            assert(w.len() != seq!['u', '6', '4'].len());
            assert(w.len() != seq!['i', '8'].len());
            assert(w.len() != seq!['i', '1', '6'].len());
            assert(w.len() != seq!['i', '3', '2'].len());
            assert(w.len() != seq!['i', '6', '4'].len());
            assert(w.len() != seq!['f', '3', '2'].len());
            assert(w.len() != seq!['i', 'n', 'c', 'l', 'u', 'd', 'e'].len());
            assert(keyword(w) == Some(TokenKind::KWwhile));
        },
        TokenKind::KWfor => {
            let w = seq!['f', 'o', 'r'];
            assert(w.len() != seq!['f', 'n'].len());
            assert(w[0] != seq!['l', 'e', 't'][0]);
            assert(w.len() != seq!['r', 'e', 't', 'u', 'r', 'n'].len());
            assert(w.len() != seq!['i', 'f'].len());
            assert(w.len() != seq!['e', 'l', 's', 'e'].len());
            assert(w.len() != seq!['m', 'a', 't', 'c', 'h'].len());
            assert(w.len() != seq!['w', 'h', 'i', 'l', 'e'].len());
            assert(w.len() != seq!['i', 'n'].len());
            assert(w.len() != seq!['b', 'r', 'e', 'a', 'k'].len());
            assert(w.len() != seq!['c', 'o', 'n', 't', 'i', 'n', 'u', 'e'].len());
            assert(w.len() != seq!['s', 't', 'r', 'u', 'c', 't'].len());
            assert(w.len() != seq!['e', 'n', 'u', 'm'].len());
            assert(w.len() != seq!['c', 'o', 'n', 's', 't'].len());
            assert(w.len() != seq!['s', 't', 'a', 't', 'i', 'c'].len());
            assert(w.len() != seq!['u', '8'].len());
            assert(w[0] != seq!['u', '1', '6'][0]);
            assert(w[0] != seq!['u', '3', '2'][0]);
            assert(w[0] != seq!['u', '6', '4'][0]);
            assert(w.len() != seq!['i', '8'].len());
            assert(w[0] != seq!['i', '1', '6'][0]);
            assert(w[0] != seq!['i', '3', '2'][0]);
            assert(w[0] != seq!['i', '6', '4'][0]);
            assert(w[1] != seq!['f', '3', '2'][1]);
            assert(w.len() != seq!['i', 'n', 'c', 'l', 'u', 'd', 'e'].len());
            assert(keyword(w) == Some(TokenKind::KWfor));
        },
        TokenKind::KWin => {
            let w = seq!['i', 'n'];
            assert(w[0] != seq!['f', 'n'][0]);
            assert(w.len() != seq!['l', 'e', 't'].len());
            assert(w.len() != seq!['r', 'e', 't', 'u', 'r', 'n'].len());
            assert(w[1] != seq!['i', 'f'][1]);
            assert(w.len() != seq!['e', 'l', 's', 'e'].len());
            assert(w.len() != seq!['m', 'a', 't', 'c', 'h'].len());
            assert(w.len() != seq!['w', 'h', 'i', 'l', 'e'].len());
            assert(w.len() != seq!['f', 'o', 'r'].len());
            assert(w.len() != seq!['b', 'r', 'e', 'a', 'k'].len());
            assert(w.len() != seq!['c', 'o', 'n', 't', 'i', 'n', 'u', 'e'].len());
            assert(w.len() != seq!['s', 't', 'r', 'u', 'c', 't'].len());
            assert(w.len() != seq!['e', 'n', 'u', 'm'].len());
            assert(w.len() != seq!['c', 'o', 'n', 's', 't'].len());
            assert(w.len() != seq!['s', 't', 'a', 't', 'i', 'c'].len());
            assert(w[0] != seq!['u', '8'][0]);
            assert(w.len() != seq!['u', '1', '6'].len());
            assert(w.len() != seq!['u', '3', '2'].len());
            assert(w.len() != seq!['u', '6', '4'].len());
            assert(w[1] != seq!['i', '8'][1]);
            assert(w.len() != seq!['i', '1', '6'].len());
            assert(w.len() != seq!['i', '3', '2'].len());
            assert(w.len() != seq!['i', '6', '4'].len());
            assert(w.len() != seq!['f', '3', '2'].len());
            assert(w.len() != seq!['i', 'n', 'c', 'l', 'u', 'd', 'e'].len());
            assert(keyword(w) == Some(TokenKind::KWin));
        },
        TokenKind::KWbreak => {
            let w = seq!['b', 'r', 'e', 'a', 'k'];
            assert(w.len() != seq!['f', 'n'].len());
            assert(w.len() != seq!['l', 'e', 't'].len());
            assert(w.len() != seq!['r', 'e', 't', 'u', 'r', 'n'].len());
            assert(w.len() != seq!['i', 'f'].len());
            assert(w.len() != seq!['e', 'l', 's', 'e'].len());
            assert(w[0] != seq!['m', 'a', 't', 'c', 'h'][0]);
            assert(w[0] != seq!['w', 'h', 'i', 'l', 'e'][0]);
            assert(w.len() != seq!['f', 'o', 'r'].len());
            assert(w.len() != seq!['i', 'n'].len());
            assert(w.len() != seq!['c', 'o', 'n', 't', 'i', 'n', 'u', 'e'].len());
            assert(w.len() != seq!['s', 't', 'r', 'u', 'c', 't'].len());
            assert(w.len() != seq!['e', 'n', 'u', 'm'].len());
            assert(w[0] != seq!['c', 'o', 'n', 's', 't'][0]);
            assert(w.len() != seq!['s', 't', 'a', 't', 'i', 'c'].len());
            assert(w.len() != seq!['u', '8'].len());
            assert(w.len() != seq!['u', '1', '6'].len());
            assert(w.len() != seq!['u', '3', '2'].len());
            assert(w.len() != seq!['u', '6', '4'].len());
            assert(w.len() != seq!['i', '8'].len());
            assert(w.len() != seq!['i', '1', '6'].len());
            assert(w.len() != seq!['i', '3', '2'].len());
            assert(w.len() != seq!['i', '6', '4'].len());
            assert(w.len() != seq!['f', '3', '2'].len());
            assert(w.len() != seq!['i', 'n', 'c', 'l', 'u', 'd', 'e'].len());
            assert(keyword(w) == Some(TokenKind::KWbreak));
        },
        _ => {},
    }
}

proof fn lemma_keyword_named_2(k: TokenKind)
    requires
        k == TokenKind::KWcontinue || k == TokenKind::KWstruct || k == TokenKind::KWenum || k == TokenKind::KWconst || k == TokenKind::KWstatic,
    ensures
        keyword(keyword_text(k)->0) == Some(k),
{
    match k {
        TokenKind::KWcontinue => {
            let w = seq!['c', 'o', 'n', 't', 'i', 'n', 'u', 'e'];
            assert(w.len() != seq!['f', 'n'].len());
            assert(w.len() != seq!['l', 'e', 't'].len());
            assert(w.len() != seq!['r', 'e', 't', 'u', 'r', 'n'].len());
            assert(w.len() != seq!['i', 'f'].len());
            assert(w.len() != seq!['e', 'l', 's', 'e'].len());
            assert(w.len() != seq!['m', 'a', 't', 'c', 'h'].len());
            assert(w.len() != seq!['w', 'h', 'i', 'l', 'e'].len());
            assert(w.len() != seq!['f', 'o', 'r'].len());
            assert(w.len() != seq!['i', 'n'].len());
            assert(w.len() != seq!['b', 'r', 'e', 'a', 'k'].len());
            assert(w.len() != seq!['s', 't', 'r', 'u', 'c', 't'].len());
            assert(w.len() != seq!['e', 'n', 'u', 'm'].len());
            assert(w.len() != seq!['c', 'o', 'n', 's', 't'].len());
            assert(w.len() != seq!['s', 't', 'a', 't', 'i', 'c'].len());
            assert(w.len() != seq!['u', '8'].len());
            assert(w.len() != seq!['u', '1', '6'].len());
            assert(w.len() != seq!['u', '3', '2'].len());
            assert(w.len() != seq!['u', '6', '4'].len());
            assert(w.len() != seq!['i', '8'].len());
            assert(w.len() != seq!['i', '1', '6'].len());
            assert(w.len() != seq!['i', '3', '2'].len());
            assert(w.len() != seq!['i', '6', '4'].len());
            assert(w.len() != seq!['f', '3', '2'].len());
            assert(w.len() != seq!['i', 'n', 'c', 'l', 'u', 'd', 'e'].len());
            assert(keyword(w) == Some(TokenKind::KWcontinue));
        },
        TokenKind::KWstruct => {
            let w = seq!['s', 't', 'r', 'u', 'c', 't'];
            assert(w.len() != seq!['f', 'n'].len());
            assert(w.len() != seq!['l', 'e', 't'].len());
            assert(w[0] != seq!['r', 'e', 't', 'u', 'r', 'n'][0]);
            assert(w.len() != seq!['i', 'f'].len());
            assert(w.len() != seq!['e', 'l', 's', 'e'].len());
            assert(w.len() != seq!['m', 'a', 't', 'c', 'h'].len());
            assert(w.len() != seq!['w', 'h', 'i', 'l', 'e'].len());
            assert(w.len() != seq!['f', 'o', 'r'].len());
            assert(w.len() != seq!['i', 'n'].len());
            assert(w.len() != seq!['b', 'r', 'e', 'a', 'k'].len());
            assert(w.len() != seq!['c', 'o', 'n', 't', 'i', 'n', 'u', 'e'].len());
            assert(w.len() != seq!['e', 'n', 'u', 'm'].len());
            assert(w.len() != seq!['c', 'o', 'n', 's', 't'].len());
            assert(w[2] != seq!['s', 't', 'a', 't', 'i', 'c'][2]);
            assert(w.len() != seq!['u', '8'].len());
            assert(w.len() != seq!['u', '1', '6'].len());
            assert(w.len() != seq!['u', '3', '2'].len());
            assert(w.len() != seq!['u', '6', '4'].len());
            assert(w.len() != seq!['i', '8'].len());
            assert(w.len() != seq!['i', '1', '6'].len());
            assert(w.len() != seq!['i', '3', '2'].len());
            assert(w.len() != seq!['i', '6', '4'].len());
            assert(w.len() != seq!['f', '3', '2'].len());
            assert(w.len() != seq!['i', 'n', 'c', 'l', 'u', 'd', 'e'].len());
            assert(keyword(w) == Some(TokenKind::KWstruct));
        },
        TokenKind::KWenum => {
            let w = seq!['e', 'n', 'u', 'm'];
            assert(w.len() != seq!['f', 'n'].len());
            assert(w.len() != seq!['l', 'e', 't'].len());
            assert(w.len() != seq!['r', 'e', 't', 'u', 'r', 'n'].len());
            assert(w.len() != seq!['i', 'f'].len());
            assert(w[1] != seq!['e', 'l', 's', 'e'][1]);
            assert(w.len() != seq!['m', 'a', 't', 'c', 'h'].len());
            assert(w.len() != seq!['w', 'h', 'i', 'l', 'e'].len());
            assert(w.len() != seq!['f', 'o', 'r'].len());
            assert(w.len() != seq!['i', 'n'].len());
            assert(w.len() != seq!['b', 'r', 'e', 'a', 'k'].len());
            assert(w.len() != seq!['c', 'o', 'n', 't', 'i', 'n', 'u', 'e'].len());
            assert(w.len() != seq!['s', 't', 'r', 'u', 'c', 't'].len());
            assert(w.len() != seq!['c', 'o', 'n', 's', 't'].len());
            assert(w.len() != seq!['s', 't', 'a', 't', 'i', 'c'].len());
            assert(w.len() != seq!['u', '8'].len());
            assert(w.len() != seq!['u', '1', '6'].len());
            assert(w.len() != seq!['u', '3', '2'].len());
            assert(w.len() != seq!['u', '6', '4'].len());
            assert(w.len() != seq!['i', '8'].len());
            assert(w.len() != seq!['i', '1', '6'].len());
            assert(w.len() != seq!['i', '3', '2'].len());
            assert(w.len() != seq!['i', '6', '4'].len());
            assert(w.len() != seq!['f', '3', '2'].len());
            assert(w.len() != seq!['i', 'n', 'c', 'l', 'u', 'd', 'e'].len());
            assert(keyword(w) == Some(TokenKind::KWenum));
        },
        TokenKind::KWconst => {
            let w = seq!['c', 'o', 'n', 's', 't'];
            assert(w.len() != seq!['f', 'n'].len());
            assert(w.len() != seq!['l', 'e', 't'].len());
            assert(w.len() != seq!['r', 'e', 't', 'u', 'r', 'n'].len());
            assert(w.len() != seq!['i', 'f'].len());
            assert(w.len() != seq!['e', 'l', 's', 'e'].len());
            assert(w[0] != seq!['m', 'a', 't', 'c', 'h'][0]);
            assert(w[0] != seq!['w', 'h', 'i', 'l', 'e'][0]);
            assert(w.len() != seq!['f', 'o', 'r'].len());
            assert(w.len() != seq!['i', 'n'].len());
            assert(w[0] != seq!['b', 'r', 'e', 'a', 'k'][0]);
            assert(w.len() != seq!['c', 'o', 'n', 't', 'i', 'n', 'u', 'e'].len());
            assert(w.len() != seq!['s', 't', 'r', 'u', 'c', 't'].len());
            assert(w.len() != seq!['e', 'n', 'u', 'm'].len());
            assert(w.len() != seq!['s', 't', 'a', 't', 'i', 'c'].len());
            assert(w.len() != seq!['u', '8'].len());
            assert(w.len() != seq!['u', '1', '6'].len());
            assert(w.len() != seq!['u', '3', '2'].len());
            assert(w.len() != seq!['u', '6', '4'].len());
            assert(w.len() != seq!['i', '8'].len());
            assert(w.len() != seq!['i', '1', '6'].len());
            assert(w.len() != seq!['i', '3', '2'].len());
            assert(w.len() != seq!['i', '6', '4'].len());
            assert(w.len() != seq!['f', '3', '2'].len());
            assert(w.len() != seq!['i', 'n', 'c', 'l', 'u', 'd', 'e'].len());
            assert(keyword(w) == Some(TokenKind::KWconst));
        },
        TokenKind::KWstatic => {
            let w = seq!['s', 't', 'a', 't', 'i', 'c'];
            assert(w.len() != seq!['f', 'n'].len());
            assert(w.len() != seq!['l', 'e', 't'].len());
            assert(w[0] != seq!['r', 'e', 't', 'u', 'r', 'n'][0]);
            assert(w.len() != seq!['i', 'f'].len());
            assert(w.len() != seq!['e', 'l', 's', 'e'].len());
            assert(w.len() != seq!['m', 'a', 't', 'c', 'h'].len());
            assert(w.len() != seq!['w', 'h', 'i', 'l', 'e'].len());
            assert(w.len() != seq!['f', 'o', 'r'].len());
            assert(w.len() != seq!['i', 'n'].len());
            assert(w.len() != seq!['b', 'r', 'e', 'a', 'k'].len());
            assert(w.len() != seq!['c', 'o', 'n', 't', 'i', 'n', 'u', 'e'].len());
            assert(w[2] != seq!['s', 't', 'r', 'u', 'c', 't'][2]);
            assert(w.len() != seq!['e', 'n', 'u', 'm'].len());
            assert(w.len() != seq!['c', 'o', 'n', 's', 't'].len());
            assert(w.len() != seq!['u', '8'].len());
            assert(w.len() != seq!['u', '1', '6'].len());
            assert(w.len() != seq!['u', '3', '2'].len());
            assert(w.len() != seq!['u', '6', '4'].len());
            assert(w.len() != seq!['i', '8'].len());
            assert(w.len() != seq!['i', '1', '6'].len());
            assert(w.len() != seq!['i', '3', '2'].len());
            assert(w.len() != seq!['i', '6', '4'].len());
            assert(w.len() != seq!['f', '3', '2'].len());
            assert(w.len() != seq!['i', 'n', 'c', 'l', 'u', 'd', 'e'].len());
            assert(keyword(w) == Some(TokenKind::KWstatic));
        },
        _ => {},
    }
}

proof fn lemma_keyword_named_3(k: TokenKind)
    requires
        k == TokenKind::Primitive(PrimitiveType::Unsigned8) || k == TokenKind::Primitive(PrimitiveType::Unsigned16) || k == TokenKind::Primitive(PrimitiveType::Unsigned32) || k == TokenKind::Primitive(PrimitiveType::Unsigned64) || k == TokenKind::Primitive(PrimitiveType::Signed8),
    ensures
        keyword(keyword_text(k)->0) == Some(k),
{
    match k {
        TokenKind::Primitive(PrimitiveType::Unsigned8) => {
            let w = seq!['u', '8'];
            assert(w[0] != seq!['f', 'n'][0]);
            assert(w.len() != seq!['l', 'e', 't'].len());
            assert(w.len() != seq!['r', 'e', 't', 'u', 'r', 'n'].len());
            assert(w[0] != seq!['i', 'f'][0]);
            assert(w.len() != seq!['e', 'l', 's', 'e'].len());
            assert(w.len() != seq!['m', 'a', 't', 'c', 'h'].len());
            assert(w.len() != seq!['w', 'h', 'i', 'l', 'e'].len());
            assert(w.len() != seq!['f', 'o', 'r'].len());
            assert(w[0] != seq!['i', 'n'][0]);
            assert(w.len() != seq!['b', 'r', 'e', 'a', 'k'].len());
            assert(w.len() != seq!['c', 'o', 'n', 't', 'i', 'n', 'u', 'e'].len());
            assert(w.len() != seq!['s', 't', 'r', 'u', 'c', 't'].len());
            assert(w.len() != seq!['e', 'n', 'u', 'm'].len());
            assert(w.len() != seq!['c', 'o', 'n', 's', 't'].len());
            assert(w.len() != seq!['s', 't', 'a', 't', 'i', 'c'].len());
            assert(w.len() != seq!['u', '1', '6'].len());
            assert(w.len() != seq!['u', '3', '2'].len());
            assert(w.len() != seq!['u', '6', '4'].len());
            assert(w[0] != seq!['i', '8'][0]);
            assert(w.len() != seq!['i', '1', '6'].len());
            assert(w.len() != seq!['i', '3', '2'].len());
            assert(w.len() != seq!['i', '6', '4'].len());
            assert(w.len() != seq!['f', '3', '2'].len());
            assert(w.len() != seq!['i', 'n', 'c', 'l', 'u', 'd', 'e'].len());
            assert(keyword(w) == Some(TokenKind::Primitive(PrimitiveType::Unsigned8)));
        },
        TokenKind::Primitive(PrimitiveType::Unsigned16) => {
            let w = seq!['u', '1', '6'];
            assert(w.len() != seq!['f', 'n'].len());
            assert(w[0] != seq!['l', 'e', 't'][0]);
            assert(w.len() != seq!['r', 'e', 't', 'u', 'r', 'n'].len());
            assert(w.len() != seq!['i', 'f'].len());
            assert(w.len() != seq!['e', 'l', 's', 'e'].len());
            assert(w.len() != seq!['m', 'a', 't', 'c', 'h'].len());
            assert(w.len() != seq!['w', 'h', 'i', 'l', 'e'].len());
            assert(w[0] != seq!['f', 'o', 'r'][0]);
            assert(w.len() != seq!['i', 'n'].len());
            assert(w.len() != seq!['b', 'r', 'e', 'a', 'k'].len());
            assert(w.len() != seq!['c', 'o', 'n', 't', 'i', 'n', 'u', 'e'].len());
            assert(w.len() != seq!['s', 't', 'r', 'u', 'c', 't'].len());
            assert(w.len() != seq!['e', 'n', 'u', 'm'].len());
            assert(w.len() != seq!['c', 'o', 'n', 's', 't'].len());
            assert(w.len() != seq!['s', 't', 'a', 't', 'i', 'c'].len());
            assert(w.len() != seq!['u', '8'].len());
            assert(w[1] != seq!['u', '3', '2'][1]);
            assert(w[1] != seq!['u', '6', '4'][1]);
            assert(w.len() != seq!['i', '8'].len());
            assert(w[0] != seq!['i', '1', '6'][0]);
            assert(w[0] != seq!['i', '3', '2'][0]);
            assert(w[0] != seq!['i', '6', '4'][0]);
            assert(w[0] != seq!['f', '3', '2'][0]);
            assert(w.len() != seq!['i', 'n', 'c', 'l', 'u', 'd', 'e'].len());
            assert(keyword(w) == Some(TokenKind::Primitive(PrimitiveType::Unsigned16)));
        },
        TokenKind::Primitive(PrimitiveType::Unsigned32) => {
            let w = seq!['u', '3', '2'];
            assert(w.len() != seq!['f', 'n'].len());
            assert(w[0] != seq!['l', 'e', 't'][0]);
            assert(w.len() != seq!['r', 'e', 't', 'u', 'r', 'n'].len());
            assert(w.len() != seq!['i', 'f'].len());
            assert(w.len() != seq!['e', 'l', 's', 'e'].len());
            assert(w.len() != seq!['m', 'a', 't', 'c', 'h'].len());
            assert(w.len() != seq!['w', 'h', 'i', 'l', 'e'].len());
            assert(w[0] != seq!['f', 'o', 'r'][0]);
            assert(w.len() != seq!['i', 'n'].len());
            assert(w.len() != seq!['b', 'r', 'e', 'a', 'k'].len());
            assert(w.len() != seq!['c', 'o', 'n', 't', 'i', 'n', 'u', 'e'].len());
            assert(w.len() != seq!['s', 't', 'r', 'u', 'c', 't'].len());
            assert(w.len() != seq!['e', 'n', 'u', 'm'].len());
            assert(w.len() != seq!['c', 'o', 'n', 's', 't'].len());
            assert(w.len() != seq!['s', 't', 'a', 't', 'i', 'c'].len());
            assert(w.len() != seq!['u', '8'].len());
            assert(w[1] != seq!['u', '1', '6'][1]);
            assert(w[1] != seq!['u', '6', '4'][1]);
            assert(w.len() != seq!['i', '8'].len());
            assert(w[0] != seq!['i', '1', '6'][0]);
            assert(w[0] != seq!['i', '3', '2'][0]);
            assert(w[0] != seq!['i', '6', '4'][0]);
            assert(w[0] != seq!['f', '3', '2'][0]);
            assert(w.len() != seq!['i', 'n', 'c', 'l', 'u', 'd', 'e'].len());
            assert(keyword(w) == Some(TokenKind::Primitive(PrimitiveType::Unsigned32)));
        },
        TokenKind::Primitive(PrimitiveType::Unsigned64) => {
            let w = seq!['u', '6', '4'];
            assert(w.len() != seq!['f', 'n'].len());
            assert(w[0] != seq!['l', 'e', 't'][0]);
            assert(w.len() != seq!['r', 'e', 't', 'u', 'r', 'n'].len());
            assert(w.len() != seq!['i', 'f'].len());
            assert(w.len() != seq!['e', 'l', 's', 'e'].len());
            assert(w.len() != seq!['m', 'a', 't', 'c', 'h'].len());
            assert(w.len() != seq!['w', 'h', 'i', 'l', 'e'].len());
            assert(w[0] != seq!['f', 'o', 'r'][0]);
            assert(w.len() != seq!['i', 'n'].len());
            assert(w.len() != seq!['b', 'r', 'e', 'a', 'k'].len());
            assert(w.len() != seq!['c', 'o', 'n', 't', 'i', 'n', 'u', 'e'].len());
            assert(w.len() != seq!['s', 't', 'r', 'u', 'c', 't'].len());
            assert(w.len() != seq!['e', 'n', 'u', 'm'].len());
            assert(w.len() != seq!['c', 'o', 'n', 's', 't'].len());
            assert(w.len() != seq!['s', 't', 'a', 't', 'i', 'c'].len());
            assert(w.len() != seq!['u', '8'].len());
            assert(w[1] != seq!['u', '1', '6'][1]);
            assert(w[1] != seq!['u', '3', '2'][1]);
            assert(w.len() != seq!['i', '8'].len());
            assert(w[0] != seq!['i', '1', '6'][0]);
            assert(w[0] != seq!['i', '3', '2'][0]);
            assert(w[0] != seq!['i', '6', '4'][0]);
            assert(w[0] != seq!['f', '3', '2'][0]);
            assert(w.len() != seq!['i', 'n', 'c', 'l', 'u', 'd', 'e'].len());
            assert(keyword(w) == Some(TokenKind::Primitive(PrimitiveType::Unsigned64)));
        },
        TokenKind::Primitive(PrimitiveType::Signed8) => {
            let w = seq!['i', '8'];
            assert(w[0] != seq!['f', 'n'][0]);
            assert(w.len() != seq!['l', 'e', 't'].len());
            assert(w.len() != seq!['r', 'e', 't', 'u', 'r', 'n'].len());
            assert(w[1] != seq!['i', 'f'][1]);
            assert(w.len() != seq!['e', 'l', 's', 'e'].len());
            assert(w.len() != seq!['m', 'a', 't', 'c', 'h'].len());
            assert(w.len() != seq!['w', 'h', 'i', 'l', 'e'].len());
            assert(w.len() != seq!['f', 'o', 'r'].len());
            assert(w[1] != seq!['i', 'n'][1]);
            assert(w.len() != seq!['b', 'r', 'e', 'a', 'k'].len());
            assert(w.len() != seq!['c', 'o', 'n', 't', 'i', 'n', 'u', 'e'].len());
            assert(w.len() != seq!['s', 't', 'r', 'u', 'c', 't'].len());
            assert(w.len() != seq!['e', 'n', 'u', 'm'].len());
            assert(w.len() != seq!['c', 'o', 'n', 's', 't'].len());
            assert(w.len() != seq!['s', 't', 'a', 't', 'i', 'c'].len());
            assert(w[0] != seq!['u', '8'][0]);
            assert(w.len() != seq!['u', '1', '6'].len());
            assert(w.len() != seq!['u', '3', '2'].len());
            assert(w.len() != seq!['u', '6', '4'].len());
            assert(w.len() != seq!['i', '1', '6'].len());
            assert(w.len() != seq!['i', '3', '2'].len());
            assert(w.len() != seq!['i', '6', '4'].len());
            assert(w.len() != seq!['f', '3', '2'].len());
            assert(w.len() != seq!['i', 'n', 'c', 'l', 'u', 'd', 'e'].len());
            assert(keyword(w) == Some(TokenKind::Primitive(PrimitiveType::Signed8)));
        },
        _ => {},
    }
}

proof fn lemma_keyword_named_4(k: TokenKind)
    requires
        k == TokenKind::Primitive(PrimitiveType::Signed16) || k == TokenKind::Primitive(PrimitiveType::Signed32) || k == TokenKind::Primitive(PrimitiveType::Signed64) || k == TokenKind::Primitive(PrimitiveType::Float32) || k == TokenKind::Include,
    ensures
        keyword(keyword_text(k)->0) == Some(k),
{
    match k {
        TokenKind::Primitive(PrimitiveType::Signed16) => {
            let w = seq!['i', '1', '6'];
            assert(w.len() != seq!['f', 'n'].len());
            assert(w[0] != seq!['l', 'e', 't'][0]);
            assert(w.len() != seq!['r', 'e', 't', 'u', 'r', 'n'].len());
            assert(w.len() != seq!['i', 'f'].len());
            assert(w.len() != seq!['e', 'l', 's', 'e'].len());
            assert(w.len() != seq!['m', 'a', 't', 'c', 'h'].len());
            assert(w.len() != seq!['w', 'h', 'i', 'l', 'e'].len());
            assert(w[0] != seq!['f', 'o', 'r'][0]);
            assert(w.len() != seq!['i', 'n'].len());
            assert(w.len() != seq!['b', 'r', 'e', 'a', 'k'].len());
            assert(w.len() != seq!['c', 'o', 'n', 't', 'i', 'n', 'u', 'e'].len());
            assert(w.len() != seq!['s', 't', 'r', 'u', 'c', 't'].len());
            assert(w.len() != seq!['e', 'n', 'u', 'm'].len());
            assert(w.len() != seq!['c', 'o', 'n', 's', 't'].len());
            assert(w.len() != seq!['s', 't', 'a', 't', 'i', 'c'].len());
            assert(w.len() != seq!['u', '8'].len());
            assert(w[0] != seq!['u', '1', '6'][0]);
            assert(w[0] != seq!['u', '3', '2'][0]);
            assert(w[0] != seq!['u', '6', '4'][0]);
            assert(w.len() != seq!['i', '8'].len());
            assert(w[1] != seq!['i', '3', '2'][1]);
            assert(w[1] != seq!['i', '6', '4'][1]);
            assert(w[0] != seq!['f', '3', '2'][0]);
            assert(w.len() != seq!['i', 'n', 'c', 'l', 'u', 'd', 'e'].len());
            assert(keyword(w) == Some(TokenKind::Primitive(PrimitiveType::Signed16)));
        },
        TokenKind::Primitive(PrimitiveType::Signed32) => {
            let w = seq!['i', '3', '2'];
            assert(w.len() != seq!['f', 'n'].len());
            assert(w[0] != seq!['l', 'e', 't'][0]);
            assert(w.len() != seq!['r', 'e', 't', 'u', 'r', 'n'].len());
            assert(w.len() != seq!['i', 'f'].len());
            assert(w.len() != seq!['e', 'l', 's', 'e'].len());
            assert(w.len() != seq!['m', 'a', 't', 'c', 'h'].len());
            assert(w.len() != seq!['w', 'h', 'i', 'l', 'e'].len());
            assert(w[0] != seq!['f', 'o', 'r'][0]);
            assert(w.len() != seq!['i', 'n'].len());
            assert(w.len() != seq!['b', 'r', 'e', 'a', 'k'].len());
            assert(w.len() != seq!['c', 'o', 'n', 't', 'i', 'n', 'u', 'e'].len());
            assert(w.len() != seq!['s', 't', 'r', 'u', 'c', 't'].len());
            assert(w.len() != seq!['e', 'n', 'u', 'm'].len());
            assert(w.len() != seq!['c', 'o', 'n', 's', 't'].len());
            assert(w.len() != seq!['s', 't', 'a', 't', 'i', 'c'].len());
            assert(w.len() != seq!['u', '8'].len());
            assert(w[0] != seq!['u', '1', '6'][0]);
            assert(w[0] != seq!['u', '3', '2'][0]);
            assert(w[0] != seq!['u', '6', '4'][0]);
            assert(w.len() != seq!['i', '8'].len());
            assert(w[1] != seq!['i', '1', '6'][1]);
            assert(w[1] != seq!['i', '6', '4'][1]);
            assert(w[0] != seq!['f', '3', '2'][0]);
            assert(w.len() != seq!['i', 'n', 'c', 'l', 'u', 'd', 'e'].len());
            assert(keyword(w) == Some(TokenKind::Primitive(PrimitiveType::Signed32)));
        },
        TokenKind::Primitive(PrimitiveType::Signed64) => {
            let w = seq!['i', '6', '4'];
            assert(w.len() != seq!['f', 'n'].len());
            assert(w[0] != seq!['l', 'e', 't'][0]);
            assert(w.len() != seq!['r', 'e', 't', 'u', 'r', 'n'].len());
            assert(w.len() != seq!['i', 'f'].len());
            assert(w.len() != seq!['e', 'l', 's', 'e'].len());
            assert(w.len() != seq!['m', 'a', 't', 'c', 'h'].len());
            assert(w.len() != seq!['w', 'h', 'i', 'l', 'e'].len());
            assert(w[0] != seq!['f', 'o', 'r'][0]);
            assert(w.len() != seq!['i', 'n'].len());
            assert(w.len() != seq!['b', 'r', 'e', 'a', 'k'].len());
            assert(w.len() != seq!['c', 'o', 'n', 't', 'i', 'n', 'u', 'e'].len());
            assert(w.len() != seq!['s', 't', 'r', 'u', 'c', 't'].len());
            assert(w.len() != seq!['e', 'n', 'u', 'm'].len());
            assert(w.len() != seq!['c', 'o', 'n', 's', 't'].len());
            assert(w.len() != seq!['s', 't', 'a', 't', 'i', 'c'].len());
            assert(w.len() != seq!['u', '8'].len());
            assert(w[0] != seq!['u', '1', '6'][0]);
            assert(w[0] != seq!['u', '3', '2'][0]);
            assert(w[0] != seq!['u', '6', '4'][0]);
            assert(w.len() != seq!['i', '8'].len());
            assert(w[1] != seq!['i', '1', '6'][1]);
            assert(w[1] != seq!['i', '3', '2'][1]);
            assert(w[0] != seq!['f', '3', '2'][0]);
            assert(w.len() != seq!['i', 'n', 'c', 'l', 'u', 'd', 'e'].len());
            assert(keyword(w) == Some(TokenKind::Primitive(PrimitiveType::Signed64)));
        },
        TokenKind::Primitive(PrimitiveType::Float32) => {
            let w = seq!['f', '3', '2'];
            assert(w.len() != seq!['f', 'n'].len());
            assert(w[0] != seq!['l', 'e', 't'][0]);
            assert(w.len() != seq!['r', 'e', 't', 'u', 'r', 'n'].len());
            assert(w.len() != seq!['i', 'f'].len());
            assert(w.len() != seq!['e', 'l', 's', 'e'].len());
            assert(w.len() != seq!['m', 'a', 't', 'c', 'h'].len());
            assert(w.len() != seq!['w', 'h', 'i', 'l', 'e'].len());
            assert(w[1] != seq!['f', 'o', 'r'][1]);
            assert(w.len() != seq!['i', 'n'].len());
            assert(w.len() != seq!['b', 'r', 'e', 'a', 'k'].len());
            assert(w.len() != seq!['c', 'o', 'n', 't', 'i', 'n', 'u', 'e'].len());
            assert(w.len() != seq!['s', 't', 'r', 'u', 'c', 't'].len());
            assert(w.len() != seq!['e', 'n', 'u', 'm'].len());
            assert(w.len() != seq!['c', 'o', 'n', 's', 't'].len());
            assert(w.len() != seq!['s', 't', 'a', 't', 'i', 'c'].len());
            assert(w.len() != seq!['u', '8'].len());
            assert(w[0] != seq!['u', '1', '6'][0]);
            assert(w[0] != seq!['u', '3', '2'][0]);
            assert(w[0] != seq!['u', '6', '4'][0]);
            assert(w.len() != seq!['i', '8'].len());
            assert(w[0] != seq!['i', '1', '6'][0]);
            assert(w[0] != seq!['i', '3', '2'][0]);
            assert(w[0] != seq!['i', '6', '4'][0]);
            assert(w.len() != seq!['i', 'n', 'c', 'l', 'u', 'd', 'e'].len());
            assert(keyword(w) == Some(TokenKind::Primitive(PrimitiveType::Float32)));
        },
        TokenKind::Include => {
            let w = seq!['i', 'n', 'c', 'l', 'u', 'd', 'e'];
            assert(w.len() != seq!['f', 'n'].len());
            assert(w.len() != seq!['l', 'e', 't'].len());
            assert(w.len() != seq!['r', 'e', 't', 'u', 'r', 'n'].len());
            assert(w.len() != seq!['i', 'f'].len());
            assert(w.len() != seq!['e', 'l', 's', 'e'].len());
            assert(w.len() != seq!['m', 'a', 't', 'c', 'h'].len());
            assert(w.len() != seq!['w', 'h', 'i', 'l', 'e'].len());
            assert(w.len() != seq!['f', 'o', 'r'].len());
            assert(w.len() != seq!['i', 'n'].len());
            assert(w.len() != seq!['b', 'r', 'e', 'a', 'k'].len());
            assert(w.len() != seq!['c', 'o', 'n', 't', 'i', 'n', 'u', 'e'].len());
            assert(w.len() != seq!['s', 't', 'r', 'u', 'c', 't'].len());
            assert(w.len() != seq!['e', 'n', 'u', 'm'].len());
            assert(w.len() != seq!['c', 'o', 'n', 's', 't'].len());
            assert(w.len() != seq!['s', 't', 'a', 't', 'i', 'c'].len());
            assert(w.len() != seq!['u', '8'].len());
            assert(w.len() != seq!['u', '1', '6'].len());
            assert(w.len() != seq!['u', '3', '2'].len());
            assert(w.len() != seq!['u', '6', '4'].len());
            assert(w.len() != seq!['i', '8'].len());
            assert(w.len() != seq!['i', '1', '6'].len());
            assert(w.len() != seq!['i', '3', '2'].len());
            assert(w.len() != seq!['i', '6', '4'].len());
            assert(w.len() != seq!['f', '3', '2'].len());
            assert(keyword(w) == Some(TokenKind::Include));
        },
        _ => {},
    }
}

/// Keywords: each keyword, primitive type name and `include` is read as its own kind.
pub proof fn law_keyword_named(k: TokenKind)
    requires
        keyword_text(k) is Some,
    ensures
        keyword(keyword_text(k)->0) == Some(k),
{
    if k == TokenKind::KWfn || k == TokenKind::KWlet || k == TokenKind::KWreturn || k == TokenKind::KWif || k == TokenKind::KWelse {
        lemma_keyword_named_0(k);
    } else if k == TokenKind::KWmatch || k == TokenKind::KWwhile || k == TokenKind::KWfor || k == TokenKind::KWin || k == TokenKind::KWbreak {
        lemma_keyword_named_1(k);
    } else if k == TokenKind::KWcontinue || k == TokenKind::KWstruct || k == TokenKind::KWenum || k == TokenKind::KWconst || k == TokenKind::KWstatic {
        lemma_keyword_named_2(k);
    } else if k == TokenKind::Primitive(PrimitiveType::Unsigned8) || k == TokenKind::Primitive(PrimitiveType::Unsigned16) || k == TokenKind::Primitive(PrimitiveType::Unsigned32) || k == TokenKind::Primitive(PrimitiveType::Unsigned64) || k == TokenKind::Primitive(PrimitiveType::Signed8) {
        lemma_keyword_named_3(k);
    } else if k == TokenKind::Primitive(PrimitiveType::Signed16) || k == TokenKind::Primitive(PrimitiveType::Signed32) || k == TokenKind::Primitive(PrimitiveType::Signed64) || k == TokenKind::Primitive(PrimitiveType::Float32) || k == TokenKind::Include {
        lemma_keyword_named_4(k);
    }
}

/// A word read as a keyword, primitive type or `include` is that kind's one word, so no two
/// words are read as the same such kind.
pub proof fn law_keyword_one_word(s: Seq<char>)
    requires
        keyword(s) is Some,
    ensures
        keyword_text(keyword(s)->0) == Some(s),
{
}

} // verus!
