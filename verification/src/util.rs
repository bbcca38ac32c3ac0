//! Numbers in assembler syntax, compiler errors, and the line lexer over interned strings.
use vstd::prelude::*;
use string_interner::{DefaultStringInterner, DefaultSymbol, Symbol};
use crate::preprocessor::Metadata;
use crate::text::{chars_of, owned, push_char, push_str, string_of};

verus! {

/// A string interner (`string_interner`'s default one), holding each string once and naming
/// it by the index of its symbol.
#[verifier::external_body]
pub struct Interner {
    db: DefaultStringInterner,
}

/// The strings an interner holds, in the order of their symbols.
pub uninterp spec fn interned(db: Interner) -> Seq<Seq<char>>;

/// `s` added to the interned strings `db` unless it is there.
pub open spec fn with_interned(db: Seq<Seq<char>>, s: Seq<char>) -> Seq<Seq<char>> {
    if db.contains(s) {
        db
    } else {
        db.push(s)
    }
}

impl Interner {
    /// `StringInterner::new`: an interner holding no string.
    #[verifier::external_body]
    pub fn new() -> (r: Self)
        ensures
            interned(r) == Seq::<Seq<char>>::empty(),
    {
        Interner { db: DefaultStringInterner::new() }
    }

    /// `StringInterner::get_or_intern`, giving the symbol's index (`Symbol::to_usize`). The
    /// string is added at the end unless the interner holds it already; the index is that of
    /// the string among the interned strings, which never repeat. It panics once `u32::MAX`
    /// strings are interned, so fewer are required.
    #[verifier::external_body]
    pub fn intern(&mut self, s: &str) -> (r: usize)
        requires
            interned(*old(self)).len() < u32::MAX,
        ensures
            interned(*final(self)) == with_interned(interned(*old(self)), s@),
            interned(*final(self)).no_duplicates(),
            r < interned(*final(self)).len(),
            interned(*final(self))[r as int] == s@,
    {
        self.db.get_or_intern(s).to_usize()
    }

    /// `StringInterner::len`: the number of interned strings.
    #[verifier::external_body]
    pub fn len(&self) -> (r: usize)
        ensures
            r == interned(*self).len(),
    {
        self.db.len()
    }

    /// `StringInterner::resolve` on the symbol with index `index`: the string it names, if any.
    #[verifier::external_body]
    pub fn resolve(&self, index: usize) -> (r: Option<String>)
        requires
            index < u32::MAX,
        ensures
            match r {
                Some(s) => index < interned(*self).len() && s@ == interned(*self)[index as int],
                None => index >= interned(*self).len(),
            },
    {
        match DefaultSymbol::try_from_usize(index) {
            Some(sym) => self.db.resolve(sym).map(|s| s.to_string()),
            None => None,
        }
    }
}


/// One lexeme: the index of its symbol, and the symbols of its file and line with its line
/// number and column.
pub type Lexeme = (usize, (usize, usize, usize, usize));

/// Lexed source: the lexemes, grouped in a single run once any exists, and the interner that
/// holds their strings.
pub struct LexxedSource {
    pub inner: Vec<Vec<(usize, Metadata<usize>)>>,
    pub str_db: Interner,
}

pub open spec fn lexeme_view(e: (usize, Metadata<usize>)) -> Lexeme {
    (e.0, e.1.fields())
}

pub open spec fn run_view(l: Vec<(usize, Metadata<usize>)>) -> Seq<Lexeme> {
    l@.map_values(|e: (usize, Metadata<usize>)| lexeme_view(e))
}

pub open spec fn runs_view(v: Seq<Vec<(usize, Metadata<usize>)>>) -> Seq<Seq<Lexeme>> {
    v.map_values(|l: Vec<(usize, Metadata<usize>)>| run_view(l))
}

/// The state of the line lexer between two characters.
#[verifier::ext_equal]
pub struct LexState {
    pub ignore: bool,
    pub buf: Seq<char>,
    pub skip: bool,
    pub last_slash: bool,
    pub col: usize,
    pub inner: Seq<Seq<Lexeme>>,
    pub db: Seq<Seq<char>>,
}

/// The index of `s` among the interned strings `db`.
pub open spec fn symbol_of(db: Seq<Seq<char>>, s: Seq<char>) -> usize {
    (choose|i: int| 0 <= i < db.len() && db[i] == s) as usize
}

/// The lexeme `lexeme` recorded: file, line and lexeme are interned in that order, and the
/// lexeme is appended to the last run (the first run is opened when there is none).
pub open spec fn after_lex(
    st: LexState,
    lexeme: Seq<char>,
    file: Seq<char>,
    line: Seq<char>,
    ln: usize,
    col: usize,
) -> LexState {
    let (inner, db) = recorded(st.inner, st.db, lexeme, file, line, ln, col);
    LexState { inner, db, ..st }
}

/// The runs and interned strings once `lexeme` is recorded.
pub open spec fn recorded(
    inner: Seq<Seq<Lexeme>>,
    db: Seq<Seq<char>>,
    lexeme: Seq<char>,
    file: Seq<char>,
    line: Seq<char>,
    ln: usize,
    col: usize,
) -> (Seq<Seq<Lexeme>>, Seq<Seq<char>>) {
    let db1 = with_interned(db, file);
    let db2 = with_interned(db1, line);
    let db3 = with_interned(db2, lexeme);
    let e = (symbol_of(db3, lexeme), (symbol_of(db1, file), symbol_of(db2, line), ln, col));
    (
        if inner.len() == 0 {
            seq![seq![e]]
        } else {
            inner.update(inner.len() - 1, inner.last().push(e))
        },
        db3,
    )
}

/// The runs once the last lexeme of the last run is dropped, if there is one.
pub open spec fn dropped_last(inner: Seq<Seq<Lexeme>>) -> Seq<Seq<Lexeme>> {
    if inner.len() > 0 && inner.last().len() > 0 {
        inner.update(inner.len() - 1, inner.last().drop_last())
    } else {
        inner
    }
}

/// The last lexeme of the last run dropped, if there is one.
pub open spec fn after_delete(st: LexState) -> LexState {
    LexState { inner: dropped_last(st.inner), ..st }
}

/// The pending lexeme recorded and cleared, if there is one.
pub open spec fn flush(st: LexState, file: Seq<char>, line: Seq<char>, ln: usize) -> LexState {
    if st.buf.len() > 0 {
        LexState { buf: Seq::empty(), ..after_lex(st, st.buf, file, line, ln, st.col) }
    } else {
        st
    }
}

/// One character of a line. After `//` the rest of the line is skipped and the lexeme before
/// the second `/` is dropped. Inside a quoted part (opened and closed by a character of
/// `ignore_pattern`) every character is kept; elsewhere a character of `split_pattern` ends
/// the pending lexeme, one of `special_split_pattern` ends it and is a lexeme of its own, and
/// any other character is added to it.
pub open spec fn lex_char(
    st: LexState,
    c: char,
    file: Seq<char>,
    line: Seq<char>,
    ln: usize,
    ignore_pattern: Seq<char>,
    split_pattern: Seq<char>,
    special_split_pattern: Seq<char>,
) -> LexState {
    if st.skip {
        st
    } else {
        let st = LexState { col: (st.col + 1) as usize, ..st };
        if !st.ignore {
            if st.last_slash && c == '/' {
                after_delete(LexState { skip: true, ..st })
            } else {
                let st = LexState { last_slash: c == '/', ..st };
                if ignore_pattern.contains(c) {
                    LexState { ignore: true, buf: st.buf.push(c), ..st }
                } else if split_pattern.contains(c) {
                    flush(st, file, line, ln)
                } else if special_split_pattern.contains(c) {
                    after_lex(flush(st, file, line, ln), seq![c], file, line, ln, st.col)
                } else {
                    LexState { buf: st.buf.push(c), ..st }
                }
            }
        } else if ignore_pattern.contains(c) {
            LexState { ignore: false, buf: st.buf.push(c), ..st }
        } else {
            LexState { buf: st.buf.push(c), ..st }
        }
    }
}

/// The characters of `line` from the `i`th on.
pub open spec fn lex_line_from(
    st: LexState,
    line: Seq<char>,
    i: int,
    file: Seq<char>,
    ln: usize,
    ignore_pattern: Seq<char>,
    split_pattern: Seq<char>,
    special_split_pattern: Seq<char>,
) -> LexState
    decreases line.len() - i,
{
    if i < 0 || i >= line.len() {
        st
    } else {
        lex_line_from(
            lex_char(st, line[i], file, line, ln, ignore_pattern, split_pattern, special_split_pattern),
            line,
            i + 1,
            file,
            ln,
            ignore_pattern,
            split_pattern,
            special_split_pattern,
        )
    }
}

/// Line `ln` (from 1): comment and column are reset, its characters are lexed, and the
/// pending lexeme is recorded at its end.
pub open spec fn lex_line(
    st: LexState,
    line: Seq<char>,
    file: Seq<char>,
    ln: usize,
    ignore_pattern: Seq<char>,
    split_pattern: Seq<char>,
    special_split_pattern: Seq<char>,
) -> LexState {
    let st0 = LexState { skip: false, last_slash: false, col: 0, ..st };
    flush(
        lex_line_from(st0, line, 0, file, ln, ignore_pattern, split_pattern, special_split_pattern),
        file,
        line,
        ln,
    )
}

/// The lines `lines` from the `k`th on.
pub open spec fn lex_lines_from(
    st: LexState,
    lines: Seq<Seq<char>>,
    k: int,
    file: Seq<char>,
    ignore_pattern: Seq<char>,
    split_pattern: Seq<char>,
    special_split_pattern: Seq<char>,
) -> LexState
    decreases lines.len() - k,
{
    if k < 0 || k >= lines.len() {
        st
    } else {
        lex_lines_from(
            lex_line(st, lines[k], file, (k + 1) as usize, ignore_pattern, split_pattern, special_split_pattern),
            lines,
            k + 1,
            file,
            ignore_pattern,
            split_pattern,
            special_split_pattern,
        )
    }
}

/// The pieces of `s` between `'\n'` characters (`str::split('\n')`), `cur` being the piece
/// read so far.
pub open spec fn split_from(s: Seq<char>, cur: Seq<char>) -> Seq<Seq<char>>
    decreases s.len(),
{
    if s.len() == 0 {
        seq![cur]
    } else if s[0] == '\n' {
        seq![cur] + split_from(s.drop_first(), Seq::empty())
    } else {
        split_from(s.drop_first(), cur.push(s[0]))
    }
}

pub open spec fn split_newlines(s: Seq<char>) -> Seq<Seq<char>> {
    split_from(s, Seq::empty())
}

/// The sum of the lengths of `ls`.
pub open spec fn total_len(ls: Seq<Seq<char>>) -> nat
    decreases ls.len(),
{
    if ls.len() == 0 {
        0
    } else {
        total_len(ls.drop_last()) + ls.last().len()
    }
}

/// What lexing `s` from file `file_path` gives, starting from the interned strings `db`.
pub open spec fn lex_result(
    s: Seq<char>,
    file_path: Seq<char>,
    ignore_pattern: Seq<char>,
    split_pattern: Seq<char>,
    special_split_pattern: Seq<char>,
    db: Seq<Seq<char>>,
) -> LexState {
    lex_lines_from(
        LexState {
            ignore: false,
            buf: Seq::empty(),
            skip: false,
            last_slash: false,
            col: 0,
            inner: Seq::empty(),
            db,
        },
        split_newlines(s),
        0,
        file_path,
        ignore_pattern,
        split_pattern,
        special_split_pattern,
    )
}

proof fn lemma_symbol_of(db: Seq<Seq<char>>, s: Seq<char>, r: int)
    requires
        db.no_duplicates(),
        0 <= r < db.len(),
        r <= usize::MAX,
        db[r] == s,
    ensures
        symbol_of(db, s) == r,
{
    let i = choose|i: int| 0 <= i < db.len() && db[i] == s;
    assert(0 <= i < db.len() && db[i] == s);
    if i != r {
        assert(db[i] != db[r]);
    }
}

proof fn lemma_with_interned_len(db: Seq<Seq<char>>, s: Seq<char>)
    ensures
        with_interned(db, s).len() <= db.len() + 1,
{
}

proof fn lemma_total_len_append(a: Seq<Seq<char>>, b: Seq<Seq<char>>)
    ensures
        total_len(a + b) == total_len(a) + total_len(b),
    decreases b.len(),
{
    if b.len() == 0 {
        assert(a + b =~= a);
    } else {
        assert((a + b).drop_last() =~= a + b.drop_last());
        lemma_total_len_append(a, b.drop_last());
    }
}

proof fn lemma_split_total(s: Seq<char>, cur: Seq<char>)
    ensures
        total_len(split_from(s, cur)) <= s.len() + cur.len(),
    decreases s.len(),
{
    assert(seq![cur].drop_last() =~= Seq::<Seq<char>>::empty());
    assert(total_len(Seq::<Seq<char>>::empty()) == 0);
    assert(total_len(seq![cur]) == cur.len());
    if s.len() == 0 {
    } else if s[0] == '\n' {
        lemma_split_total(s.drop_first(), Seq::empty());
        lemma_total_len_append(seq![cur], split_from(s.drop_first(), Seq::empty()));
    } else {
        lemma_split_total(s.drop_first(), cur.push(s[0]));
    }
}

proof fn lemma_total_len_take(ls: Seq<Seq<char>>, k: int)
    requires
        0 <= k < ls.len(),
    ensures
        total_len(ls.take(k + 1)) == total_len(ls.take(k)) + ls[k].len(),
        total_len(ls.take(k + 1)) <= total_len(ls),
    decreases ls.len(),
{
    assert(ls.take(k + 1).drop_last() =~= ls.take(k));
    if k + 1 < ls.len() {
        lemma_total_len_take(ls.drop_last(), k);
        assert(ls.drop_last().take(k + 1) =~= ls.take(k + 1));
        assert(ls.drop_last().take(k) =~= ls.take(k));
    } else {
        assert(ls.take(k + 1) =~= ls);
    }
}

/// Whether `c` is one of `p`.
fn has_char(p: &[char], c: char) -> (r: bool)
    ensures
        r == p@.contains(c),
{
    let mut i: usize = 0;
    while i < p.len()
        invariant
            i <= p@.len(),
            forall|k: int| 0 <= k < i ==> p@[k] != c,
        decreases p@.len() - i,
    {
        if p[i] == c {
            assert(p@[i as int] == c);
            return true;
        }
        i = i + 1;
    }
    false
}

/// The pieces of `s` between `'\n'` characters.
fn split_newline(s: &str) -> (r: Vec<String>)
    ensures
        crate::token::views(r@) == split_newlines(s@),
{
    let cs = chars_of(s);
    let mut out: Vec<String> = Vec::new();
    let mut cur: Vec<char> = Vec::new();
    let mut i: usize = 0;
    assert(cs@.skip(0) =~= cs@);
    assert(crate::token::views(out@) + split_from(cs@.skip(0), cur@) =~= split_newlines(s@));
    while i < cs.len()
        invariant
            i <= cs@.len(),
            cs@ == s@,
            crate::token::views(out@) + split_from(cs@.skip(i as int), cur@) == split_newlines(s@),
        decreases cs@.len() - i,
    {
        let c = cs[i];
        let ghost rest = cs@.skip(i as int);
        let ghost old_out = crate::token::views(out@);
        let ghost old_cur = cur@;
        assert(rest.drop_first() =~= cs@.skip(i + 1));
        assert(rest[0] == c);
        if c == '\n' {
            out.push(string_of(cur.as_slice()));
            assert(crate::token::views(out@) =~= old_out.push(old_cur));
            cur = Vec::new();
            assert(crate::token::views(out@) + split_from(cs@.skip(i + 1), cur@) =~= old_out + (
            seq![old_cur] + split_from(cs@.skip(i + 1), Seq::empty())));
        } else {
            cur.push(c);
        }
        i = i + 1;
    }
    let ghost old_out = crate::token::views(out@);
    assert(cs@.skip(cs@.len() as int) =~= Seq::<char>::empty());
    out.push(string_of(cur.as_slice()));
    assert(crate::token::views(out@) =~= old_out + seq![cur@]);
    out
}

impl LexxedSource {
    /// Lexed source with no lexeme yet, over the interner `str_db`.
    pub fn new(str_db: Interner) -> (r: Self)
        ensures
            runs_view(r.inner@) == Seq::<Seq<Lexeme>>::empty(),
            interned(r.str_db) == interned(str_db),
    {
        let r = LexxedSource { inner: Vec::new(), str_db };
        assert(runs_view(r.inner@) =~= Seq::<Seq<Lexeme>>::empty());
        r
    }

    /// Records the lexeme `lexeme` found in `file` on line `line` (number `line_number`) at
    /// column `line_column`.
    pub fn new_lex(&mut self, lexeme: &str, file: &str, line: &str, line_number: usize, line_column: usize)
        requires
            interned(old(self).str_db).len() + 3 < u32::MAX,
        ensures
            (runs_view(final(self).inner@), interned(final(self).str_db)) == recorded(
                runs_view(old(self).inner@),
                interned(old(self).str_db),
                lexeme@,
                file@,
                line@,
                line_number,
                line_column,
            ),
    {
        let ghost db0 = interned(self.str_db);
        let f = self.str_db.intern(file);
        let ghost db1 = interned(self.str_db);
        let l = self.str_db.intern(line);
        let ghost db2 = interned(self.str_db);
        let x = self.str_db.intern(lexeme);
        let ghost db3 = interned(self.str_db);
        proof {
            lemma_symbol_of(db3, lexeme@, x as int);
            lemma_symbol_of(db2, line@, l as int);
            lemma_symbol_of(db1, file@, f as int);
        }
        let metadata = Metadata::new(f, l, line_number, line_column);
        let ghost e = (x, (f, l, line_number, line_column));
        let ghost before = runs_view(self.inner@);
        if self.inner.len() == 0 {
            self.new_line();
            let ghost iv = self.inner@;
            assert(runs_view(iv).len() == 1);
            assert(iv.len() == 1);
            assert(runs_view(iv)[0] =~= Seq::<Lexeme>::empty());
            assert(runs_view(iv)[0] =~= run_view(iv[0]));
        }
        let ghost mid = self.inner@;
        let mut last = match self.inner.pop() {
            Some(v) => v,
            None => Vec::new(),
        };
        let ghost lv = run_view(last);
        assert(mid.len() > 0 ==> runs_view(mid)[mid.len() - 1] == run_view(mid[mid.len() - 1]));
        last.push((x, metadata));
        assert(run_view(last) =~= lv.push(e));
        self.inner.push(last);
        proof {
            if before.len() == 0 {
                assert(lv =~= Seq::<Lexeme>::empty());
                assert(runs_view(self.inner@) =~~= seq![seq![e]]);
            } else {
                assert(runs_view(self.inner@) =~= before.update(before.len() - 1, before.last().push(e)));
            }
        }
    }

    /// Drops the last lexeme of the last run, if there is one.
    pub fn delete_last_lex(&mut self)
        ensures
            runs_view(final(self).inner@) == dropped_last(runs_view(old(self).inner@)),
            interned(final(self).str_db) == interned(old(self).str_db),
    {
        let ghost before = runs_view(self.inner@);
        match self.inner.pop() {
            Some(mut l) => {
                let ghost lv = run_view(l);
                let _ = l.pop();
                proof {
                    if lv.len() > 0 {
                        assert(run_view(l) =~= lv.drop_last());
                    } else {
                        assert(run_view(l) =~= lv);
                    }
                }
                self.inner.push(l);
                assert(runs_view(self.inner@) =~= dropped_last(before));
            },
            None => {},
        }
    }

    /// Opens a new run.
    pub fn new_line(&mut self)
        ensures
            runs_view(final(self).inner@) == runs_view(old(self).inner@).push(Seq::empty()),
            interned(final(self).str_db) == interned(old(self).str_db),
    {
        let ghost before = runs_view(self.inner@);
        let v: Vec<(usize, Metadata<usize>)> = Vec::new();
        assert(run_view(v) =~= Seq::<Lexeme>::empty());
        self.inner.push(v);
        assert(runs_view(self.inner@) =~= before.push(Seq::empty()));
    }
}

proof fn lemma_recorded_len(
    inner: Seq<Seq<Lexeme>>,
    db: Seq<Seq<char>>,
    lexeme: Seq<char>,
    file: Seq<char>,
    line: Seq<char>,
    ln: usize,
    col: usize,
)
    ensures
        recorded(inner, db, lexeme, file, line, ln, col).1.len() <= db.len() + 3,
{
    let db1 = with_interned(db, file);
    let db2 = with_interned(db1, line);
    lemma_with_interned_len(db, file);
    lemma_with_interned_len(db1, line);
    lemma_with_interned_len(db2, lexeme);
}

/// The lexer's position within a line.
struct LexCursor {
    ignore: bool,
    buf: Vec<char>,
    skip: bool,
    last_slash: bool,
    col: usize,
}

spec fn lex_view(cur: LexCursor, lx: LexxedSource) -> LexState {
    LexState {
        ignore: cur.ignore,
        buf: cur.buf@,
        skip: cur.skip,
        last_slash: cur.last_slash,
        col: cur.col,
        inner: runs_view(lx.inner@),
        db: interned(lx.str_db),
    }
}

/// Records the pending lexeme, if any, and clears it.
fn flush_pending(cur: &mut LexCursor, lx: &mut LexxedSource, file: &str, line: &str, ln: usize)
    requires
        interned(old(lx).str_db).len() + 3 * old(cur).buf@.len() < u32::MAX,
    ensures
        lex_view(*final(cur), *final(lx)) == flush(lex_view(*old(cur), *old(lx)), file@, line@, ln),
        interned(final(lx).str_db).len() <= interned(old(lx).str_db).len() + 3 * old(cur).buf@.len(),
        final(cur).buf@.len() == 0,
{
    if cur.buf.len() > 0 {
        let text = string_of(cur.buf.as_slice());
        proof {
            lemma_recorded_len(
                runs_view(lx.inner@),
                interned(lx.str_db),
                cur.buf@,
                file@,
                line@,
                ln,
                cur.col,
            );
        }
        lx.new_lex(text.as_str(), file, line, ln, cur.col);
        cur.buf = Vec::new();
        assert(cur.buf@ =~= Seq::<char>::empty());
    }
}

/// One character of a line.
fn lex_one(
    cur: &mut LexCursor,
    lx: &mut LexxedSource,
    c: char,
    file: &str,
    line: &str,
    ln: usize,
    ignore_pattern: &[char],
    split_pattern: &[char],
    special_split_pattern: &[char],
)
    requires
        interned(old(lx).str_db).len() + 3 * old(cur).buf@.len() + 3 < u32::MAX,
        old(cur).col < usize::MAX,
    ensures
        lex_view(*final(cur), *final(lx)) == lex_char(
            lex_view(*old(cur), *old(lx)),
            c,
            file@,
            line@,
            ln,
            ignore_pattern@,
            split_pattern@,
            special_split_pattern@,
        ),
        interned(final(lx).str_db).len() + 3 * final(cur).buf@.len() <= interned(old(lx).str_db).len()
            + 3 * old(cur).buf@.len() + 3,
        final(cur).col <= old(cur).col + 1,
{
    if cur.skip {
        return;
    }
    cur.col = cur.col + 1;
    if !cur.ignore {
        if cur.last_slash && c == '/' {
            cur.skip = true;
            lx.delete_last_lex();
        } else {
            cur.last_slash = c == '/';
            if has_char(ignore_pattern, c) {
                cur.ignore = true;
                cur.buf.push(c);
            } else if has_char(split_pattern, c) {
                flush_pending(cur, lx, file, line, ln);
            } else if has_char(special_split_pattern, c) {
                flush_pending(cur, lx, file, line, ln);
                let one = [c];
                let text = string_of(&one);
                assert(text@ =~= seq![c]);
                proof {
                    lemma_recorded_len(runs_view(lx.inner@), interned(lx.str_db), seq![c], file@, line@, ln, cur.col);
                }
                lx.new_lex(text.as_str(), file, line, ln, cur.col);
            } else {
                cur.buf.push(c);
            }
        }
    } else {
        if has_char(ignore_pattern, c) {
            cur.ignore = false;
        }
        cur.buf.push(c);
    }
}

/// Lexes the text `s` of file `file_path` line by line: lexemes are split at characters of
/// `split_pattern` and around characters of `special_split_pattern`, kept whole between
/// characters of `ignore_pattern`, and `//` comments are dropped. Each lexeme is recorded with
/// the symbols of its text, file and line. Every lexeme interns at most three strings, so the
/// interner must have room for three per character.
pub fn lex_file(
    s: &str,
    file_path: &str,
    ignore_pattern: &[char],
    split_pattern: &[char],
    special_split_pattern: &[char],
    str_db: Interner,
) -> (r: LexxedSource)
    requires
        interned(str_db).len() + 3 * s@.len() < u32::MAX,
    ensures
        ({
            let f = lex_result(
                s@,
                file_path@,
                ignore_pattern@,
                split_pattern@,
                special_split_pattern@,
                interned(str_db),
            );
            &&& runs_view(r.inner@) == f.inner
            &&& interned(r.str_db) == f.db
        }),
{
    let ghost init = interned(str_db);
    let mut lx = LexxedSource::new(str_db);
    let mut cur = LexCursor { ignore: false, buf: Vec::new(), skip: false, last_slash: false, col: 0 };
    let lines = split_newline(s);
    let ghost lv = crate::token::views(lines@);
    proof {
        lemma_split_total(s@, Seq::empty());
    }
    let ghost st0 = lex_view(cur, lx);
    assert(st0 =~= LexState {
        ignore: false,
        buf: Seq::empty(),
        skip: false,
        last_slash: false,
        col: 0,
        inner: Seq::empty(),
        db: init,
    });
    assert(lv.take(0) =~= Seq::<Seq<char>>::empty());
    let mut k: usize = 0;
    while k < lines.len()
        invariant
            lv == crate::token::views(lines@),
            lv == split_newlines(s@),
            total_len(lv) <= s@.len(),
            init.len() + 3 * s@.len() < u32::MAX,
            k <= lv.len(),
            cur.buf@.len() == 0,
            interned(lx.str_db).len() <= init.len() + 3 * total_len(lv.take(k as int)),
            lex_lines_from(st0, lv, 0, file_path@, ignore_pattern@, split_pattern@, special_split_pattern@)
                == lex_lines_from(lex_view(cur, lx), lv, k as int, file_path@, ignore_pattern@, split_pattern@, special_split_pattern@),
        decreases lv.len() - k,
    {
        let line = lines[k].as_str();
        let ln = k + 1;
        proof {
            lemma_total_len_take(lv, k as int);
        }
        let ghost before = lex_view(cur, lx);
        cur.skip = false;
        cur.last_slash = false;
        cur.col = 0;
        let ghost sl = lex_view(cur, lx);
        assert(sl =~= LexState { skip: false, last_slash: false, col: 0, ..before });
        let cs = chars_of(line);
        let mut i: usize = 0;
        while i < cs.len()
            invariant
                cs@ == line@,
                line@ == lv[k as int],
                k < lv.len(),
                init.len() + 3 * s@.len() < u32::MAX,
                total_len(lv.take(k as int)) + lv[k as int].len() <= total_len(lv),
                total_len(lv) <= s@.len(),
                i <= cs@.len(),
                cur.col <= i,
                interned(lx.str_db).len() + 3 * cur.buf@.len() <= init.len() + 3 * (total_len(lv.take(k as int)) + i),
                lex_line_from(sl, line@, 0, file_path@, ln, ignore_pattern@, split_pattern@, special_split_pattern@)
                    == lex_line_from(lex_view(cur, lx), line@, i as int, file_path@, ln, ignore_pattern@, split_pattern@, special_split_pattern@),
            decreases cs@.len() - i,
        {
            let c = cs[i];
            lex_one(&mut cur, &mut lx, c, file_path, line, ln, ignore_pattern, split_pattern, special_split_pattern);
            i = i + 1;
        }
        let ghost end_of_chars = lex_view(cur, lx);
        flush_pending(&mut cur, &mut lx, file_path, line, ln);
        assert(lex_view(cur, lx) == lex_line(before, line@, file_path@, ln, ignore_pattern@, split_pattern@, special_split_pattern@));
        k = k + 1;
    }
    lx
}

/// The decimal digit `d` (below 10) as a character.
pub open spec fn digit_char(d: nat) -> char {
    seq!['0', '1', '2', '3', '4', '5', '6', '7', '8', '9'][d as int]
}

/// The decimal numeral of `n`, without leading zeros.
pub open spec fn decimal(n: nat) -> Seq<char>
    decreases n,
{
    if n < 10 {
        seq![digit_char(n)]
    } else {
        decimal(n / 10).push(digit_char(n % 10))
    }
}

/// The decimal numeral of `n`.
pub fn decimal_string(n: usize) -> (r: String)
    ensures
        r@ == decimal(n as nat),
    decreases n,
{
    let digits = ['0', '1', '2', '3', '4', '5', '6', '7', '8', '9'];
    assert(digits@ =~= seq!['0', '1', '2', '3', '4', '5', '6', '7', '8', '9']);
    if n < 10 {
        let mut s = String::new();
        push_char(&mut s, digits[n]);
        assert(s@ =~= seq![digit_char(n as nat)]);
        s
    } else {
        let mut s = decimal_string(n / 10);
        push_char(&mut s, digits[n % 10]);
        s
    }
}

/// An integer in the assembler's syntax for decimal integers: `$d` and its digits.
pub fn to_nisvc_as_int(value: &usize) -> (r: String)
    ensures
        r@ == seq!['$', 'd'] + decimal(*value as nat),
{
    let mut s = String::new();
    push_char(&mut s, '$');
    push_char(&mut s, 'd');
    let digits = decimal_string(*value);
    push_str(&mut s, digits.as_str());
    assert(s@ =~= seq!['$', 'd'] + decimal(*value as nat));
    s
}

/// An error met while compiling to assembly.
#[derive(Debug)]
pub struct CompilerError {
    err: String,
}

impl View for CompilerError {
    type V = Seq<char>;

    closed spec fn view(&self) -> Seq<char> {
        self.err@
    }
}

impl CompilerError {
    pub fn new(err: &str) -> (r: Self)
        ensures
            r@ == err@,
    {
        CompilerError { err: owned(err) }
    }

    /// The error as it is shown: `Error during compilation: ` and its message.
    pub fn to_display_string(&self) -> (r: String)
        ensures
            r@ == "Error during compilation: "@ + self@,
    {
        let mut s = owned("Error during compilation: ");
        push_str(&mut s, self.err.as_str());
        s
    }
}

/// `lex_file` where the interner has room for three strings per character of `s`; `None`
/// where it has not.
pub fn lex_file_checked(
    s: &str,
    file_path: &str,
    ignore_pattern: &[char],
    split_pattern: &[char],
    special_split_pattern: &[char],
    str_db: Interner,
) -> (r: Option<LexxedSource>)
    ensures
        match r {
            Some(l) => {
                let f = lex_result(
                    s@,
                    file_path@,
                    ignore_pattern@,
                    split_pattern@,
                    special_split_pattern@,
                    interned(str_db),
                );
                &&& interned(str_db).len() + 3 * s@.len() < u32::MAX
                &&& runs_view(l.inner@) == f.inner
                &&& interned(l.str_db) == f.db
            },
            None => interned(str_db).len() + 3 * s@.len() >= u32::MAX,
        },
{
    let used = str_db.len() as u64;
    let n = s.unicode_len() as u64;
    if used < 0xFFFF_FFFFu64 && n < (0xFFFF_FFFFu64 - used) / 3 + 1 && used + 3 * n < 0xFFFF_FFFFu64 {
        Some(lex_file(s, file_path, ignore_pattern, split_pattern, special_split_pattern, str_db))
    } else {
        None
    }
}
} // verus!

verus! {

/// Interning: the symbol of an interned string names it; strings interned before keep their
/// symbols; interning the same string again changes nothing.
pub proof fn law_intern(db: Seq<Seq<char>>, s: Seq<char>)
    requires
        db.len() < usize::MAX,
    ensures
        ({
            let d = with_interned(db, s);
            &&& symbol_of(d, s) < d.len()
            &&& d[symbol_of(d, s) as int] == s
            &&& forall|i: int| 0 <= i < db.len() ==> d[i] == db[i]
            &&& with_interned(d, s) == d
        }),
{
    let d = with_interned(db, s);
    if db.contains(s) {
        let i = choose|i: int| 0 <= i < db.len() && db[i] == s;
        assert(0 <= i < d.len() && d[i] == s);
    } else {
        assert(d[db.len() as int] == s);
    }
    assert(d.contains(s));
}

/// The value of a decimal numeral.
pub open spec fn numeral_value(s: Seq<char>) -> nat
    decreases s.len(),
{
    if s.len() == 0 {
        0
    } else {
        numeral_value(s.drop_last()) * 10 + digit_value(s.last())
    }
}

/// The value of a decimal digit.
pub open spec fn digit_value(c: char) -> nat {
    if '0' <= c && c <= '9' {
        (c as u32 - '0' as u32) as nat
    } else {
        0
    }
}

/// The numeral of `n` reads back as `n`, and is made of decimal digits.
pub proof fn law_decimal_reads_back(n: nat)
    ensures
        numeral_value(decimal(n)) == n,
        forall|i: int| 0 <= i < decimal(n).len() ==> '0' <= #[trigger] decimal(n)[i] <= '9',
    decreases n,
{
    let ds = seq!['0', '1', '2', '3', '4', '5', '6', '7', '8', '9'];
    assert(forall|d: int| 0 <= d < 10 ==> digit_value(#[trigger] ds[d]) == d && '0' <= ds[d] <= '9');
    if n < 10 {
        assert(decimal(n).drop_last() =~= Seq::<char>::empty());
        assert(numeral_value(Seq::<char>::empty()) == 0);
        assert(decimal(n).last() == ds[n as int]);
    } else {
        law_decimal_reads_back(n / 10);
        assert(decimal(n).drop_last() =~= decimal(n / 10));
        assert(decimal(n).last() == ds[(n % 10) as int]);
        assert(n == (n / 10) * 10 + n % 10);
        assert forall|i: int| 0 <= i < decimal(n).len() implies '0' <= #[trigger] decimal(n)[i] <= '9' by {
            if i < decimal(n).len() - 1 {
                assert(decimal(n)[i] == decimal(n / 10)[i]);
            }
        }
    }
}


/// `a` holds the strings of `b` at the same positions, and maybe more after them.
pub open spec fn extends(a: Seq<Seq<char>>, b: Seq<Seq<char>>) -> bool {
    b.len() <= a.len() && forall|i: int| 0 <= i < b.len() ==> a[i] == b[i]
}

/// Every recorded lexeme names, by its symbols, strings of `db`, and its file symbol names
/// `file`.
pub open spec fn entries_ok(inner: Seq<Seq<Lexeme>>, db: Seq<Seq<char>>, file: Seq<char>) -> bool {
    forall|r: int, k: int|
        0 <= r < inner.len() && 0 <= k < inner[r].len() ==> {
            let e = #[trigger] inner[r][k];
            &&& e.0 < db.len()
            &&& e.1.0 < db.len()
            &&& e.1.1 < db.len()
            &&& db[e.1.0 as int] == file
        }
}

proof fn lemma_with_interned_extends(db: Seq<Seq<char>>, s: Seq<char>)
    ensures
        extends(with_interned(db, s), db),
        with_interned(db, s).contains(s),
{
    if !db.contains(s) {
        assert(with_interned(db, s)[db.len() as int] == s);
    }
}

proof fn lemma_symbol_names(db: Seq<Seq<char>>, s: Seq<char>)
    requires
        db.contains(s),
        db.len() < usize::MAX,
    ensures
        symbol_of(db, s) < db.len(),
        db[symbol_of(db, s) as int] == s,
{
    let i = choose|i: int| 0 <= i < db.len() && db[i] == s;
    assert(0 <= i < db.len() && db[i] == s);
}

proof fn lemma_entries_ok_grow(inner: Seq<Seq<Lexeme>>, db: Seq<Seq<char>>, db2: Seq<Seq<char>>, file: Seq<char>)
    requires
        entries_ok(inner, db, file),
        extends(db2, db),
    ensures
        entries_ok(inner, db2, file),
{
    assert forall|r: int, k: int| 0 <= r < inner.len() && 0 <= k < inner[r].len() implies {
        let e = #[trigger] inner[r][k];
        &&& e.0 < db2.len()
        &&& e.1.0 < db2.len()
        &&& e.1.1 < db2.len()
        &&& db2[e.1.0 as int] == file
    } by {
        let e = inner[r][k];
        assert(db[e.1.0 as int] == file);
    }
}

proof fn lemma_recorded_ok(
    inner: Seq<Seq<Lexeme>>,
    db: Seq<Seq<char>>,
    lexeme: Seq<char>,
    file: Seq<char>,
    line: Seq<char>,
    ln: usize,
    col: usize,
)
    ensures
        extends(recorded(inner, db, lexeme, file, line, ln, col).1, db),
        entries_ok(inner, db, file) && recorded(inner, db, lexeme, file, line, ln, col).1.len()
            < usize::MAX ==> entries_ok(
            recorded(inner, db, lexeme, file, line, ln, col).0,
            recorded(inner, db, lexeme, file, line, ln, col).1,
            file,
        ),
{
    let db1 = with_interned(db, file);
    let db2 = with_interned(db1, line);
    let db3 = with_interned(db2, lexeme);
    lemma_with_interned_extends(db, file);
    lemma_with_interned_extends(db1, line);
    lemma_with_interned_extends(db2, lexeme);
    assert(extends(db3, db));
    if entries_ok(inner, db, file) && db3.len() < usize::MAX {
        lemma_entries_ok_grow(inner, db, db3, file);
        lemma_symbol_names(db1, file);
        lemma_symbol_names(db2, line);
        lemma_symbol_names(db3, lexeme);
        let e = (symbol_of(db3, lexeme), (symbol_of(db1, file), symbol_of(db2, line), ln, col));
        assert(db3[e.1.0 as int] == file);
        let out = recorded(inner, db, lexeme, file, line, ln, col).0;
        assert forall|r: int, k: int| 0 <= r < out.len() && 0 <= k < out[r].len() implies {
            let e2 = #[trigger] out[r][k];
            &&& e2.0 < db3.len()
            &&& e2.1.0 < db3.len()
            &&& e2.1.1 < db3.len()
            &&& db3[e2.1.0 as int] == file
        } by {
            if inner.len() == 0 {
                assert(out[r][k] == e);
            } else if r == inner.len() - 1 && k == inner.last().len() {
                assert(out[r][k] == e);
            } else {
                assert(out[r][k] == inner[r][k]);
            }
        }
    }
}

proof fn lemma_lex_char_ok(
    st: LexState,
    c: char,
    file: Seq<char>,
    line: Seq<char>,
    ln: usize,
    ig: Seq<char>,
    sp: Seq<char>,
    ssp: Seq<char>,
)
    ensures
        extends(lex_char(st, c, file, line, ln, ig, sp, ssp).db, st.db),
        entries_ok(st.inner, st.db, file) && lex_char(st, c, file, line, ln, ig, sp, ssp).db.len()
            < usize::MAX ==> entries_ok(
            lex_char(st, c, file, line, ln, ig, sp, ssp).inner,
            lex_char(st, c, file, line, ln, ig, sp, ssp).db,
            file,
        ),
{
    let st1 = LexState { col: (st.col + 1) as usize, ..st };
    let st2 = LexState { last_slash: c == '/', ..st1 };
    lemma_recorded_ok(st2.inner, st2.db, st2.buf, file, line, ln, st2.col);
    let f = flush(st2, file, line, ln);
    lemma_recorded_ok(f.inner, f.db, seq![c], file, line, ln, st2.col);
    if entries_ok(st.inner, st.db, file) {
        let d = dropped_last(st.inner);
        assert forall|r: int, k: int| 0 <= r < d.len() && 0 <= k < d[r].len() implies {
            let e = #[trigger] d[r][k];
            &&& e.0 < st.db.len()
            &&& e.1.0 < st.db.len()
            &&& e.1.1 < st.db.len()
            &&& st.db[e.1.0 as int] == file
        } by {
            assert(d[r][k] == st.inner[r][k]);
        }
        if f.db.len() < usize::MAX && extends(f.db, st.db) {
            assert(entries_ok(f.inner, f.db, file));
        }
    }
}

proof fn lemma_lex_line_from_ok(
    st: LexState,
    line: Seq<char>,
    i: int,
    file: Seq<char>,
    ln: usize,
    ig: Seq<char>,
    sp: Seq<char>,
    ssp: Seq<char>,
)
    ensures
        extends(lex_line_from(st, line, i, file, ln, ig, sp, ssp).db, st.db),
        entries_ok(st.inner, st.db, file) && lex_line_from(st, line, i, file, ln, ig, sp, ssp).db.len()
            < usize::MAX ==> entries_ok(
            lex_line_from(st, line, i, file, ln, ig, sp, ssp).inner,
            lex_line_from(st, line, i, file, ln, ig, sp, ssp).db,
            file,
        ),
    decreases line.len() - i,
{
    if 0 <= i < line.len() {
        let st1 = lex_char(st, line[i], file, line, ln, ig, sp, ssp);
        lemma_lex_char_ok(st, line[i], file, line, ln, ig, sp, ssp);
        lemma_lex_line_from_ok(st1, line, i + 1, file, ln, ig, sp, ssp);
    }
}

proof fn lemma_lex_lines_from_ok(
    st: LexState,
    lines: Seq<Seq<char>>,
    k: int,
    file: Seq<char>,
    ig: Seq<char>,
    sp: Seq<char>,
    ssp: Seq<char>,
)
    ensures
        extends(lex_lines_from(st, lines, k, file, ig, sp, ssp).db, st.db),
        entries_ok(st.inner, st.db, file) && lex_lines_from(st, lines, k, file, ig, sp, ssp).db.len()
            < usize::MAX ==> entries_ok(
            lex_lines_from(st, lines, k, file, ig, sp, ssp).inner,
            lex_lines_from(st, lines, k, file, ig, sp, ssp).db,
            file,
        ),
    decreases lines.len() - k,
{
    if 0 <= k < lines.len() {
        let ln = (k + 1) as usize;
        let st0 = LexState { skip: false, last_slash: false, col: 0, ..st };
        let m = lex_line_from(st0, lines[k], 0, file, ln, ig, sp, ssp);
        lemma_lex_line_from_ok(st0, lines[k], 0, file, ln, ig, sp, ssp);
        lemma_recorded_ok(m.inner, m.db, m.buf, file, lines[k], ln, m.col);
        let st1 = lex_line(st, lines[k], file, ln, ig, sp, ssp);
        lemma_lex_lines_from_ok(st1, lines, k + 1, file, ig, sp, ssp);
        if entries_ok(st.inner, st.db, file) && lex_lines_from(st, lines, k, file, ig, sp, ssp).db.len()
            < usize::MAX {
            assert(entries_ok(m.inner, m.db, file));
            assert(entries_ok(st1.inner, st1.db, file));
        }
    }
}

/// Lexing keeps the strings the interner held at their symbols; and, where the interner has
/// room for three strings per character (as `lex_file` requires), every lexeme it records
/// names strings the interner holds, its file symbol naming the file lexed.
pub proof fn law_lexing_keeps_interned(
    s: Seq<char>,
    file_path: Seq<char>,
    ignore_pattern: Seq<char>,
    split_pattern: Seq<char>,
    special_split_pattern: Seq<char>,
    db: Seq<Seq<char>>,
)
    ensures
        ({
            let f = lex_result(s, file_path, ignore_pattern, split_pattern, special_split_pattern, db);
            &&& extends(f.db, db)
            &&& db.len() + 3 * s.len() < u32::MAX ==> entries_ok(f.inner, f.db, file_path)
        }),
{
    if db.len() + 3 * s.len() < u32::MAX {
        lemma_lex_result_bound(s, file_path, ignore_pattern, split_pattern, special_split_pattern, db);
    }
    let st = LexState {
        ignore: false,
        buf: Seq::empty(),
        skip: false,
        last_slash: false,
        col: 0,
        inner: Seq::empty(),
        db,
    };
    lemma_lex_lines_from_ok(st, split_newlines(s), 0, file_path, ignore_pattern, split_pattern, special_split_pattern);
}


/// The words of `s` after the partial word `cur`: the pieces between characters of `sp`,
/// empty pieces left out.
pub open spec fn words_from(s: Seq<char>, cur: Seq<char>, sp: Seq<char>) -> Seq<Seq<char>>
    decreases s.len(),
{
    if s.len() == 0 {
        if cur.len() > 0 { seq![cur] } else { Seq::empty() }
    } else if sp.contains(s[0]) {
        (if cur.len() > 0 { seq![cur] } else { Seq::empty() }) + words_from(s.drop_first(), Seq::empty(), sp)
    } else {
        words_from(s.drop_first(), cur.push(s[0]), sp)
    }
}

/// Words, each with a line number.
pub open spec fn tagged(ws: Seq<Seq<char>>, ln: usize) -> Seq<(Seq<char>, usize)> {
    ws.map_values(|w: Seq<char>| (w, ln))
}

/// The words of the lines from the `k`th on, each with the number of its line (from 1).
pub open spec fn lines_words(lines: Seq<Seq<char>>, k: int, sp: Seq<char>) -> Seq<(Seq<char>, usize)>
    decreases lines.len() - k,
{
    if k < 0 || k >= lines.len() {
        Seq::empty()
    } else {
        tagged(words_from(lines[k], Seq::empty(), sp), (k + 1) as usize) + lines_words(lines, k + 1, sp)
    }
}

/// The recorded lexemes of all runs, in order.
pub open spec fn flat_runs(inner: Seq<Seq<Lexeme>>) -> Seq<Lexeme>
    decreases inner.len(),
{
    if inner.len() == 0 {
        Seq::empty()
    } else {
        flat_runs(inner.drop_last()) + inner.last()
    }
}

/// The recorded lexemes, each as its text (through the interned strings `db`) and its line
/// number.
pub open spec fn lexed_words(inner: Seq<Seq<Lexeme>>, db: Seq<Seq<char>>) -> Seq<(Seq<char>, usize)> {
    flat_runs(inner).map_values(|e: Lexeme| (db[e.0 as int], e.1.2))
}

proof fn lemma_flat_ok(inner: Seq<Seq<Lexeme>>, db: Seq<Seq<char>>, file: Seq<char>)
    requires
        entries_ok(inner, db, file),
    ensures
        forall|k: int| 0 <= k < flat_runs(inner).len() ==> (#[trigger] flat_runs(inner)[k]).0 < db.len(),
    decreases inner.len(),
{
    if inner.len() > 0 {
        let d = inner.drop_last();
        assert forall|r: int, k: int| 0 <= r < d.len() && 0 <= k < d[r].len() implies {
            let e = #[trigger] d[r][k];
            &&& e.0 < db.len()
            &&& e.1.0 < db.len()
            &&& e.1.1 < db.len()
            &&& db[e.1.0 as int] == file
        } by {
            assert(d[r][k] == inner[r][k]);
        }
        lemma_flat_ok(d, db, file);
        let f = flat_runs(inner);
        assert forall|k: int| 0 <= k < f.len() implies (#[trigger] f[k]).0 < db.len() by {
            if k < flat_runs(d).len() {
                assert(f[k] == flat_runs(d)[k]);
            } else {
                assert(f[k] == inner[inner.len() - 1][k - flat_runs(d).len()]);
            }
        }
    }
}

proof fn lemma_words_recorded(
    inner: Seq<Seq<Lexeme>>,
    db: Seq<Seq<char>>,
    lexeme: Seq<char>,
    file: Seq<char>,
    line: Seq<char>,
    ln: usize,
    col: usize,
)
    requires
        entries_ok(inner, db, file),
        recorded(inner, db, lexeme, file, line, ln, col).1.len() < usize::MAX,
    ensures
        ({
            let (inner2, db2) = recorded(inner, db, lexeme, file, line, ln, col);
            lexed_words(inner2, db2) == lexed_words(inner, db).push((lexeme, ln))
        }),
{
    let (inner2, db3) = recorded(inner, db, lexeme, file, line, ln, col);
    let db1 = with_interned(db, file);
    let db2 = with_interned(db1, line);
    lemma_recorded_ok(inner, db, lexeme, file, line, ln, col);
    lemma_with_interned_extends(db2, lexeme);
    lemma_symbol_names(db3, lexeme);
    let e = (symbol_of(db3, lexeme), (symbol_of(db1, file), symbol_of(db2, line), ln, col));
    if inner.len() == 0 {
        assert(inner2 =~= seq![seq![e]]);
        assert(inner2.drop_last() =~= Seq::<Seq<Lexeme>>::empty());
        assert(inner =~= Seq::<Seq<Lexeme>>::empty());
        assert(flat_runs(Seq::<Seq<Lexeme>>::empty()) =~= Seq::<Lexeme>::empty());
        assert(inner2.last() == seq![e]);
        assert(flat_runs(inner2) == flat_runs(inner2.drop_last()) + inner2.last());
        assert(flat_runs(inner2) =~= flat_runs(inner).push(e));
    } else {
        assert(inner2.drop_last() =~= inner.drop_last());
        assert(inner2.last() == inner.last().push(e));
        assert(flat_runs(inner2) == flat_runs(inner2.drop_last()) + inner2.last());
        assert(flat_runs(inner) == flat_runs(inner.drop_last()) + inner.last());
        assert(flat_runs(inner2) =~= flat_runs(inner).push(e));
    }
    lemma_flat_ok(inner, db, file);
    assert(lexed_words(inner2, db3) =~= lexed_words(inner, db).push((lexeme, ln)));
}

/// What is still to be recorded: the pending word, if any, with its line number.
pub open spec fn pending(buf: Seq<char>, ln: usize) -> Seq<(Seq<char>, usize)> {
    if buf.len() > 0 { seq![(buf, ln)] } else { Seq::empty() }
}

proof fn lemma_words_line_from(
    st: LexState,
    line: Seq<char>,
    i: int,
    file: Seq<char>,
    ln: usize,
    sp: Seq<char>,
)
    requires
        0 <= i <= line.len(),
        !st.ignore,
        !st.skip,
        entries_ok(st.inner, st.db, file),
        forall|j: int| 0 <= j < line.len() ==> #[trigger] line[j] != '/',
        lex_line_from(st, line, i, file, ln, Seq::empty(), sp, Seq::empty()).db.len() < usize::MAX,
    ensures
        ({
            let r = lex_line_from(st, line, i, file, ln, Seq::empty(), sp, Seq::empty());
            &&& !r.ignore
            &&& !r.skip
            &&& entries_ok(r.inner, r.db, file)
            &&& lexed_words(r.inner, r.db) + pending(r.buf, ln) == lexed_words(st.inner, st.db) + tagged(
                words_from(line.skip(i), st.buf, sp),
                ln,
            )
        }),
    decreases line.len() - i,
{
    let ig = Seq::<char>::empty();
    let ssp = Seq::<char>::empty();
    if i == line.len() {
        assert(line.skip(i) =~= Seq::<char>::empty());
        assert(tagged(words_from(line.skip(i), st.buf, sp), ln) =~= pending(st.buf, ln));
    } else {
        let c = line[i];
        let st1 = lex_char(st, c, file, line, ln, ig, sp, ssp);
        lemma_lex_line_from_ok(st1, line, i + 1, file, ln, ig, sp, ssp);
        lemma_lex_char_ok(st, c, file, line, ln, ig, sp, ssp);
        assert(line.skip(i).drop_first() =~= line.skip(i + 1));
        assert(line.skip(i)[0] == c);
        let stc = LexState { col: (st.col + 1) as usize, last_slash: false, ..st };
        assert(lex_line_from(st, line, i, file, ln, ig, sp, ssp) == lex_line_from(st1, line, i + 1, file, ln, ig, sp, ssp));
        if sp.contains(c) {
            if st.buf.len() > 0 {
                lemma_words_recorded(stc.inner, stc.db, stc.buf, file, line, ln, stc.col);
            }
            assert(st1.buf =~= Seq::<char>::empty());
            lemma_words_line_from(st1, line, i + 1, file, ln, sp);
            let w = tagged(words_from(line.skip(i + 1), Seq::empty(), sp), ln);
            let ws = words_from(line.skip(i + 1), Seq::empty(), sp);
            let pre = if st.buf.len() > 0 { seq![st.buf] } else { Seq::<Seq<char>>::empty() };
            assert(words_from(line.skip(i), st.buf, sp) == pre + ws);
            assert(tagged(pre + ws, ln) =~= tagged(pre, ln) + tagged(ws, ln));
            assert(tagged(pre, ln) =~= pending(st.buf, ln));
            assert(tagged(words_from(line.skip(i), st.buf, sp), ln) =~= pending(st.buf, ln) + w);
            assert(lexed_words(st1.inner, st1.db) =~= lexed_words(st.inner, st.db) + pending(st.buf, ln));
            assert(lexed_words(st.inner, st.db) + pending(st.buf, ln) + w =~= lexed_words(st.inner, st.db) + (
            pending(st.buf, ln) + w));
        } else {
            assert(!ig.contains(c));
            assert(!ssp.contains(c));
            assert(st1.buf == st.buf.push(c));
            assert(st1.inner == st.inner && st1.db == st.db);
            assert(words_from(line.skip(i), st.buf, sp) == words_from(line.skip(i + 1), st.buf.push(c), sp));
            lemma_words_line_from(st1, line, i + 1, file, ln, sp);
        }
    }
}

proof fn lemma_words_lines(
    st: LexState,
    lines: Seq<Seq<char>>,
    k: int,
    file: Seq<char>,
    sp: Seq<char>,
)
    requires
        0 <= k <= lines.len(),
        !st.ignore,
        st.buf.len() == 0,
        entries_ok(st.inner, st.db, file),
        forall|a: int, j: int| 0 <= a < lines.len() && 0 <= j < lines[a].len() ==> #[trigger] lines[a][j] != '/',
        lex_lines_from(st, lines, k, file, Seq::empty(), sp, Seq::empty()).db.len() < usize::MAX,
    ensures
        lexed_words(lex_lines_from(st, lines, k, file, Seq::empty(), sp, Seq::empty()).inner, lex_lines_from(
            st,
            lines,
            k,
            file,
            Seq::empty(),
            sp,
            Seq::empty(),
        ).db) == lexed_words(st.inner, st.db) + lines_words(lines, k, sp),
    decreases lines.len() - k,
{
    let ig = Seq::<char>::empty();
    let ssp = Seq::<char>::empty();
    if k == lines.len() {
        assert(lexed_words(st.inner, st.db) + Seq::<(Seq<char>, usize)>::empty() =~= lexed_words(st.inner, st.db));
    } else {
        let ln = (k + 1) as usize;
        let line = lines[k];
        let st0 = LexState { skip: false, last_slash: false, col: 0, ..st };
        let m = lex_line_from(st0, line, 0, file, ln, ig, sp, ssp);
        let st1 = lex_line(st, line, file, ln, ig, sp, ssp);
        lemma_lex_lines_from_ok(st1, lines, k + 1, file, ig, sp, ssp);
        lemma_lex_line_from_ok(st0, line, 0, file, ln, ig, sp, ssp);
        lemma_recorded_ok(m.inner, m.db, m.buf, file, line, ln, m.col);
        assert forall|j: int| 0 <= j < line.len() implies #[trigger] line[j] != '/' by {
            assert(lines[k][j] != '/');
        }
        lemma_words_line_from(st0, line, 0, file, ln, sp);
        assert(line.skip(0) =~= line);
        assert(st0.buf =~= Seq::<char>::empty() && st0.inner == st.inner && st0.db == st.db);
        assert(st1 == flush(m, file, line, ln));
        if m.buf.len() > 0 {
            lemma_words_recorded(m.inner, m.db, m.buf, file, line, ln, m.col);
            assert(lexed_words(m.inner, m.db).push((m.buf, ln)) =~= lexed_words(m.inner, m.db) + pending(m.buf, ln));
            assert(lexed_words(st1.inner, st1.db) == lexed_words(m.inner, m.db) + pending(m.buf, ln));
        } else {
            assert(lexed_words(m.inner, m.db) + pending(m.buf, ln) =~= lexed_words(m.inner, m.db));
        }
        assert(lexed_words(st1.inner, st1.db) == lexed_words(st.inner, st.db) + tagged(
            words_from(line, Seq::empty(), sp),
            ln,
        ));
        lemma_words_lines(st1, lines, k + 1, file, sp);
        assert(lexed_words(st.inner, st.db) + tagged(words_from(line, Seq::empty(), sp), ln) + lines_words(
            lines,
            k + 1,
            sp,
        ) =~= lexed_words(st.inner, st.db) + lines_words(lines, k, sp));
    }
}

proof fn lemma_split_no_char(s: Seq<char>, cur: Seq<char>, c: char)
    requires
        forall|j: int| 0 <= j < s.len() ==> #[trigger] s[j] != c,
        forall|j: int| 0 <= j < cur.len() ==> #[trigger] cur[j] != c,
    ensures
        forall|a: int, j: int|
            0 <= a < split_from(s, cur).len() && 0 <= j < split_from(s, cur)[a].len() ==> #[trigger] split_from(
                s,
                cur,
            )[a][j] != c,
    decreases s.len(),
{
    if s.len() == 0 {
        assert(split_from(s, cur) =~= seq![cur]);
        assert forall|a: int, j: int|
            0 <= a < split_from(s, cur).len() && 0 <= j < split_from(s, cur)[a].len() implies #[trigger] split_from(
            s,
            cur,
        )[a][j] != c by {
            assert(split_from(s, cur)[a] == cur);
        }
    } else {
        assert forall|j: int| 0 <= j < s.drop_first().len() implies #[trigger] s.drop_first()[j] != c by {
            assert(s.drop_first()[j] == s[j + 1]);
        }
        if s[0] == '\n' {
            lemma_split_no_char(s.drop_first(), Seq::empty(), c);
            let rest = split_from(s.drop_first(), Seq::empty());
            assert forall|a: int, j: int|
                0 <= a < split_from(s, cur).len() && 0 <= j < split_from(s, cur)[a].len() implies #[trigger] split_from(
                s,
                cur,
            )[a][j] != c by {
                assert(split_from(s, cur) == seq![cur] + rest);
                if a > 0 {
                    assert(split_from(s, cur)[a] == rest[a - 1]);
                } else {
                    assert(split_from(s, cur)[a] == cur);
                }
            }
        } else {
            assert forall|j: int| 0 <= j < cur.push(s[0]).len() implies #[trigger] cur.push(s[0])[j] != c by {
                if j < cur.len() {
                    assert(cur.push(s[0])[j] == cur[j]);
                }
            }
            lemma_split_no_char(s.drop_first(), cur.push(s[0]), c);
            assert(split_from(s, cur) == split_from(s.drop_first(), cur.push(s[0])));
        }
    }
}

/// Lexing text without quoting, special characters or `/`, where the interner has room for
/// three strings per character (as `lex_file` requires): the lexemes recorded are, in order,
/// the words of each line (the pieces between characters of `split_pattern`, empty ones left
/// out), each with the number of its line.
pub proof fn law_lexing_splits_words(s: Seq<char>, file_path: Seq<char>, split_pattern: Seq<char>, db: Seq<Seq<char>>)
    requires
        forall|j: int| 0 <= j < s.len() ==> #[trigger] s[j] != '/',
        db.len() + 3 * s.len() < u32::MAX,
    ensures
        ({
            let f = lex_result(s, file_path, Seq::empty(), split_pattern, Seq::empty(), db);
            lexed_words(f.inner, f.db) == lines_words(split_newlines(s), 0, split_pattern)
        }),
{
    let st = LexState {
        ignore: false,
        buf: Seq::empty(),
        skip: false,
        last_slash: false,
        col: 0,
        inner: Seq::empty(),
        db,
    };
    lemma_lex_result_bound(s, file_path, Seq::empty(), split_pattern, Seq::empty(), db);
    lemma_split_no_char(s, Seq::empty(), '/');
    lemma_words_lines(st, split_newlines(s), 0, file_path, split_pattern);
    assert(flat_runs(st.inner) =~= Seq::<Lexeme>::empty());
    assert(lexed_words(st.inner, st.db) =~= Seq::<(Seq<char>, usize)>::empty());
    assert(Seq::<(Seq<char>, usize)>::empty() + lines_words(split_newlines(s), 0, split_pattern)
        =~= lines_words(split_newlines(s), 0, split_pattern));
}


/// The strings interned, and three more for a pending lexeme: each lexeme interns at most
/// three strings.
spec fn lex_potential(st: LexState) -> int {
    st.db.len() + if st.buf.len() > 0 { 3int } else { 0int }
}

proof fn lemma_flush_potential(st: LexState, file: Seq<char>, line: Seq<char>, ln: usize)
    ensures
        lex_potential(flush(st, file, line, ln)) <= lex_potential(st),
        flush(st, file, line, ln).buf.len() == 0,
{
    lemma_recorded_len(st.inner, st.db, st.buf, file, line, ln, st.col);
}

proof fn lemma_lex_char_potential(
    st: LexState,
    c: char,
    file: Seq<char>,
    line: Seq<char>,
    ln: usize,
    ig: Seq<char>,
    sp: Seq<char>,
    ssp: Seq<char>,
)
    ensures
        lex_potential(lex_char(st, c, file, line, ln, ig, sp, ssp)) <= lex_potential(st) + 3,
{
    let st2 = LexState { col: (st.col + 1) as usize, last_slash: c == '/', ..st };
    lemma_flush_potential(st2, file, line, ln);
    let f = flush(st2, file, line, ln);
    lemma_recorded_len(f.inner, f.db, seq![c], file, line, ln, st2.col);
}

proof fn lemma_lex_line_from_potential(
    st: LexState,
    line: Seq<char>,
    i: int,
    file: Seq<char>,
    ln: usize,
    ig: Seq<char>,
    sp: Seq<char>,
    ssp: Seq<char>,
)
    requires
        0 <= i <= line.len(),
    ensures
        lex_potential(lex_line_from(st, line, i, file, ln, ig, sp, ssp)) <= lex_potential(st) + 3 * (
        line.len() - i),
    decreases line.len() - i,
{
    if i < line.len() {
        lemma_lex_char_potential(st, line[i], file, line, ln, ig, sp, ssp);
        lemma_lex_line_from_potential(
            lex_char(st, line[i], file, line, ln, ig, sp, ssp),
            line,
            i + 1,
            file,
            ln,
            ig,
            sp,
            ssp,
        );
    }
}

proof fn lemma_lex_lines_potential(
    st: LexState,
    lines: Seq<Seq<char>>,
    k: int,
    file: Seq<char>,
    ig: Seq<char>,
    sp: Seq<char>,
    ssp: Seq<char>,
)
    requires
        0 <= k <= lines.len(),
    ensures
        lex_potential(lex_lines_from(st, lines, k, file, ig, sp, ssp)) <= lex_potential(st) + 3
            * total_len(lines.skip(k)),
    decreases lines.len() - k,
{
    if k < lines.len() {
        let ln = (k + 1) as usize;
        let st0 = LexState { skip: false, last_slash: false, col: 0, ..st };
        lemma_lex_line_from_potential(st0, lines[k], 0, file, ln, ig, sp, ssp);
        let m = lex_line_from(st0, lines[k], 0, file, ln, ig, sp, ssp);
        lemma_flush_potential(m, file, lines[k], ln);
        lemma_lex_lines_potential(lex_line(st, lines[k], file, ln, ig, sp, ssp), lines, k + 1, file, ig, sp, ssp);
        assert(lines.skip(k) =~= seq![lines[k]] + lines.skip(k + 1));
        lemma_total_len_append(seq![lines[k]], lines.skip(k + 1));
        let one = seq![lines[k]];
        assert(one.drop_last() =~= Seq::<Seq<char>>::empty());
        assert(total_len(Seq::<Seq<char>>::empty()) == 0);
        assert(one.last() == lines[k]);
        assert(total_len(one) == total_len(one.drop_last()) + one.last().len());
    }
}

/// Under `lex_file`'s bound, lexing leaves the interner holding fewer than `u32::MAX` strings.
proof fn lemma_lex_result_bound(
    s: Seq<char>,
    file_path: Seq<char>,
    ig: Seq<char>,
    sp: Seq<char>,
    ssp: Seq<char>,
    db: Seq<Seq<char>>,
)
    requires
        db.len() + 3 * s.len() < u32::MAX,
    ensures
        lex_result(s, file_path, ig, sp, ssp, db).db.len() < u32::MAX,
        lex_result(s, file_path, ig, sp, ssp, db).db.len() < usize::MAX,
{
    let st = LexState {
        ignore: false,
        buf: Seq::empty(),
        skip: false,
        last_slash: false,
        col: 0,
        inner: Seq::empty(),
        db,
    };
    lemma_lex_lines_potential(st, split_newlines(s), 0, file_path, ig, sp, ssp);
    assert(split_newlines(s).skip(0) =~= split_newlines(s));
    lemma_split_total(s, Seq::empty());
}


/// Inside a quote, characters up to the next character of `ignore_pattern` join the pending
/// lexeme.
proof fn lemma_quoted_run(
    st: LexState,
    line: Seq<char>,
    i: int,
    j: int,
    file: Seq<char>,
    ln: usize,
    ig: Seq<char>,
    sp: Seq<char>,
    ssp: Seq<char>,
)
    requires
        0 <= i <= j <= line.len(),
        st.ignore,
        !st.skip,
        forall|k: int| i <= k < j ==> !ig.contains(#[trigger] line[k]),
        st.col + (j - i) <= usize::MAX,
    ensures
        lex_line_from(st, line, i, file, ln, ig, sp, ssp) == lex_line_from(
            LexState { buf: st.buf + line.subrange(i, j), col: (st.col + (j - i)) as usize, ..st },
            line,
            j,
            file,
            ln,
            ig,
            sp,
            ssp,
        ),
    decreases j - i,
{
    if i == j {
        assert(st.buf + line.subrange(i, j) =~= st.buf);
        assert(LexState { buf: st.buf + line.subrange(i, j), col: (st.col + (j - i)) as usize, ..st } =~= st);
    } else {
        let st1 = LexState { buf: st.buf.push(line[i]), col: (st.col + 1) as usize, ..st };
        assert(lex_char(st, line[i], file, line, ln, ig, sp, ssp) == st1);
        lemma_quoted_run(st1, line, i + 1, j, file, ln, ig, sp, ssp);
        assert(st1.buf + line.subrange(i + 1, j) =~= st.buf + line.subrange(i, j));
    }
}

/// A quoted part is kept whole: from a character of `ignore_pattern` to the next one, every
/// character joins the pending lexeme, quotes included, whatever would split lexemes outside
/// a quote, and nothing is recorded; after the closing character, lexing goes on outside the
/// quote.
pub proof fn law_quoted_part_kept(
    st: LexState,
    line: Seq<char>,
    i: int,
    j: int,
    file: Seq<char>,
    ln: usize,
    ignore_pattern: Seq<char>,
    split_pattern: Seq<char>,
    special_split_pattern: Seq<char>,
)
    requires
        0 <= i < j < line.len(),
        !st.ignore,
        !st.skip,
        !(st.last_slash && line[i] == '/'),
        ignore_pattern.contains(line[i]),
        ignore_pattern.contains(line[j]),
        forall|k: int| i < k < j ==> !ignore_pattern.contains(#[trigger] line[k]),
        st.col + (j + 1 - i) <= usize::MAX,
    ensures
        lex_line_from(st, line, i, file, ln, ignore_pattern, split_pattern, special_split_pattern)
            == lex_line_from(
            LexState {
                buf: st.buf + line.subrange(i, j + 1),
                col: (st.col + (j + 1 - i)) as usize,
                last_slash: line[i] == '/',
                ignore: false,
                ..st
            },
            line,
            j + 1,
            file,
            ln,
            ignore_pattern,
            split_pattern,
            special_split_pattern,
        ),
{
    let ig = ignore_pattern;
    let sp = split_pattern;
    let ssp = special_split_pattern;
    let st1 = LexState {
        ignore: true,
        buf: st.buf.push(line[i]),
        col: (st.col + 1) as usize,
        last_slash: line[i] == '/',
        ..st
    };
    assert(lex_char(st, line[i], file, line, ln, ig, sp, ssp) == st1);
    lemma_quoted_run(st1, line, i + 1, j, file, ln, ig, sp, ssp);
    let st2 = LexState { buf: st1.buf + line.subrange(i + 1, j), col: (st1.col + (j - i - 1)) as usize, ..st1 };
    let st3 = LexState { ignore: false, buf: st2.buf.push(line[j]), col: (st2.col + 1) as usize, ..st2 };
    assert(lex_char(st2, line[j], file, line, ln, ig, sp, ssp) == st3);
    assert(lex_line_from(st2, line, j, file, ln, ig, sp, ssp) == lex_line_from(st3, line, j + 1, file, ln, ig, sp, ssp));
    assert(st3.buf =~= st.buf + line.subrange(i, j + 1));
    assert(st3 =~= LexState {
        buf: st.buf + line.subrange(i, j + 1),
        col: (st.col + (j + 1 - i)) as usize,
        last_slash: line[i] == '/',
        ignore: false,
        ..st
    });
}

} // verus!
