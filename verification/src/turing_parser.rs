//! A text format for Turing machine graphs, read and written back.
//!
//! A text is a list of statements, each ended by `;`:
//! - `initial = q_name;` names the initial state `name`;
//! - `accepting = q_a, q_b;` adds accepting states;
//! - `q_from { a_0, ..., a_k -> D_0, b_1, D_1, ..., b_k, D_k | ... } q_to;` adds transitions
//!   from the state `from` to the state `to` (both added when missing).
//!
//! A state is written `q` followed by its name, with an optional `_` in between. Directions are
//! `L`, `R` and `N`; a symbol is a single character. Blanks separate words, and `//` starts a
//! comment that runs to the end of the line. The number of writing tapes is that of the first
//! transition (one when there is none).
use vstd::prelude::*;

use crate::text::{chars_of, push_text, string_of};
use crate::turing_graph::{
    EdgeModel, GraphModel, IndexModel, StateModel, TransitionEdge, TuringGraph, TuringGraphError,
    TuringState, TuringStateType, init_state_name,
};
use crate::turing_machine::TuringMachineError;
use crate::turing_transition::{
    InfoModel, MultModel, TransitionMultRibbonInfo, TuringDirection, TuringTransition,
    TuringTransitionError, TuringTransitionWrapper, info_text, mult_args_bad, mult_built,
    mult_illegal,
};

verus! {

/// The kinds of the tokens of a text.
#[derive(Debug, Clone, Copy, PartialEq, Eq, Structural)]
pub enum TokenKind {
    /// `{`
    Open,
    /// `}`
    Close,
    /// `|`
    Bar,
    /// `,`
    Comma,
    /// `;`
    Semi,
    /// `=`
    Equal,
    /// `->`
    Arrow,
    /// A run of characters that are neither blanks nor punctuation.
    Word,
    /// The end of the text.
    End,
}

/// A token: its kind, its characters, and the line and column (from 1) where it starts.
pub struct TokenModel {
    pub kind: TokenKind,
    pub text: Seq<char>,
    pub line: usize,
    pub col: usize,
}

/// A token of a text.
struct Token {
    kind: TokenKind,
    text: Vec<char>,
    line: usize,
    col: usize,
}

impl View for Token {
    type V = TokenModel;

    closed spec fn view(&self) -> TokenModel {
        TokenModel { kind: self.kind, text: self.text@, line: self.line, col: self.col }
    }
}

/// The abstract content of a sequence of tokens.
spec fn tokens_view(v: Seq<Token>) -> Seq<TokenModel> {
    v.map_values(|t: Token| t@)
}

/// A blank other than the end of a line.
pub open spec fn is_blank(c: char) -> bool {
    c == ' ' || c == '\t' || c == '\r'
}

/// A character that is a token by itself.
pub open spec fn is_punct(c: char) -> bool {
    c == '{' || c == '}' || c == '|' || c == ',' || c == ';' || c == '='
}

/// The kind of the token made of the punctuation character `c`.
pub open spec fn punct_kind(c: char) -> TokenKind {
    if c == '{' {
        TokenKind::Open
    } else if c == '}' {
        TokenKind::Close
    } else if c == '|' {
        TokenKind::Bar
    } else if c == ',' {
        TokenKind::Comma
    } else if c == ';' {
        TokenKind::Semi
    } else {
        TokenKind::Equal
    }
}

/// Whether an arrow `->` starts at `i`.
pub open spec fn starts_arrow(s: Seq<char>, i: int) -> bool {
    0 <= i && i + 1 < s.len() && s[i] == '-' && s[i + 1] == '>'
}

/// Whether a comment `//` starts at `i`.
pub open spec fn starts_comment(s: Seq<char>, i: int) -> bool {
    0 <= i && i + 1 < s.len() && s[i] == '/' && s[i + 1] == '/'
}

/// Whether a word cannot go on at `j`.
pub open spec fn word_stops(s: Seq<char>, j: int) -> bool {
    j >= s.len() || is_blank(s[j]) || s[j] == '\n' || is_punct(s[j]) || starts_arrow(s, j)
        || starts_comment(s, j)
}

/// The position where the word that goes on at `j` ends.
pub open spec fn word_end(s: Seq<char>, j: int) -> int
    decreases s.len() - j,
{
    if j < 0 || word_stops(s, j) {
        j
    } else {
        word_end(s, j + 1)
    }
}

/// The position of the end of the line that goes on at `j`.
pub open spec fn line_end(s: Seq<char>, j: int) -> int
    decreases s.len() - j,
{
    if j < 0 || j >= s.len() || s[j] == '\n' {
        j
    } else {
        line_end(s, j + 1)
    }
}

/// The tokens of `s` from position `i` on, `i` being at line `line` and column `col`.
pub open spec fn lex_from(s: Seq<char>, i: int, line: usize, col: usize) -> Seq<TokenModel>
    decreases s.len() - i,
{
    if i < 0 || i >= s.len() {
        seq![TokenModel { kind: TokenKind::End, text: Seq::empty(), line, col }]
    } else if s[i] == '\n' {
        lex_from(s, i + 1, (line + 1) as usize, 1)
    } else if is_blank(s[i]) {
        lex_from(s, i + 1, line, (col + 1) as usize)
    } else if starts_comment(s, i) {
        let j = line_end(s, i);
        if j > i {
            proof {
                lemma_line_end(s, i);
            }
            lex_from(s, j, line, (col + (j - i)) as usize)
        } else {
            Seq::empty()
        }
    } else if starts_arrow(s, i) {
        seq![TokenModel { kind: TokenKind::Arrow, text: seq!['-', '>'], line, col }] + lex_from(
            s,
            i + 2,
            line,
            (col + 2) as usize,
        )
    } else if is_punct(s[i]) {
        seq![TokenModel { kind: punct_kind(s[i]), text: seq![s[i]], line, col }] + lex_from(
            s,
            i + 1,
            line,
            (col + 1) as usize,
        )
    } else {
        let j = word_end(s, i + 1);
        if j > i {
            proof {
                lemma_word_end(s, i + 1);
            }
            seq![TokenModel { kind: TokenKind::Word, text: s.subrange(i, j), line, col }] + lex_from(
                s,
                j,
                line,
                (col + (j - i)) as usize,
            )
        } else {
            Seq::empty()
        }
    }
}

/// The tokens of a text.
pub open spec fn lex(s: Seq<char>) -> Seq<TokenModel> {
    lex_from(s, 0, 1, 1)
}

pub proof fn lemma_word_end(s: Seq<char>, j: int)
    requires
        0 <= j <= s.len(),
    ensures
        j <= word_end(s, j) <= s.len(),
        forall|m: int| j <= m < word_end(s, j) ==> !word_stops(s, m),
    decreases s.len() - j,
{
    if !word_stops(s, j) {
        lemma_word_end(s, j + 1);
    }
}

pub proof fn lemma_line_end(s: Seq<char>, j: int)
    requires
        0 <= j <= s.len(),
    ensures
        j <= line_end(s, j) <= s.len(),
        forall|m: int| j <= m < line_end(s, j) ==> s[m] != '\n',
    decreases s.len() - j,
{
    if j < s.len() && s[j] != '\n' {
        lemma_line_end(s, j + 1);
    }
}

/// The position where the word going on at `j` ends.
fn find_word_end(s: &Vec<char>, j: usize) -> (e: usize)
    requires
        j <= s@.len(),
    ensures
        e == word_end(s@, j as int),
{
    let mut e = j;
    while e < s.len() && !(s[e] == ' ' || s[e] == '\t' || s[e] == '\r' || s[e] == '\n' || s[e] == '{'
        || s[e] == '}' || s[e] == '|' || s[e] == ',' || s[e] == ';' || s[e] == '=' || (s[e] == '-'
        && e + 1 < s.len() && s[e + 1] == '>') || (s[e] == '/' && e + 1 < s.len() && s[e + 1]
        == '/'))
        invariant
            j <= e <= s@.len(),
            word_end(s@, e as int) == word_end(s@, j as int),
        decreases s.len() - e,
    {
        e = e + 1;
    }
    e
}

/// The position of the end of the line going on at `j`.
fn find_line_end(s: &Vec<char>, j: usize) -> (e: usize)
    requires
        j <= s@.len(),
    ensures
        e == line_end(s@, j as int),
{
    let mut e = j;
    while e < s.len() && s[e] != '\n'
        invariant
            j <= e <= s@.len(),
            line_end(s@, e as int) == line_end(s@, j as int),
        decreases s.len() - e,
    {
        e = e + 1;
    }
    e
}

/// Splits a text into tokens, ending with an `End` token.
fn tokenize(s: &Vec<char>) -> (ts: Vec<Token>)
    requires
        s@.len() + 2 < usize::MAX,
    ensures
        tokens_view(ts@) == lex(s@),
{
    let mut ts: Vec<Token> = Vec::new();
    let mut i: usize = 0;
    let mut line: usize = 1;
    let mut col: usize = 1;
    while i < s.len()
        invariant
            s@.len() + 2 < usize::MAX,
            0 <= i <= s@.len(),
            1 <= line <= i + 1,
            1 <= col <= i + 1,
            tokens_view(ts@) + lex_from(s@, i as int, line, col) == lex(s@),
        decreases s.len() - i,
    {
        let ghost before = tokens_view(ts@);
        let c = s[i];
        if c == '\n' {
            i = i + 1;
            line = line + 1;
            col = 1;
        } else if c == ' ' || c == '\t' || c == '\r' {
            i = i + 1;
            col = col + 1;
        } else if c == '/' && i + 1 < s.len() && s[i + 1] == '/' {
            let j = find_line_end(s, i + 1);
            proof {
                lemma_line_end(s@, i + 1);
                assert(line_end(s@, i as int) == line_end(s@, i + 1));
            }
            col = col + (j - i);
            i = j;
        } else if c == '-' && i + 1 < s.len() && s[i + 1] == '>' {
            let mut text: Vec<char> = Vec::new();
            text.push('-');
            text.push('>');
            let t = Token { kind: TokenKind::Arrow, text, line, col };
            ts.push(t);
            proof {
                assert(t@.text =~= seq!['-', '>']);
                assert(tokens_view(ts@) =~= before.push(t@));
                assert(before.push(t@) + lex_from(s@, i + 2, line, (col + 2) as usize) =~= before + (seq![t@]
                    + lex_from(s@, i + 2, line, (col + 2) as usize)));
            }
            i = i + 2;
            col = col + 2;
        } else if c == '{' || c == '}' || c == '|' || c == ',' || c == ';' || c == '=' {
            let kind = if c == '{' {
                TokenKind::Open
            } else if c == '}' {
                TokenKind::Close
            } else if c == '|' {
                TokenKind::Bar
            } else if c == ',' {
                TokenKind::Comma
            } else if c == ';' {
                TokenKind::Semi
            } else {
                TokenKind::Equal
            };
            let mut text: Vec<char> = Vec::new();
            text.push(c);
            let t = Token { kind, text, line, col };
            ts.push(t);
            proof {
                assert(t@.text =~= seq![c]);
                assert(tokens_view(ts@) =~= before.push(t@));
                assert(before.push(t@) + lex_from(s@, i + 1, line, (col + 1) as usize) =~= before + (seq![t@]
                    + lex_from(s@, i + 1, line, (col + 1) as usize)));
            }
            i = i + 1;
            col = col + 1;
        } else {
            let j = find_word_end(s, i + 1);
            proof {
                lemma_word_end(s@, i + 1);
            }
            let mut text: Vec<char> = Vec::new();
            let mut m = i;
            while m < j
                invariant
                    i <= m <= j <= s@.len(),
                    text@ == s@.subrange(i as int, m as int),
                decreases j - m,
            {
                text.push(s[m]);
                m = m + 1;
                assert(text@ =~= s@.subrange(i as int, m as int));
            }
            let t = Token { kind: TokenKind::Word, text, line, col };
            ts.push(t);
            proof {
                assert(tokens_view(ts@) =~= before.push(t@));
                assert(before.push(t@) + lex_from(s@, j as int, line, (col + (j - i)) as usize) =~= before
                    + (seq![t@] + lex_from(s@, j as int, line, (col + (j - i)) as usize)));
            }
            col = col + (j - i);
            i = j;
        }
    }
    let end = Token { kind: TokenKind::End, text: Vec::new(), line, col };
    let ghost before = tokens_view(ts@);
    ts.push(end);
    proof {
        assert(end@.text =~= Seq::<char>::empty());
        assert(tokens_view(ts@) =~= before.push(end@));
        assert(before + lex_from(s@, i as int, line, col) =~= before.push(end@));
    }
    ts
}

/// An error met while reading a text.
#[derive(Debug)]
pub enum TuringParserError {
    /// The text does not follow the format: at `line_col_pos` stands the token `value`, where
    /// `missing_value` (when given) was expected.
    ParsingError { line_col_pos: (usize, usize), value: String, missing_value: Option<String> },
    /// The statement or transition at `line_col_pos`, starting with `value`, could not be
    /// applied to the graph.
    TuringError { line_col_pos: (usize, usize), turing_error: Box<TuringMachineError>, value: String },
}

/// Where the text stops following the format: the position and text of the token found, and
/// what was expected there when a single token would do.
pub struct SyntaxErrorModel {
    pub line: usize,
    pub col: usize,
    pub value: Seq<char>,
    pub missing: Option<Seq<char>>,
}

/// Whether `e` reports the syntax error `m`.
pub open spec fn reports_syntax(e: TuringParserError, m: SyntaxErrorModel) -> bool {
    &&& e matches TuringParserError::ParsingError { line_col_pos, value, missing_value }
    &&& line_col_pos == (m.line, m.col)
    &&& value@ == m.value
    &&& match (missing_value, m.missing) {
        (Some(a), Some(b)) => a@ == b,
        (None, None) => true,
        _ => false,
    }
}

/// A transition as written: the characters read, the characters written, the directions
/// (that of the reading tape first), and its first token.
pub struct TransSyntax {
    pub reads: Seq<char>,
    pub writes: Seq<char>,
    pub dirs: Seq<TuringDirection>,
    pub line: usize,
    pub col: usize,
    pub value: Seq<char>,
}

/// A statement as written, with its first token where an error can come from it.
pub enum StmtSyntax {
    Initial { name: Seq<char>, line: usize, col: usize, value: Seq<char> },
    Accepting { names: Seq<Seq<char>> },
    Transitions { from: Seq<char>, alts: Seq<TransSyntax>, to: Seq<char>, line: usize, col: usize, value: Seq<char> },
}

/// The token at `i`, or an end token past the end.
pub open spec fn at(ts: Seq<TokenModel>, i: int) -> TokenModel {
    if 0 <= i < ts.len() {
        ts[i]
    } else {
        TokenModel { kind: TokenKind::End, text: Seq::empty(), line: 0, col: 0 }
    }
}

/// The error of finding `t` where `missing` (if given) was expected.
pub open spec fn unexpected(t: TokenModel, missing: Option<Seq<char>>) -> SyntaxErrorModel {
    SyntaxErrorModel { line: t.line, col: t.col, value: t.text, missing }
}

/// A word that names a state: `q` followed by a non-empty name, with an optional `_` first.
pub open spec fn is_state_word(w: Seq<char>) -> bool {
    &&& w.len() >= 2
    &&& w[0] == 'q'
    &&& (w[1] == '_' ==> w.len() >= 3)
}

/// The name of the state a state word names.
pub open spec fn state_name(w: Seq<char>) -> Seq<char> {
    if w[1] == '_' {
        w.skip(2)
    } else {
        w.skip(1)
    }
}

/// The direction a word stands for, if any.
pub open spec fn direction_of(w: Seq<char>) -> Option<TuringDirection> {
    if w == seq!['L'] {
        Some(TuringDirection::Left)
    } else if w == seq!['R'] {
        Some(TuringDirection::Right)
    } else if w == seq!['N'] {
        Some(TuringDirection::Neutral)
    } else {
        None
    }
}

/// The keyword of the statement naming the initial state.
pub open spec fn initial_word() -> Seq<char> {
    seq!['i', 'n', 'i', 't', 'i', 'a', 'l']
}

/// The keyword of the statement adding accepting states.
pub open spec fn accepting_word() -> Seq<char> {
    seq!['a', 'c', 'c', 'e', 'p', 't', 'i', 'n', 'g']
}

/// A token of kind `kind` at `i`, or an error saying `lit` was expected.
pub open spec fn expect(ts: Seq<TokenModel>, i: int, kind: TokenKind, lit: Seq<char>) -> Result<int, SyntaxErrorModel> {
    if at(ts, i).kind == kind {
        Ok(i + 1)
    } else {
        Err(unexpected(at(ts, i), Some(lit)))
    }
}

/// A state word at `i`.
pub open spec fn state_at(ts: Seq<TokenModel>, i: int) -> Result<(Seq<char>, int), SyntaxErrorModel> {
    let t = at(ts, i);
    if t.kind == TokenKind::Word && is_state_word(t.text) {
        Ok((state_name(t.text), i + 1))
    } else {
        Err(unexpected(t, None))
    }
}

/// A symbol (a word of one character) at `i`.
pub open spec fn symbol_at(ts: Seq<TokenModel>, i: int) -> Result<(char, int), SyntaxErrorModel> {
    let t = at(ts, i);
    if t.kind == TokenKind::Word && t.text.len() == 1 {
        Ok((t.text[0], i + 1))
    } else {
        Err(unexpected(t, None))
    }
}

/// A direction at `i`.
pub open spec fn direction_at(ts: Seq<TokenModel>, i: int) -> Result<(TuringDirection, int), SyntaxErrorModel> {
    let t = at(ts, i);
    if t.kind == TokenKind::Word && direction_of(t.text) is Some {
        Ok((direction_of(t.text)->Some_0, i + 1))
    } else {
        Err(unexpected(t, None))
    }
}

/// Symbols separated by commas, from `i` on.
pub open spec fn symbols_from(ts: Seq<TokenModel>, i: int) -> Result<(Seq<char>, int), SyntaxErrorModel>
    decreases ts.len() - i,
{
    match symbol_at(ts, i) {
        Err(e) => Err(e),
        Ok((c, j)) => if at(ts, j).kind == TokenKind::Comma {
            match symbols_from(ts, j + 1) {
                Ok((cs, k)) => Ok((seq![c] + cs, k)),
                Err(e) => Err(e),
            }
        } else {
            Ok((seq![c], j))
        },
    }
}

/// The pairs `, b, D` that end a transition, from `i` on: the characters and the directions.
pub open spec fn tail_from(ts: Seq<TokenModel>, i: int) -> Result<(Seq<char>, Seq<TuringDirection>, int), SyntaxErrorModel>
    decreases ts.len() - i,
{
    if at(ts, i).kind != TokenKind::Comma {
        Ok((Seq::empty(), Seq::empty(), i))
    } else {
        match symbol_at(ts, i + 1) {
            Err(e) => Err(e),
            Ok((c, j)) => match expect(ts, j, TokenKind::Comma, seq![',']) {
                Err(e) => Err(e),
                Ok(j2) => match direction_at(ts, j2) {
                    Err(e) => Err(e),
                    Ok((d, j3)) => match tail_from(ts, j3) {
                        Ok((ws, ds, k)) => Ok((seq![c] + ws, seq![d] + ds, k)),
                        Err(e) => Err(e),
                    },
                },
            },
        }
    }
}

/// A transition `a_0, ..., a_k -> D_0, b_1, D_1, ...` at `i`.
pub open spec fn trans_from(ts: Seq<TokenModel>, i: int) -> Result<(TransSyntax, int), SyntaxErrorModel> {
    let t = at(ts, i);
    match symbols_from(ts, i) {
        Err(e) => Err(e),
        Ok((reads, j)) => match expect(ts, j, TokenKind::Arrow, seq!['-', '>']) {
            Err(e) => Err(e),
            Ok(j1) => match direction_at(ts, j1) {
                Err(e) => Err(e),
                Ok((d, j2)) => match tail_from(ts, j2) {
                    Err(e) => Err(e),
                    Ok((ws, ds, k)) => Ok(
                        (
                            TransSyntax {
                                reads,
                                writes: ws,
                                dirs: seq![d] + ds,
                                line: t.line,
                                col: t.col,
                                value: t.text,
                            },
                            k,
                        ),
                    ),
                },
            },
        },
    }
}

/// A symbol read advances the position, within the tokens.
pub proof fn lemma_symbols_advance(ts: Seq<TokenModel>, i: int)
    requires
        0 <= i,
    ensures
        symbols_from(ts, i) matches Ok((_, j)) ==> i < j <= ts.len(),
    decreases ts.len() - i,
{
    if let Ok((c, j)) = symbol_at(ts, i) {
        if at(ts, j).kind == TokenKind::Comma {
            lemma_symbols_advance(ts, j + 1);
        }
    }
}

/// The end of a transition does not move the position back, nor past the tokens.
pub proof fn lemma_tail_advance(ts: Seq<TokenModel>, i: int)
    requires
        0 <= i <= ts.len(),
    ensures
        tail_from(ts, i) matches Ok((_, _, j)) ==> i <= j <= ts.len(),
    decreases ts.len() - i,
{
    if at(ts, i).kind == TokenKind::Comma {
        if let Ok((c, j)) = symbol_at(ts, i + 1) {
            if let Ok(j2) = expect(ts, j, TokenKind::Comma, seq![',']) {
                if let Ok((d, j3)) = direction_at(ts, j2) {
                    lemma_tail_advance(ts, j3);
                }
            }
        }
    }
}

/// A transition read advances the position, within the tokens.
pub proof fn lemma_trans_advance(ts: Seq<TokenModel>, i: int)
    requires
        0 <= i,
    ensures
        trans_from(ts, i) matches Ok((_, j)) ==> i < j <= ts.len(),
{
    lemma_symbols_advance(ts, i);
    if let Ok((reads, j)) = symbols_from(ts, i) {
        if let Ok(j1) = expect(ts, j, TokenKind::Arrow, seq!['-', '>']) {
            if let Ok((d, j2)) = direction_at(ts, j1) {
                lemma_tail_advance(ts, j2);
            }
        }
    }
}

/// Transitions separated by `|`, from `i` on.
pub open spec fn alts_from(ts: Seq<TokenModel>, i: int) -> Result<(Seq<TransSyntax>, int), SyntaxErrorModel>
    decreases ts.len() - i,
{
    if i < 0 {
        Err(unexpected(at(ts, i), None))
    } else {
        match trans_from(ts, i) {
            Err(e) => Err(e),
            Ok((tr, j)) => if at(ts, j).kind == TokenKind::Bar {
                proof {
                    lemma_trans_advance(ts, i);
                }
                match alts_from(ts, j + 1) {
                    Ok((trs, k)) => Ok((seq![tr] + trs, k)),
                    Err(e) => Err(e),
                }
            } else {
                Ok((seq![tr], j))
            },
        }
    }
}

/// State words separated by commas, from `i` on.
pub open spec fn names_from(ts: Seq<TokenModel>, i: int) -> Result<(Seq<Seq<char>>, int), SyntaxErrorModel>
    decreases ts.len() - i,
{
    match state_at(ts, i) {
        Err(e) => Err(e),
        Ok((n, j)) => if at(ts, j).kind == TokenKind::Comma {
            match names_from(ts, j + 1) {
                Ok((ns, k)) => Ok((seq![n] + ns, k)),
                Err(e) => Err(e),
            }
        } else {
            Ok((seq![n], j))
        },
    }
}

/// A statement at `i`.
pub open spec fn stmt_at(ts: Seq<TokenModel>, i: int) -> Result<(StmtSyntax, int), SyntaxErrorModel> {
    let t = at(ts, i);
    if t.kind == TokenKind::Word && t.text == initial_word() {
        match expect(ts, i + 1, TokenKind::Equal, seq!['=']) {
            Err(e) => Err(e),
            Ok(j) => match state_at(ts, j) {
                Err(e) => Err(e),
                Ok((n, j1)) => match expect(ts, j1, TokenKind::Semi, seq![';']) {
                    Err(e) => Err(e),
                    Ok(k) => Ok((StmtSyntax::Initial { name: n, line: t.line, col: t.col, value: t.text }, k)),
                },
            },
        }
    } else if t.kind == TokenKind::Word && t.text == accepting_word() {
        match expect(ts, i + 1, TokenKind::Equal, seq!['=']) {
            Err(e) => Err(e),
            Ok(j) => match names_from(ts, j) {
                Err(e) => Err(e),
                Ok((ns, j1)) => match expect(ts, j1, TokenKind::Semi, seq![';']) {
                    Err(e) => Err(e),
                    Ok(k) => Ok((StmtSyntax::Accepting { names: ns }, k)),
                },
            },
        }
    } else {
        match state_at(ts, i) {
            Err(e) => Err(e),
            Ok((from, j)) => match expect(ts, j, TokenKind::Open, seq!['{']) {
                Err(e) => Err(e),
                Ok(j1) => match alts_from(ts, j1) {
                    Err(e) => Err(e),
                    Ok((alts, j2)) => match expect(ts, j2, TokenKind::Close, seq!['}']) {
                        Err(e) => Err(e),
                        Ok(j3) => match state_at(ts, j3) {
                            Err(e) => Err(e),
                            Ok((to, j4)) => match expect(ts, j4, TokenKind::Semi, seq![';']) {
                                Err(e) => Err(e),
                                Ok(k) => Ok(
                                    (
                                        StmtSyntax::Transitions {
                                            from,
                                            alts,
                                            to,
                                            line: t.line,
                                            col: t.col,
                                            value: t.text,
                                        },
                                        k,
                                    ),
                                ),
                            },
                        },
                    },
                },
            },
        }
    }
}

/// A list of transitions read advances the position, within the tokens.
pub proof fn lemma_alts_advance(ts: Seq<TokenModel>, i: int)
    requires
        0 <= i,
    ensures
        alts_from(ts, i) matches Ok((_, j)) ==> i < j <= ts.len(),
    decreases ts.len() - i,
{
    lemma_trans_advance(ts, i);
    if let Ok((tr, j)) = trans_from(ts, i) {
        if at(ts, j).kind == TokenKind::Bar {
            lemma_alts_advance(ts, j + 1);
        }
    }
}

/// A list of states read advances the position, within the tokens, by at least one token
/// per state.
pub proof fn lemma_names_advance(ts: Seq<TokenModel>, i: int)
    requires
        0 <= i,
    ensures
        names_from(ts, i) matches Ok((ns, j)) ==> i < j <= ts.len() && ns.len() <= j - i,
    decreases ts.len() - i,
{
    if let Ok((n, j)) = state_at(ts, i) {
        if at(ts, j).kind == TokenKind::Comma {
            lemma_names_advance(ts, j + 1);
        }
    }
}

/// A statement read advances the position, within the tokens.
pub proof fn lemma_stmt_advance(ts: Seq<TokenModel>, i: int)
    requires
        0 <= i,
    ensures
        stmt_at(ts, i) matches Ok((st, j)) ==> i < j <= ts.len() && stmt_states(st) <= j - i,
{
    let t = at(ts, i);
    if t.kind == TokenKind::Word && t.text == initial_word() {
    } else if t.kind == TokenKind::Word && t.text == accepting_word() {
        lemma_names_advance(ts, i + 2);
    } else {
        if let Ok((from, j)) = state_at(ts, i) {
            if let Ok(j1) = expect(ts, j, TokenKind::Open, seq!['{']) {
                lemma_alts_advance(ts, j1);
            }
        }
    }
}

/// The number of states a statement can add to a graph.
pub open spec fn stmt_states(st: StmtSyntax) -> nat {
    match st {
        StmtSyntax::Initial { .. } => 0,
        StmtSyntax::Accepting { names } => names.len(),
        StmtSyntax::Transitions { .. } => 2,
    }
}

/// The statements from `i` on, up to the end of the text.
pub open spec fn stmts_from(ts: Seq<TokenModel>, i: int) -> Result<Seq<StmtSyntax>, SyntaxErrorModel>
    decreases ts.len() - i,
{
    if i < 0 || at(ts, i).kind == TokenKind::End {
        Ok(Seq::empty())
    } else {
        match stmt_at(ts, i) {
            Err(e) => Err(e),
            Ok((st, j)) => {
                proof {
                    lemma_stmt_advance(ts, i);
                }
                match stmts_from(ts, j) {
                    Ok(rest) => Ok(seq![st] + rest),
                    Err(e) => Err(e),
                }
            },
        }
    }
}

/// The statements of a text, or where it stops following the format.
pub open spec fn text_syntax(s: Seq<char>) -> Result<Seq<StmtSyntax>, SyntaxErrorModel> {
    stmts_from(lex(s), 0)
}

/// A single `q_from { ... } q_to` with nothing after it.
pub open spec fn transition_syntax(s: Seq<char>) -> Result<(Seq<char>, Seq<TransSyntax>, Seq<char>), SyntaxErrorModel> {
    let ts = lex(s);
    match state_at(ts, 0) {
        Err(e) => Err(e),
        Ok((from, j)) => match expect(ts, j, TokenKind::Open, seq!['{']) {
            Err(e) => Err(e),
            Ok(j1) => match alts_from(ts, j1) {
                Err(e) => Err(e),
                Ok((alts, j2)) => match expect(ts, j2, TokenKind::Close, seq!['}']) {
                    Err(e) => Err(e),
                    Ok(j3) => match state_at(ts, j3) {
                        Err(e) => Err(e),
                        Ok((to, j4)) => if at(ts, j4).kind == TokenKind::End {
                            Ok((from, alts, to))
                        } else {
                            Err(unexpected(at(ts, j4), None))
                        },
                    },
                },
            },
        },
    }
}

/// Tokens that end with the end of the text.
spec fn ends_well(ts: Seq<TokenModel>) -> bool {
    ts.len() > 0 && ts.last().kind == TokenKind::End
}

/// A transition as read.
struct Trans {
    reads: Vec<char>,
    writes: Vec<char>,
    dirs: Vec<TuringDirection>,
    line: usize,
    col: usize,
    value: Vec<char>,
}

impl View for Trans {
    type V = TransSyntax;

    closed spec fn view(&self) -> TransSyntax {
        TransSyntax {
            reads: self.reads@,
            writes: self.writes@,
            dirs: self.dirs@,
            line: self.line,
            col: self.col,
            value: self.value@,
        }
    }
}

/// A statement as read.
enum Stmt {
    Initial { name: Vec<char>, line: usize, col: usize, value: Vec<char> },
    Accepting { names: Vec<Vec<char>> },
    Transitions { from: Vec<char>, alts: Vec<Trans>, to: Vec<char>, line: usize, col: usize, value: Vec<char> },
}

spec fn names_view(v: Seq<Vec<char>>) -> Seq<Seq<char>> {
    v.map_values(|n: Vec<char>| n@)
}

spec fn alts_view(v: Seq<Trans>) -> Seq<TransSyntax> {
    v.map_values(|t: Trans| t@)
}

spec fn stmts_view(v: Seq<Stmt>) -> Seq<StmtSyntax> {
    v.map_values(|st: Stmt| st@)
}

impl View for Stmt {
    type V = StmtSyntax;

    closed spec fn view(&self) -> StmtSyntax {
        match self {
            Stmt::Initial { name, line, col, value } => StmtSyntax::Initial {
                name: name@,
                line: *line,
                col: *col,
                value: value@,
            },
            Stmt::Accepting { names } => StmtSyntax::Accepting { names: names_view(names@) },
            Stmt::Transitions { from, alts, to, line, col, value } => StmtSyntax::Transitions {
                from: from@,
                alts: alts_view(alts@),
                to: to@,
                line: *line,
                col: *col,
                value: value@,
            },
        }
    }
}

/// The characters of `v` from position `start` on.
fn chars_from(v: &Vec<char>, start: usize) -> (r: Vec<char>)
    requires
        start <= v@.len(),
    ensures
        r@ == v@.skip(start as int),
{
    let mut r: Vec<char> = Vec::new();
    let mut i = start;
    while i < v.len()
        invariant
            start <= i <= v@.len(),
            r@ == v@.subrange(start as int, i as int),
        decreases v.len() - i,
    {
        r.push(v[i]);
        i = i + 1;
        assert(r@ =~= v@.subrange(start as int, i as int));
    }
    assert(r@ =~= v@.skip(start as int));
    r
}

/// A copy of `v`.
fn copy_chars(v: &Vec<char>) -> (r: Vec<char>)
    ensures
        r@ == v@,
{
    let r = chars_from(v, 0);
    assert(v@.skip(0) =~= v@);
    r
}

/// The characters `[c]`.
fn single(c: char) -> (v: Vec<char>)
    ensures
        v@ == seq![c],
{
    let mut v: Vec<char> = Vec::new();
    v.push(c);
    assert(v@ =~= seq![c]);
    v
}

/// The error of finding the token `t` where `missing` (if given) was expected.
fn syntax_error(t: &Token, missing: Option<Vec<char>>) -> (e: TuringParserError)
    ensures
        reports_syntax(
            e,
            unexpected(
                t@,
                match missing {
                    Some(v) => Some(v@),
                    None => None,
                },
            ),
        ),
{
    let value = string_of(&t.text);
    let missing_value = match missing {
        Some(v) => Some(string_of(&v)),
        None => None,
    };
    TuringParserError::ParsingError { line_col_pos: (t.line, t.col), value, missing_value }
}

/// Reads a token of kind `kind` at `i`; `lit` is reported missing otherwise.
fn read_token(ts: &Vec<Token>, i: usize, kind: TokenKind, lit: Vec<char>) -> (r: Result<usize, TuringParserError>)
    requires
        ends_well(tokens_view(ts@)),
        i < ts.len(),
        kind != TokenKind::End,
    ensures
        match expect(tokens_view(ts@), i as int, kind, lit@) {
            Ok(j) => r matches Ok(k) && k == j && k < ts@.len(),
            Err(e) => r matches Err(pe) && reports_syntax(pe, e),
        },
{
    assert(tokens_view(ts@)[i as int] == ts@[i as int]@);
    if ts[i].kind == kind {
        Ok(i + 1)
    } else {
        Err(syntax_error(&ts[i], Some(lit)))
    }
}

/// Reads a state word at `i`.
fn read_state(ts: &Vec<Token>, i: usize) -> (r: Result<(Vec<char>, usize), TuringParserError>)
    requires
        ends_well(tokens_view(ts@)),
        i < ts.len(),
    ensures
        match state_at(tokens_view(ts@), i as int) {
            Ok((n, j)) => r matches Ok((v, k)) && v@ == n && k == j && k < ts@.len(),
            Err(e) => r matches Err(pe) && reports_syntax(pe, e),
        },
{
    let t = &ts[i];
    assert(tokens_view(ts@)[i as int] == t@);
    if t.kind == TokenKind::Word && t.text.len() >= 2 && t.text[0] == 'q' && (t.text[1] != '_'
        || t.text.len() >= 3) {
        let start: usize = if t.text[1] == '_' {
            2
        } else {
            1
        };
        Ok((chars_from(&t.text, start), i + 1))
    } else {
        Err(syntax_error(t, None))
    }
}

/// Reads a symbol at `i`.
fn read_symbol(ts: &Vec<Token>, i: usize) -> (r: Result<(char, usize), TuringParserError>)
    requires
        ends_well(tokens_view(ts@)),
        i < ts.len(),
    ensures
        match symbol_at(tokens_view(ts@), i as int) {
            Ok((c, j)) => r matches Ok((d, k)) && d == c && k == j && k < ts@.len(),
            Err(e) => r matches Err(pe) && reports_syntax(pe, e),
        },
{
    let t = &ts[i];
    assert(tokens_view(ts@)[i as int] == t@);
    if t.kind == TokenKind::Word && t.text.len() == 1 {
        Ok((t.text[0], i + 1))
    } else {
        Err(syntax_error(t, None))
    }
}

/// Reads a direction at `i`.
fn read_direction(ts: &Vec<Token>, i: usize) -> (r: Result<(TuringDirection, usize), TuringParserError>)
    requires
        ends_well(tokens_view(ts@)),
        i < ts.len(),
    ensures
        match direction_at(tokens_view(ts@), i as int) {
            Ok((d, j)) => r matches Ok((e, k)) && e == d && k == j && k < ts@.len(),
            Err(e) => r matches Err(pe) && reports_syntax(pe, e),
        },
{
    let t = &ts[i];
    assert(tokens_view(ts@)[i as int] == t@);
    if t.kind == TokenKind::Word && t.text.len() == 1 {
        let c = t.text[0];
        if c == 'L' {
            assert(t.text@ =~= seq!['L']);
            return Ok((TuringDirection::Left, i + 1));
        } else if c == 'R' {
            assert(t.text@ =~= seq!['R']);
            return Ok((TuringDirection::Right, i + 1));
        } else if c == 'N' {
            assert(t.text@ =~= seq!['N']);
            return Ok((TuringDirection::Neutral, i + 1));
        }
    }
    Err(syntax_error(t, None))
}

/// Reads symbols separated by commas, from `i` on.
fn read_symbols(ts: &Vec<Token>, i: usize) -> (r: Result<(Vec<char>, usize), TuringParserError>)
    requires
        ends_well(tokens_view(ts@)),
        i < ts.len(),
    ensures
        match symbols_from(tokens_view(ts@), i as int) {
            Ok((cs, j)) => r matches Ok((v, k)) && v@ == cs && k == j && k < ts@.len(),
            Err(e) => r matches Err(pe) && reports_syntax(pe, e),
        },
    decreases ts@.len() - i,
{
    let (c, j) = read_symbol(ts, i)?;
    assert(tokens_view(ts@)[j as int] == ts@[j as int]@);
    if ts[j].kind == TokenKind::Comma {
        let (mut cs, k) = read_symbols(ts, j + 1)?;
        cs.insert(0, c);
        assert(cs@ =~= seq![c] + symbols_from(tokens_view(ts@), j + 1)->Ok_0.0);
        Ok((cs, k))
    } else {
        let v = single(c);
        Ok((v, j))
    }
}

/// Reads the pairs `, b, D` that end a transition, from `i` on.
fn read_tail(ts: &Vec<Token>, i: usize) -> (r: Result<(Vec<char>, Vec<TuringDirection>, usize), TuringParserError>)
    requires
        ends_well(tokens_view(ts@)),
        i < ts.len(),
    ensures
        match tail_from(tokens_view(ts@), i as int) {
            Ok((ws, ds, j)) => r matches Ok((v, w, k)) && v@ == ws && w@ == ds && k == j && k < ts@.len(),
            Err(e) => r matches Err(pe) && reports_syntax(pe, e),
        },
    decreases ts@.len() - i,
{
    assert(tokens_view(ts@)[i as int] == ts@[i as int]@);
    if ts[i].kind != TokenKind::Comma {
        return Ok((Vec::new(), Vec::new(), i));
    }
    let (c, j) = read_symbol(ts, i + 1)?;
    let j2 = read_token(ts, j, TokenKind::Comma, single(','))?;
    let (d, j3) = read_direction(ts, j2)?;
    let (mut ws, mut ds, k) = read_tail(ts, j3)?;
    ws.insert(0, c);
    ds.insert(0, d);
    proof {
        let rest = tail_from(tokens_view(ts@), j3 as int)->Ok_0;
        assert(ws@ =~= seq![c] + rest.0);
        assert(ds@ =~= seq![d] + rest.1);
    }
    Ok((ws, ds, k))
}

/// Reads a transition at `i`.
fn read_trans(ts: &Vec<Token>, i: usize) -> (r: Result<(Trans, usize), TuringParserError>)
    requires
        ends_well(tokens_view(ts@)),
        i < ts.len(),
    ensures
        match trans_from(tokens_view(ts@), i as int) {
            Ok((tr, j)) => r matches Ok((t, k)) && t@ == tr && k == j && k < ts@.len(),
            Err(e) => r matches Err(pe) && reports_syntax(pe, e),
        },
{
    assert(tokens_view(ts@)[i as int] == ts@[i as int]@);
    let line = ts[i].line;
    let col = ts[i].col;
    let value = copy_chars(&ts[i].text);
    let (reads, j) = read_symbols(ts, i)?;
    let mut arrow = single('-');
    arrow.push('>');
    assert(arrow@ =~= seq!['-', '>']);
    let j1 = read_token(ts, j, TokenKind::Arrow, arrow)?;
    let (d, j2) = read_direction(ts, j1)?;
    let (writes, mut dirs, k) = read_tail(ts, j2)?;
    dirs.insert(0, d);
    let t = Trans { reads, writes, dirs, line, col, value };
    proof {
        let rest = tail_from(tokens_view(ts@), j2 as int)->Ok_0;
        assert(t@.dirs =~= seq![d] + rest.1);
    }
    Ok((t, k))
}

/// Reads transitions separated by `|`, from `i` on.
fn read_alts(ts: &Vec<Token>, i: usize) -> (r: Result<(Vec<Trans>, usize), TuringParserError>)
    requires
        ends_well(tokens_view(ts@)),
        i < ts.len(),
    ensures
        match alts_from(tokens_view(ts@), i as int) {
            Ok((trs, j)) => r matches Ok((v, k)) && alts_view(v@) == trs && k == j && k < ts@.len(),
            Err(e) => r matches Err(pe) && reports_syntax(pe, e),
        },
    decreases ts@.len() - i,
{
    let (t, j) = read_trans(ts, i)?;
    proof {
        lemma_trans_advance(tokens_view(ts@), i as int);
    }
    assert(tokens_view(ts@)[j as int] == ts@[j as int]@);
    if ts[j].kind == TokenKind::Bar {
        let (mut trs, k) = read_alts(ts, j + 1)?;
        let ghost tv = t@;
        trs.insert(0, t);
        assert(alts_view(trs@) =~= seq![tv] + alts_from(tokens_view(ts@), j + 1)->Ok_0.0);
        Ok((trs, k))
    } else {
        let mut v: Vec<Trans> = Vec::new();
        let ghost tv = t@;
        v.push(t);
        assert(alts_view(v@) =~= seq![tv]);
        Ok((v, j))
    }
}

/// Reads state words separated by commas, from `i` on.
fn read_names(ts: &Vec<Token>, i: usize) -> (r: Result<(Vec<Vec<char>>, usize), TuringParserError>)
    requires
        ends_well(tokens_view(ts@)),
        i < ts.len(),
    ensures
        match names_from(tokens_view(ts@), i as int) {
            Ok((ns, j)) => r matches Ok((v, k)) && names_view(v@) == ns && k == j && k < ts@.len(),
            Err(e) => r matches Err(pe) && reports_syntax(pe, e),
        },
    decreases ts@.len() - i,
{
    let (n, j) = read_state(ts, i)?;
    assert(tokens_view(ts@)[j as int] == ts@[j as int]@);
    if ts[j].kind == TokenKind::Comma {
        let (mut ns, k) = read_names(ts, j + 1)?;
        let ghost nv = n@;
        ns.insert(0, n);
        assert(names_view(ns@) =~= seq![nv] + names_from(tokens_view(ts@), j + 1)->Ok_0.0);
        Ok((ns, k))
    } else {
        let mut v: Vec<Vec<char>> = Vec::new();
        let ghost nv = n@;
        v.push(n);
        assert(names_view(v@) =~= seq![nv]);
        Ok((v, j))
    }
}

/// Whether `v` is the keyword `initial`.
fn is_initial_word(v: &Vec<char>) -> (b: bool)
    ensures
        b == (v@ == initial_word()),
{
    if v.len() == 7 && v[0] == 'i' && v[1] == 'n' && v[2] == 'i' && v[3] == 't' && v[4] == 'i'
        && v[5] == 'a' && v[6] == 'l' {
        assert(v@ =~= initial_word());
        true
    } else {
        false
    }
}

/// Whether `v` is the keyword `accepting`.
fn is_accepting_word(v: &Vec<char>) -> (b: bool)
    ensures
        b == (v@ == accepting_word()),
{
    if v.len() == 9 && v[0] == 'a' && v[1] == 'c' && v[2] == 'c' && v[3] == 'e' && v[4] == 'p'
        && v[5] == 't' && v[6] == 'i' && v[7] == 'n' && v[8] == 'g' {
        assert(v@ =~= accepting_word());
        true
    } else {
        false
    }
}

/// Reads a statement at `i`.
fn read_stmt(ts: &Vec<Token>, i: usize) -> (r: Result<(Stmt, usize), TuringParserError>)
    requires
        ends_well(tokens_view(ts@)),
        i < ts.len(),
    ensures
        match stmt_at(tokens_view(ts@), i as int) {
            Ok((st, j)) => r matches Ok((s, k)) && s@ == st && k == j && k < ts@.len(),
            Err(e) => r matches Err(pe) && reports_syntax(pe, e),
        },
{
    assert(tokens_view(ts@)[i as int] == ts@[i as int]@);
    let t = &ts[i];
    if t.kind == TokenKind::Word && is_initial_word(&t.text) {
        let j = read_token(ts, i + 1, TokenKind::Equal, single('='))?;
        let (name, j1) = read_state(ts, j)?;
        let k = read_token(ts, j1, TokenKind::Semi, single(';'))?;
        Ok((Stmt::Initial { name, line: t.line, col: t.col, value: copy_chars(&t.text) }, k))
    } else if t.kind == TokenKind::Word && is_accepting_word(&t.text) {
        let j = read_token(ts, i + 1, TokenKind::Equal, single('='))?;
        let (names, j1) = read_names(ts, j)?;
        let k = read_token(ts, j1, TokenKind::Semi, single(';'))?;
        Ok((Stmt::Accepting { names }, k))
    } else {
        let (from, j) = read_state(ts, i)?;
        let j1 = read_token(ts, j, TokenKind::Open, single('{'))?;
        let (alts, j2) = read_alts(ts, j1)?;
        let j3 = read_token(ts, j2, TokenKind::Close, single('}'))?;
        let (to, j4) = read_state(ts, j3)?;
        let k = read_token(ts, j4, TokenKind::Semi, single(';'))?;
        Ok((Stmt::Transitions { from, alts, to, line: t.line, col: t.col, value: copy_chars(&t.text) }, k))
    }
}

/// Reads the statements from `i` on, up to the end of the text.
fn read_stmts(ts: &Vec<Token>, i: usize) -> (r: Result<Vec<Stmt>, TuringParserError>)
    requires
        ends_well(tokens_view(ts@)),
        i < ts.len(),
    ensures
        match stmts_from(tokens_view(ts@), i as int) {
            Ok(sts) => r matches Ok(v) && stmts_view(v@) == sts,
            Err(e) => r matches Err(pe) && reports_syntax(pe, e),
        },
    decreases ts@.len() - i,
{
    assert(tokens_view(ts@)[i as int] == ts@[i as int]@);
    if ts[i].kind == TokenKind::End {
        let v: Vec<Stmt> = Vec::new();
        assert(stmts_view(v@) =~= Seq::<StmtSyntax>::empty());
        return Ok(v);
    }
    let (st, j) = read_stmt(ts, i)?;
    proof {
        lemma_stmt_advance(tokens_view(ts@), i as int);
    }
    let mut rest = read_stmts(ts, j)?;
    let ghost sv = st@;
    rest.insert(0, st);
    assert(stmts_view(rest@) =~= seq![sv] + stmts_from(tokens_view(ts@), j as int)->Ok_0);
    Ok(rest)
}

/// Why a statement could not be applied to the graph.
pub enum BuildFailure {
    /// The first transition reads a single tape: a graph needs a writing tape.
    NotEnoughTapes,
    /// The initial state was to be given a name that a state already has.
    NameTaken { name: Seq<char>, state: StateModel },
    /// The transition acts on `received + 1` tapes instead of `expected + 1`.
    Incompatible { expected: usize, received: nat },
    /// The transition is already there between the two states.
    Duplicate { from: usize, to: usize, transition: InfoModel },
    /// The parts of the transition do not fit together.
    TransitionArgs,
    /// The transition could make a tape fail.
    IllegalAction,
}

/// Where a statement could not be applied, and why.
pub struct BuildErrorModel {
    pub line: usize,
    pub col: usize,
    pub value: Seq<char>,
    pub failure: BuildFailure,
}

/// Whether the error `e` of a machine is the failure `f`.
pub open spec fn failure_is(e: TuringMachineError, f: BuildFailure) -> bool {
    match f {
        BuildFailure::NotEnoughTapes => e matches TuringMachineError::GraphError(
            TuringGraphError::NotEnoughTapesError,
        ),
        BuildFailure::NameTaken { name, state } => e matches TuringMachineError::GraphError(
            TuringGraphError::AlreadyPresentNameError { name: n, state: st },
        ) && n@ == name && st@ == state,
        BuildFailure::Incompatible { expected, received } => e matches TuringMachineError::GraphError(
            TuringGraphError::IncompatibleTransitionError { expected: x, received: y },
        ) && x == expected && y == received,
        BuildFailure::Duplicate { from, to, transition } => e matches TuringMachineError::GraphError(
            TuringGraphError::AlreadyPresentTransitionError { from: a, to: b, transition: tr },
        ) && a@ == IndexModel::ID(from) && b@ == IndexModel::ID(to) && tr@ == transition,
        BuildFailure::TransitionArgs => e matches TuringMachineError::TransitionError(
            TuringTransitionError::TransitionArgsError(_),
        ),
        BuildFailure::IllegalAction => e matches TuringMachineError::TransitionError(
            TuringTransitionError::IllegalActionError(_),
        ),
    }
}

/// Whether `e` reports that a statement could not be applied, as `m` says.
pub open spec fn reports_build(e: TuringParserError, m: BuildErrorModel) -> bool {
    &&& e matches TuringParserError::TuringError { line_col_pos, turing_error, value }
    &&& line_col_pos == (m.line, m.col)
    &&& value@ == m.value
    &&& failure_is(*turing_error, m.failure)
}

/// A graph for `k` writing tapes with its initial state only.
pub open spec fn empty_graph(k: usize) -> GraphModel {
    GraphModel {
        states: map![0usize => StateModel { name: init_state_name(), state_type: TuringStateType::Normal, id: 0 }],
        edges: Seq::empty(),
        next_index: 1,
        k,
    }
}

/// The graph once a state named `name` is there (added with kind `t` if missing), and its id.
pub open spec fn with_state(g: GraphModel, name: Seq<char>, t: TuringStateType) -> (GraphModel, usize) {
    match g.id_of_name(name) {
        Some(id) => (g, id),
        None => (
            GraphModel {
                states: g.states.insert(g.next_index, StateModel { name, state_type: t, id: g.next_index }),
                next_index: (g.next_index + 1) as usize,
                ..g
            },
            g.next_index,
        ),
    }
}

/// The graph once states named `names` are there, added with kind `t` where missing.
pub open spec fn with_states(g: GraphModel, names: Seq<Seq<char>>, t: TuringStateType) -> GraphModel
    decreases names.len(),
{
    if names.len() == 0 {
        g
    } else {
        with_states(with_state(g, names[0], t).0, names.drop_first(), t)
    }
}

/// The transition a written transition makes, or why it cannot be made.
pub open spec fn created(tr: TransSyntax) -> Result<MultModel, BuildFailure> {
    if mult_args_bad(tr.reads, tr.writes, tr.dirs) {
        Err(BuildFailure::TransitionArgs)
    } else if mult_illegal(tr.reads, tr.writes, tr.dirs) {
        Err(BuildFailure::IllegalAction)
    } else {
        Ok(mult_built(tr.reads, tr.writes, tr.dirs))
    }
}

/// The graph once `info` is added from `f` to `t`, or why it cannot be.
pub open spec fn appended(g: GraphModel, f: usize, t: usize, info: InfoModel) -> Result<GraphModel, BuildFailure> {
    if info.tapes() != g.k + 1 {
        Err(BuildFailure::Incompatible { expected: g.k, received: (info.tapes() - 1) as nat })
    } else if g.transitions_between(f, t).contains(info) {
        Err(BuildFailure::Duplicate { from: f, to: t, transition: info })
    } else {
        Ok(g.with_transition(f, t, info))
    }
}

/// The error at the written transition `tr`.
pub open spec fn failure_at(tr: TransSyntax, f: BuildFailure) -> BuildErrorModel {
    BuildErrorModel { line: tr.line, col: tr.col, value: tr.value, failure: f }
}

/// The graph once the written transitions `alts` are added from `f` to `t`, in order.
pub open spec fn with_alts(g: GraphModel, f: usize, t: usize, alts: Seq<TransSyntax>) -> Result<GraphModel, BuildErrorModel>
    decreases alts.len(),
{
    if alts.len() == 0 {
        Ok(g)
    } else {
        match created(alts[0]) {
            Err(fl) => Err(failure_at(alts[0], fl)),
            Ok(m) => match appended(g, f, t, InfoModel::MultipleTapes(m)) {
                Err(fl) => Err(failure_at(alts[0], fl)),
                Ok(g2) => with_alts(g2, f, t, alts.drop_first()),
            },
        }
    }
}

/// The graph once a statement is applied.
pub open spec fn apply_stmt(g: GraphModel, st: StmtSyntax) -> Result<GraphModel, BuildErrorModel> {
    match st {
        StmtSyntax::Initial { name, line, col, value } => if g.states[0].name == name {
            Ok(g)
        } else if g.has_name(name) {
            Err(
                BuildErrorModel {
                    line,
                    col,
                    value,
                    failure: BuildFailure::NameTaken { name, state: g.states[g.id_of_name(name)->Some_0] },
                },
            )
        } else {
            Ok(g.renamed(0, name))
        },
        StmtSyntax::Accepting { names } => Ok(with_states(g, names, TuringStateType::Accepting)),
        StmtSyntax::Transitions { from, alts, to, .. } => {
            let (g1, f) = with_state(g, from, TuringStateType::Normal);
            let (g2, t) = with_state(g1, to, TuringStateType::Normal);
            with_alts(g2, f, t, alts)
        },
    }
}

/// The graph once statements are applied in order.
pub open spec fn apply_stmts(g: GraphModel, sts: Seq<StmtSyntax>) -> Result<GraphModel, BuildErrorModel>
    decreases sts.len(),
{
    if sts.len() == 0 {
        Ok(g)
    } else {
        match apply_stmt(g, sts[0]) {
            Err(e) => Err(e),
            Ok(g2) => apply_stmts(g2, sts.drop_first()),
        }
    }
}

/// The first written transition of the statements.
pub open spec fn first_trans(sts: Seq<StmtSyntax>) -> Option<TransSyntax>
    decreases sts.len(),
{
    if sts.len() == 0 {
        None
    } else {
        match sts[0] {
            StmtSyntax::Transitions { alts, .. } => if alts.len() > 0 {
                Some(alts[0])
            } else {
                first_trans(sts.drop_first())
            },
            _ => first_trans(sts.drop_first()),
        }
    }
}

/// The graph the statements describe: it has as many writing tapes as the first transition
/// (one when there is none), and the statements are applied in order.
pub open spec fn build(sts: Seq<StmtSyntax>) -> Result<GraphModel, BuildErrorModel> {
    match first_trans(sts) {
        None => apply_stmts(empty_graph(1), sts),
        Some(tr) => if tr.reads.len() <= 1 {
            Err(failure_at(tr, BuildFailure::NotEnoughTapes))
        } else {
            apply_stmts(empty_graph((tr.reads.len() - 1) as usize), sts)
        },
    }
}

/// The number of states statements can add to a graph.
pub open spec fn stmts_states(sts: Seq<StmtSyntax>) -> nat
    decreases sts.len(),
{
    if sts.len() == 0 {
        0
    } else {
        stmt_states(sts[0]) + stmts_states(sts.drop_first())
    }
}

/// The statements from `i` on can add no more states than there are tokens left.
pub proof fn lemma_stmts_states(ts: Seq<TokenModel>, i: int)
    requires
        0 <= i <= ts.len(),
    ensures
        stmts_from(ts, i) matches Ok(sts) ==> stmts_states(sts) <= ts.len() - i,
    decreases ts.len() - i,
{
    if i < 0 || at(ts, i).kind == TokenKind::End {
    } else {
        lemma_stmt_advance(ts, i);
        if let Ok((st, j)) = stmt_at(ts, i) {
            lemma_stmts_states(ts, j);
            if let Ok(rest) = stmts_from(ts, j) {
                let sts = seq![st] + rest;
                assert(sts.drop_first() =~= rest);
            }
        }
    }
}

/// The tokens of a text end with its end.
pub proof fn lemma_lex_ends(s: Seq<char>, i: int, line: usize, col: usize)
    requires
        0 <= i <= s.len(),
    ensures
        lex_from(s, i, line, col).len() > 0,
        lex_from(s, i, line, col).last().kind == TokenKind::End,
    decreases s.len() - i,
{
    if i < s.len() {
        if s[i] == '\n' {
            lemma_lex_ends(s, i + 1, (line + 1) as usize, 1);
        } else if is_blank(s[i]) {
            lemma_lex_ends(s, i + 1, line, (col + 1) as usize);
        } else if starts_comment(s, i) {
            let j = line_end(s, i);
            lemma_line_end(s, i);
            lemma_line_end(s, i + 1);
            lemma_lex_ends(s, j, line, (col + (j - i)) as usize);
        } else if starts_arrow(s, i) {
            lemma_lex_ends(s, i + 2, line, (col + 2) as usize);
        } else if is_punct(s[i]) {
            lemma_lex_ends(s, i + 1, line, (col + 1) as usize);
        } else {
            let j = word_end(s, i + 1);
            lemma_word_end(s, i + 1);
            lemma_lex_ends(s, j, line, (col + (j - i)) as usize);
        }
    }
}

/// A text has at most one token more than it has characters.
pub proof fn lemma_lex_len(s: Seq<char>, i: int, line: usize, col: usize)
    requires
        0 <= i <= s.len(),
    ensures
        lex_from(s, i, line, col).len() <= s.len() - i + 1,
    decreases s.len() - i,
{
    if i < s.len() {
        if s[i] == '\n' {
            lemma_lex_len(s, i + 1, (line + 1) as usize, 1);
        } else if is_blank(s[i]) {
            lemma_lex_len(s, i + 1, line, (col + 1) as usize);
        } else if starts_comment(s, i) {
            let j = line_end(s, i);
            lemma_line_end(s, i);
            if j > i {
                lemma_lex_len(s, j, line, (col + (j - i)) as usize);
            }
        } else if starts_arrow(s, i) {
            lemma_lex_len(s, i + 2, line, (col + 2) as usize);
        } else if is_punct(s[i]) {
            lemma_lex_len(s, i + 1, line, (col + 1) as usize);
        } else {
            let j = word_end(s, i + 1);
            lemma_word_end(s, i + 1);
            if j > i {
                lemma_lex_len(s, j, line, (col + (j - i)) as usize);
            }
        }
    }
}

/// A copy of `v`.
fn copy_dirs(v: &Vec<TuringDirection>) -> (r: Vec<TuringDirection>)
    ensures
        r@ == v@,
{
    let mut r: Vec<TuringDirection> = Vec::new();
    let mut i: usize = 0;
    while i < v.len()
        invariant
            0 <= i <= v@.len(),
            r@ == v@.take(i as int),
        decreases v.len() - i,
    {
        r.push(v[i]);
        i = i + 1;
        assert(r@ =~= v@.take(i as int));
    }
    assert(r@ =~= v@);
    r
}

/// The error of a statement or transition starting at (`line`, `col`) with `value`, that
/// could not be applied because of `e`.
fn build_error(line: usize, col: usize, value: &Vec<char>, e: TuringMachineError) -> (r: TuringParserError)
    ensures
        r matches TuringParserError::TuringError { line_col_pos, turing_error, value: v } && line_col_pos
            == (line, col) && v@ == value@ && *turing_error == e,
{
    TuringParserError::TuringError {
        line_col_pos: (line, col),
        turing_error: Box::new(e),
        value: string_of(value),
    }
}

/// Adds the transitions `alts` from the state `f` to the state `t`, in order.
fn add_alts<S: TuringState, T: TuringTransition>(graph: &mut TuringGraph<S, T>, f: usize, t: usize, alts: &Vec<Trans>) -> (r:
    Result<(), TuringParserError>)
    requires
        old(graph).wf(),
        old(graph)@.states.contains_key(f),
        old(graph)@.states.contains_key(t),
    ensures
        final(graph).wf(),
        final(graph)@.next_index == old(graph)@.next_index,
        match with_alts(old(graph)@, f, t, alts_view(alts@)) {
            Ok(g) => r is Ok && final(graph)@ == g,
            Err(e) => r matches Err(pe) && reports_build(pe, e),
        },
{
    let ghost g0 = graph@;
    let ghost av = alts_view(alts@);
    assert(av.skip(0) =~= av);
    let mut i: usize = 0;
    while i < alts.len()
        invariant
            0 <= i <= alts@.len(),
            g0 == old(graph)@,
            av == alts_view(alts@),
            graph.wf(),
            graph@.states.contains_key(f),
            graph@.states.contains_key(t),
            graph@.next_index == g0.next_index,
            with_alts(graph@, f, t, av.skip(i as int)) == with_alts(g0, f, t, av),
        decreases alts.len() - i,
    {
        let tr = &alts[i];
        let ghost g = graph@;
        assert(av.skip(i as int)[0] == tr@);
        assert(av.skip(i as int).drop_first() =~= av.skip(i + 1));
        let info = match TransitionMultRibbonInfo::create(copy_chars(&tr.reads), copy_chars(&tr.writes), copy_dirs(&tr.dirs)) {
            Ok(m) => m,
            Err(e) => {
                return Err(build_error(tr.line, tr.col, &tr.value, TuringMachineError::TransitionError(e)));
            },
        };
        match graph.append_transition(f, info, t) {
            Ok(()) => {},
            Err(e) => {
                return Err(build_error(tr.line, tr.col, &tr.value, TuringMachineError::GraphError(e)));
            },
        }
        i = i + 1;
    }
    assert(av.skip(i as int) =~= Seq::<TransSyntax>::empty());
    Ok(())
}

/// Adds the states named `names`, as accepting states where missing.
fn add_accepting<S: TuringState, T: TuringTransition>(graph: &mut TuringGraph<S, T>, names: &Vec<Vec<char>>)
    requires
        old(graph).wf(),
        old(graph)@.next_index + names@.len() < usize::MAX,
    ensures
        final(graph).wf(),
        final(graph)@ == with_states(old(graph)@, names_view(names@), TuringStateType::Accepting),
        final(graph)@.next_index <= old(graph)@.next_index + names@.len(),
{
    let ghost g0 = graph@;
    let ghost nv = names_view(names@);
    assert(nv.skip(0) =~= nv);
    let mut j: usize = 0;
    while j < names.len()
        invariant
            0 <= j <= names@.len(),
            g0 == old(graph)@,
            nv == names_view(names@),
            graph.wf(),
            graph@.next_index <= g0.next_index + j,
            g0.next_index + names@.len() < usize::MAX,
            with_states(graph@, nv.skip(j as int), TuringStateType::Accepting) == with_states(
                g0,
                nv,
                TuringStateType::Accepting,
            ),
        decreases names.len() - j,
    {
        assert(nv.skip(j as int)[0] == names@[j as int]@);
        assert(nv.skip(j as int).drop_first() =~= nv.skip(j + 1));
        graph.add_state(string_of(&names[j]), TuringStateType::Accepting);
        j = j + 1;
    }
    assert(nv.skip(j as int) =~= Seq::<Seq<char>>::empty());
}

/// The first written transition of the statements, if any.
fn find_first_trans(sts: &Vec<Stmt>) -> (r: Option<&Trans>)
    ensures
        match first_trans(stmts_view(sts@)) {
            Some(tr) => r matches Some(t) && t@ == tr,
            None => r is None,
        },
{
    let ghost sv = stmts_view(sts@);
    assert(sv.skip(0) =~= sv);
    let mut i: usize = 0;
    while i < sts.len()
        invariant
            0 <= i <= sts@.len(),
            sv == stmts_view(sts@),
            first_trans(sv.skip(i as int)) == first_trans(sv),
        decreases sts.len() - i,
    {
        assert(sv.skip(i as int)[0] == sts@[i as int]@);
        assert(sv.skip(i as int).drop_first() =~= sv.skip(i + 1));
        match &sts[i] {
            Stmt::Transitions { alts, .. } => {
                if alts.len() > 0 {
                    assert(alts_view(alts@)[0] == alts@[0]@);
                    return Some(&alts[0]);
                }
            },
            _ => {},
        }
        i = i + 1;
    }
    assert(sv.skip(i as int) =~= Seq::<StmtSyntax>::empty());
    None
}

/// Whether the characters of `v` are those of `s`.
fn vec_eq_string(v: &Vec<char>, s: &String) -> (b: bool)
    ensures
        b == (v@ == s@),
{
    let w = chars_of(s.as_str());
    if v.len() != w.len() {
        return false;
    }
    let mut i: usize = 0;
    while i < v.len()
        invariant
            0 <= i <= v@.len(),
            v@.len() == w@.len(),
            w@ == s@,
            forall|j: int| 0 <= j < i ==> v@[j] == w@[j],
        decreases v.len() - i,
    {
        if v[i] != w[i] {
            return false;
        }
        i = i + 1;
    }
    assert(v@ =~= w@);
    true
}

/// Builds the graph that the statements describe.
fn build_graph<S: TuringState, T: TuringTransition>(sts: &Vec<Stmt>) -> (r: Result<TuringGraph<S, T>, TuringParserError>)
    requires
        stmts_states(stmts_view(sts@)) + 3 < usize::MAX,
    ensures
        match build(stmts_view(sts@)) {
            Ok(g) => r matches Ok(graph) && graph.wf() && graph@ == g,
            Err(e) => r matches Err(pe) && reports_build(pe, e),
        },
{
    let ghost sv = stmts_view(sts@);
    let k: usize = match find_first_trans(sts) {
        None => 1,
        Some(tr) => {
            if tr.reads.len() <= 1 {
                return Err(
                    build_error(
                        tr.line,
                        tr.col,
                        &tr.value,
                        TuringMachineError::GraphError(TuringGraphError::NotEnoughTapesError),
                    ),
                );
            }
            tr.reads.len() - 1
        },
    };
    let mut graph: TuringGraph<S, T> = match TuringGraph::new(k, false) {
        Ok(g) => g,
        Err(_) => {
            return vstd::pervasive::unreached();
        },
    };
    let ghost g0 = graph@;
    assert(g0.states =~= empty_graph(k).states);
    assert(g0 == empty_graph(k));
    assert(sv.skip(0) =~= sv);
    let mut i: usize = 0;
    while i < sts.len()
        invariant
            0 <= i <= sts@.len(),
            sv == stmts_view(sts@),
            stmts_states(sv) + 3 < usize::MAX,
            graph.wf(),
            graph@.next_index + stmts_states(sv.skip(i as int)) <= 1 + stmts_states(sv),
            build(sv) == apply_stmts(g0, sv),
            apply_stmts(graph@, sv.skip(i as int)) == apply_stmts(g0, sv),
        decreases sts.len() - i,
    {
        let ghost g = graph@;
        assert(sv.skip(i as int)[0] == sts@[i as int]@);
        assert(sv.skip(i as int).drop_first() =~= sv.skip(i + 1));
        match &sts[i] {
            Stmt::Initial { name, line, col, value } => {
                let same = match graph.get_state(0usize) {
                    Ok(w) => vec_eq_string(name, w.get_name()),
                    Err(_) => vstd::pervasive::unreached(),
                };
                if same {
                } else {
                    match graph.rename_state(0usize, string_of(name)) {
                        Ok(()) => {},
                        Err(e) => {
                            return Err(build_error(*line, *col, value, TuringMachineError::GraphError(e)));
                        },
                    }
                }
            },
            Stmt::Accepting { names } => {
                add_accepting(&mut graph, names);
            },
            Stmt::Transitions { from, alts, to, .. } => {
                let f = graph.add_state(string_of(from), TuringStateType::Normal);
                let t = graph.add_state(string_of(to), TuringStateType::Normal);
                proof {
                    let (g1, f1) = with_state(g, from@, TuringStateType::Normal);
                    assert(g1.states.contains_key(f1));
                }
                match add_alts(&mut graph, f, t, alts) {
                    Ok(()) => {},
                    Err(e) => {
                        return Err(e);
                    },
                }
            },
        }
        i = i + 1;
    }
    assert(sv.skip(i as int) =~= Seq::<StmtSyntax>::empty());
    Ok(graph)
}

/// Reads a graph written in the text format (see the module documentation).
///
/// Fails with a `ParsingError` at the first place where the text does not follow the format,
/// and otherwise with a `TuringError` at the first statement or transition that cannot be
/// applied to the graph.
pub fn parse_turing_graph_string<S: TuringState, T: TuringTransition>(text: String) -> (res: Result<
    TuringGraph<S, T>,
    TuringParserError,
>)
    requires
        text@.len() + 4 < usize::MAX,
    ensures
        match text_syntax(text@) {
            Err(e) => res matches Err(pe) && reports_syntax(pe, e),
            Ok(sts) => match build(sts) {
                Ok(g) => res matches Ok(graph) && graph.wf() && graph@ == g,
                Err(e) => res matches Err(pe) && reports_build(pe, e),
            },
        },
{
    let chars = chars_of(text.as_str());
    let ts = tokenize(&chars);
    proof {
        lemma_lex_ends(chars@, 0, 1, 1);
        lemma_lex_len(chars@, 0, 1, 1);
        lemma_stmts_states(tokens_view(ts@), 0);
    }
    let sts = read_stmts(&ts, 0)?;
    build_graph(&sts)
}

/// The transitions that written transitions make, in order, or the first that cannot be made.
pub open spec fn created_all(alts: Seq<TransSyntax>) -> Result<Seq<MultModel>, BuildErrorModel>
    decreases alts.len(),
{
    if alts.len() == 0 {
        Ok(Seq::empty())
    } else {
        match created(alts[0]) {
            Err(f) => Err(failure_at(alts[0], f)),
            Ok(m) => match created_all(alts.drop_first()) {
                Ok(ms) => Ok(seq![m] + ms),
                Err(e) => Err(e),
            },
        }
    }
}

/// Reads a single `q_from { ... } q_to`, with nothing after it: the names of the two states
/// and the transitions, in order.
///
/// Fails with a `ParsingError` where the text does not follow the format, and otherwise with
/// a `TuringError` at the first transition that cannot be made.
pub fn parse_transition_string(text: String) -> (res: Result<
    (String, Vec<TransitionMultRibbonInfo>, String),
    TuringParserError,
>)
    requires
        text@.len() + 4 < usize::MAX,
    ensures
        match transition_syntax(text@) {
            Err(e) => res matches Err(pe) && reports_syntax(pe, e),
            Ok((from, alts, to)) => match created_all(alts) {
                Ok(ms) => res matches Ok((f, v, t)) && f@ == from && t@ == to && v@.map_values(
                    |m: TransitionMultRibbonInfo| m@,
                ) == ms,
                Err(e) => res matches Err(pe) && reports_build(pe, e),
            },
        },
{
    let chars = chars_of(text.as_str());
    let ts = tokenize(&chars);
    proof {
        lemma_lex_ends(chars@, 0, 1, 1);
    }
    let (from, j) = read_state(&ts, 0)?;
    let j1 = read_token(&ts, j, TokenKind::Open, single('{'))?;
    let (alts, j2) = read_alts(&ts, j1)?;
    let j3 = read_token(&ts, j2, TokenKind::Close, single('}'))?;
    let (to, j4) = read_state(&ts, j3)?;
    assert(tokens_view(ts@)[j4 as int] == ts@[j4 as int]@);
    if ts[j4].kind != TokenKind::End {
        return Err(syntax_error(&ts[j4], None));
    }
    let ghost av = alts_view(alts@);
    assert(av.skip(0) =~= av);
    let mut infos: Vec<TransitionMultRibbonInfo> = Vec::new();
    let mut i: usize = 0;
    while i < alts.len()
        invariant
            0 <= i <= alts@.len(),
            av == alts_view(alts@),
            transition_syntax(text@) == Ok::<(Seq<char>, Seq<TransSyntax>, Seq<char>), SyntaxErrorModel>((from@, av, to@)),
            match created_all(av) {
                Ok(ms) => created_all(av.skip(i as int)) matches Ok(rest) && ms == infos@.map_values(
                    |m: TransitionMultRibbonInfo| m@,
                ) + rest,
                Err(e) => created_all(av.skip(i as int)) == Err::<Seq<MultModel>, BuildErrorModel>(e),
            },
        decreases alts.len() - i,
    {
        let tr = &alts[i];
        assert(av.skip(i as int)[0] == tr@);
        assert(av.skip(i as int).drop_first() =~= av.skip(i + 1));
        let ghost before = infos@.map_values(|m: TransitionMultRibbonInfo| m@);
        match TransitionMultRibbonInfo::create(copy_chars(&tr.reads), copy_chars(&tr.writes), copy_dirs(&tr.dirs)) {
            Ok(m) => {
                infos.push(m);
                assert(infos@.map_values(|m: TransitionMultRibbonInfo| m@) =~= before.push(m@));
                proof {
                    if let Ok(ms) = created_all(av) {
                        let rest = created_all(av.skip(i + 1))->Ok_0;
                        assert(ms =~= before.push(m@) + rest);
                    }
                }
            },
            Err(e) => {
                return Err(build_error(tr.line, tr.col, &tr.value, TuringMachineError::TransitionError(e)));
            },
        }
        i = i + 1;
    }
    assert(av.skip(i as int) =~= Seq::<TransSyntax>::empty());
    proof {
        if let Ok(ms) = created_all(av) {
            assert(ms =~= infos@.map_values(|m: TransitionMultRibbonInfo| m@));
        }
    }
    Ok((string_of(&from), infos, string_of(&to)))
}

/// How a state is written: `q_` followed by its name.
pub open spec fn state_text(name: Seq<char>) -> Seq<char> {
    "q_"@ + name
}

/// The texts of transitions, separated by ` | `.
pub open spec fn alts_text(infos: Seq<InfoModel>) -> Seq<char>
    decreases infos.len(),
{
    if infos.len() == 0 {
        Seq::empty()
    } else if infos.len() == 1 {
        info_text(infos[0])
    } else {
        alts_text(infos.drop_last()) + " | "@ + info_text(infos.last())
    }
}

/// The statement of the transitions between two states: `q_from {...} q_to;` on a line.
pub open spec fn edge_text(g: GraphModel, e: EdgeModel) -> Seq<char> {
    state_text(g.states[e.from].name) + " {"@ + alts_text(e.infos) + "} "@ + state_text(
        g.states[e.to].name,
    ) + ";\n"@
}

/// The statements of the transitions between pairs of states, in order.
pub open spec fn edges_text(g: GraphModel, es: Seq<EdgeModel>) -> Seq<char>
    decreases es.len(),
{
    if es.len() == 0 {
        Seq::empty()
    } else {
        edges_text(g, es.drop_last()) + edge_text(g, es.last())
    }
}

/// The statements `accepting = q_name;` of the accepting states with an id below `n`, by
/// increasing id.
pub open spec fn accepting_text(g: GraphModel, n: nat) -> Seq<char>
    decreases n,
{
    if n == 0 {
        Seq::empty()
    } else {
        let id = (n - 1) as usize;
        accepting_text(g, (n - 1) as nat) + if g.states.contains_key(id) && g.states[id].state_type
            == TuringStateType::Accepting {
            "accepting = "@ + state_text(g.states[id].name) + ";\n"@
        } else {
            Seq::empty()
        }
    }
}

/// The text of a graph: the statement naming the initial state, those of the accepting
/// states, then those of the transitions.
pub open spec fn graph_text(g: GraphModel) -> Seq<char> {
    "initial = "@ + state_text(g.states[0].name) + ";\n"@ + accepting_text(g, g.next_index as nat)
        + edges_text(g, g.edges)
}

/// Ids in `[a, b)` that are no state do not change the accepting statements.
proof fn lemma_accepting_gap(g: GraphModel, a: nat, b: nat)
    requires
        a <= b <= usize::MAX,
        forall|id: usize| a <= id < b ==> !#[trigger] g.states.contains_key(id),
    ensures
        accepting_text(g, b) == accepting_text(g, a),
    decreases b,
{
    if b > a {
        lemma_accepting_gap(g, a, (b - 1) as nat);
        assert(!g.states.contains_key((b - 1) as usize));
        assert(accepting_text(g, b) =~= accepting_text(g, (b - 1) as nat));
    }
}

/// Appends `q_name` to `s`.
fn push_state(s: &mut String, name: &String)
    ensures
        final(s)@ == old(s)@ + state_text(name@),
{
    let ghost s0 = s@;
    push_text(s, "q_");
    push_text(s, name.as_str());
    assert(s@ =~= s0 + state_text(name@));
}

/// Appends the texts of `transitions`, separated by ` | `, to `s`.
fn push_alts<T: TuringTransition>(s: &mut String, transitions: &Vec<TuringTransitionWrapper<T>>)
    ensures
        final(s)@ == old(s)@ + alts_text(transitions@.map_values(|t: TuringTransitionWrapper<T>| t.info@)),
{
    let ghost s0 = s@;
    let ghost infos = transitions@.map_values(|t: TuringTransitionWrapper<T>| t.info@);
    let mut i: usize = 0;
    while i < transitions.len()
        invariant
            0 <= i <= transitions@.len(),
            infos == transitions@.map_values(|t: TuringTransitionWrapper<T>| t.info@),
            s@ == s0 + alts_text(infos.take(i as int)),
        decreases transitions.len() - i,
    {
        let ghost before = s@;
        if i > 0 {
            push_text(s, " | ");
        }
        transitions[i].info.push_text_to(s);
        i = i + 1;
        proof {
            let t = infos.take(i as int);
            assert(t.drop_last() =~= infos.take(i - 1));
            assert(t.last() == transitions@[i - 1].info@);
            if i == 1 {
                assert(infos.take(0) =~= Seq::<InfoModel>::empty());
            }
            assert(s@ =~= s0 + alts_text(t));
        }
    }
    assert(infos.take(i as int) =~= infos);
}

/// Appends the statement of the transitions of `e` to `s`.
fn push_edge<S: TuringState, T: TuringTransition>(s: &mut String, graph: &TuringGraph<S, T>, e: &TransitionEdge<T>)
    requires
        graph.wf(),
        graph@.states.contains_key(e@.from),
        graph@.states.contains_key(e@.to),
    ensures
        final(s)@ == old(s)@ + edge_text(graph@, e@),
{
    let ghost s0 = s@;
    let from = match graph.get_state(e.get_from()) {
        Ok(w) => w,
        Err(_) => {
            return vstd::pervasive::unreached();
        },
    };
    let to = match graph.get_state(e.get_to()) {
        Ok(w) => w,
        Err(_) => {
            return vstd::pervasive::unreached();
        },
    };
    push_state(s, from.get_name());
    push_text(s, " {");
    push_alts(s, e.get_transitions());
    push_text(s, "} ");
    push_state(s, to.get_name());
    push_text(s, ";\n");
    assert(s@ =~= s0 + edge_text(graph@, e@));
}

/// Writes a graph in the text format (see the module documentation): the statement naming
/// the initial state, one statement per accepting state, by increasing id, and one statement
/// per pair of linked states, in the order the pairs were first linked.
pub fn graph_to_string<S: TuringState, T: TuringTransition>(graph: &TuringGraph<S, T>) -> (s: String)
    requires
        graph.wf(),
    ensures
        s@ == graph_text(graph@),
{
    let ghost g = graph@;
    let mut s = String::new();
    push_text(&mut s, "initial = ");
    match graph.get_state(0usize) {
        Ok(w) => push_state(&mut s, w.get_name()),
        Err(_) => {
            return vstd::pervasive::unreached();
        },
    }
    push_text(&mut s, ";\n");
    let ghost head = s@;
    let states = graph.get_states();
    let bound: usize = if states.len() == 0 {
        0
    } else {
        states[states.len() - 1].get_id() + 1
    };
    proof {
        assert forall|id: usize| bound <= id < g.next_index implies !#[trigger] g.states.contains_key(id) by {
            if g.states.contains_key(id) {
                let i = choose|i: int| 0 <= i < states@.len() && states@[i]@.id == id;
                if i < states@.len() - 1 {
                    assert(states@[i]@.id < states@[states@.len() - 1]@.id);
                }
            }
        }
        if states@.len() > 0 {
            assert(g.states.contains_key(states@[states@.len() - 1]@.id));
        }
        lemma_accepting_gap(g, bound as nat, g.next_index as nat);
    }
    let mut id: usize = 0;
    while id < bound
        invariant
            graph.wf(),
            g == graph@,
            0 <= id <= bound <= g.next_index,
            s@ == head + accepting_text(g, id as nat),
        decreases bound - id,
    {
        match graph.get_state(id) {
            Ok(w) => {
                if *w.get_type() == TuringStateType::Accepting {
                    push_text(&mut s, "accepting = ");
                    push_state(&mut s, w.get_name());
                    push_text(&mut s, ";\n");
                }
            },
            Err(_) => {},
        }
        id = id + 1;
        assert(s@ =~= head + accepting_text(g, id as nat));
    }
    let ghost mid = s@;
    let edges = graph.get_edges();
    let ghost es = edges@.map_values(|e: TransitionEdge<T>| e@);
    let mut i: usize = 0;
    while i < edges.len()
        invariant
            graph.wf(),
            g == graph@,
            es == edges@.map_values(|e: TransitionEdge<T>| e@),
            es == g.edges,
            0 <= i <= edges@.len(),
            s@ == mid + edges_text(g, es.take(i as int)),
        decreases edges.len() - i,
    {
        let e = &edges[i];
        assert(es[i as int] == e@);
        assert(g.edge_wf(g.edges[i as int]));
        push_edge(&mut s, graph, e);
        i = i + 1;
        proof {
            let t = es.take(i as int);
            assert(t.drop_last() =~= es.take(i - 1));
            assert(s@ =~= mid + edges_text(g, t));
        }
    }
    assert(es.take(i as int) =~= es);
    s
}

} // verus!
