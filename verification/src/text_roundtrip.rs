//! The text that [`graph_to_string`](crate::turing_parser::graph_to_string) writes reads back
//! as the graph it was written from, for graphs whose names and symbols can be written.
use vstd::prelude::*;

use crate::text::char_at;
use crate::turing_graph::{EdgeModel, GraphModel, StateModel, TuringStateType, init_state_name};
use crate::turing_parser::{
    apply_stmt, apply_stmts, appended, build, created, empty_graph, first_trans, with_alts,
    with_state, with_states, text_syntax, StmtSyntax, TokenKind, TokenModel, TransSyntax, alts_from, at, direction_at, direction_of,
    expect, is_state_word, names_from, state_at, state_name, stmt_at, stmts_from, symbol_at,
    symbols_from, tail_from, trans_from, accepting_text, accepting_word, alts_text, edge_text, edges_text,
    graph_text, initial_word, is_blank, is_punct, lex, lex_from, punct_kind, starts_arrow,
    starts_comment, state_text, word_end, word_stops, line_end, lemma_line_end, lemma_word_end,
};
use crate::turing_transition::{
    InfoModel, MultModel, TuringDirection, info_text, mult_args_bad, mult_built, mult_illegal,
    mult_text, mult_valid, pairs_text, reads_text,
};

verus! {

/// A character that can stand in a word.
pub open spec fn word_char(c: char) -> bool {
    !is_blank(c) && c != '\n' && !is_punct(c)
}

/// A character that ends a word standing before it.
pub open spec fn stop_char(c: char) -> bool {
    is_blank(c) || c == '\n' || is_punct(c)
}

/// A non-empty run of word characters with no `->` nor `//` inside: it reads as one word.
pub open spec fn word_ok(w: Seq<char>) -> bool {
    &&& w.len() > 0
    &&& forall|j: int| 0 <= j < w.len() ==> word_char(#[trigger] w[j])
    &&& forall|j: int|
        0 <= j < w.len() - 1 ==> !(#[trigger] w[j] == '-' && w[j + 1] == '>') && !(w[j] == '/'
            && w[j + 1] == '/')
}

/// The kinds and characters of tokens, without their positions.
pub open spec fn kt(ts: Seq<TokenModel>) -> Seq<(TokenKind, Seq<char>)> {
    ts.map_values(|t: TokenModel| (t.kind, t.text))
}

/// The kinds and characters of the tokens of `s` from position `i` on.
pub open spec fn lexk(s: Seq<char>, i: int) -> Seq<(TokenKind, Seq<char>)> {
    kt(lex_from(s, i, 1, 1))
}

proof fn lemma_kt_prepend(t: TokenModel, ts: Seq<TokenModel>)
    ensures
        kt(seq![t] + ts) == seq![(t.kind, t.text)] + kt(ts),
{
    assert(kt(seq![t] + ts) =~= seq![(t.kind, t.text)] + kt(ts));
}

/// Where a text is lexed from does not change the kinds and characters of its tokens.
proof fn lemma_lex_positions(s: Seq<char>, i: int, l1: usize, c1: usize, l2: usize, c2: usize)
    requires
        0 <= i <= s.len(),
    ensures
        kt(lex_from(s, i, l1, c1)) == kt(lex_from(s, i, l2, c2)),
    decreases s.len() - i,
{
    if i >= s.len() {
        assert(kt(lex_from(s, i, l1, c1)) =~= kt(lex_from(s, i, l2, c2)));
    } else if s[i] == '\n' {
        lemma_lex_positions(s, i + 1, (l1 + 1) as usize, 1, (l2 + 1) as usize, 1);
    } else if is_blank(s[i]) {
        lemma_lex_positions(s, i + 1, l1, (c1 + 1) as usize, l2, (c2 + 1) as usize);
    } else if starts_comment(s, i) {
        let j = line_end(s, i);
        lemma_line_end(s, i);
        if j > i {
            lemma_lex_positions(s, j, l1, (c1 + (j - i)) as usize, l2, (c2 + (j - i)) as usize);
        }
    } else if starts_arrow(s, i) {
        lemma_lex_positions(s, i + 2, l1, (c1 + 2) as usize, l2, (c2 + 2) as usize);
        lemma_kt_prepend(TokenModel { kind: TokenKind::Arrow, text: seq!['-', '>'], line: l1, col: c1 }, lex_from(s, i + 2, l1, (c1 + 2) as usize));
        lemma_kt_prepend(TokenModel { kind: TokenKind::Arrow, text: seq!['-', '>'], line: l2, col: c2 }, lex_from(s, i + 2, l2, (c2 + 2) as usize));
    } else if is_punct(s[i]) {
        lemma_lex_positions(s, i + 1, l1, (c1 + 1) as usize, l2, (c2 + 1) as usize);
        lemma_kt_prepend(TokenModel { kind: punct_kind(s[i]), text: seq![s[i]], line: l1, col: c1 }, lex_from(s, i + 1, l1, (c1 + 1) as usize));
        lemma_kt_prepend(TokenModel { kind: punct_kind(s[i]), text: seq![s[i]], line: l2, col: c2 }, lex_from(s, i + 1, l2, (c2 + 1) as usize));
    } else {
        let j = word_end(s, i + 1);
        lemma_word_end(s, i + 1);
        if j > i {
            lemma_lex_positions(s, j, l1, (c1 + (j - i)) as usize, l2, (c2 + (j - i)) as usize);
            lemma_kt_prepend(TokenModel { kind: TokenKind::Word, text: s.subrange(i, j), line: l1, col: c1 }, lex_from(s, j, l1, (c1 + (j - i)) as usize));
            lemma_kt_prepend(TokenModel { kind: TokenKind::Word, text: s.subrange(i, j), line: l2, col: c2 }, lex_from(s, j, l2, (c2 + (j - i)) as usize));
        }
    }
}

/// A blank or a line end is skipped.
pub proof fn lemma_lex_blank(s: Seq<char>, i: int)
    requires
        0 <= i < s.len(),
        is_blank(s[i]) || s[i] == '\n',
    ensures
        lexk(s, i) == lexk(s, i + 1),
{
    if s[i] == '\n' {
        lemma_lex_positions(s, i + 1, 2, 1, 1, 1);
    } else {
        lemma_lex_positions(s, i + 1, 1, 2, 1, 1);
    }
}

/// A punctuation character is a token by itself.
pub proof fn lemma_lex_punct(s: Seq<char>, i: int)
    requires
        0 <= i < s.len(),
        is_punct(s[i]),
    ensures
        lexk(s, i) == seq![(punct_kind(s[i]), seq![s[i]])] + lexk(s, i + 1),
{
    lemma_lex_positions(s, i + 1, 1, 2, 1, 1);
    lemma_kt_prepend(TokenModel { kind: punct_kind(s[i]), text: seq![s[i]], line: 1, col: 1 }, lex_from(s, i + 1, 1, 2));
}

/// An arrow is a token.
pub proof fn lemma_lex_arrow(s: Seq<char>, i: int)
    requires
        0 <= i,
        starts_arrow(s, i),
    ensures
        lexk(s, i) == seq![(TokenKind::Arrow, seq!['-', '>'])] + lexk(s, i + 2),
{
    lemma_lex_positions(s, i + 2, 1, 3, 1, 1);
    lemma_kt_prepend(TokenModel { kind: TokenKind::Arrow, text: seq!['-', '>'], line: 1, col: 1 }, lex_from(s, i + 2, 1, 3));
}

proof fn lemma_word_end_at(s: Seq<char>, a: int, b: int)
    requires
        0 <= a <= b,
        forall|m: int| a <= m < b ==> !word_stops(s, m),
        word_stops(s, b),
    ensures
        word_end(s, a) == b,
    decreases b - a,
{
    if a < b {
        lemma_word_end_at(s, a + 1, b);
    }
}

/// A word followed by a character that ends it (or by the end of the text) is a token.
pub proof fn lemma_lex_word(s: Seq<char>, i: int, w: Seq<char>)
    requires
        0 <= i,
        i + w.len() <= s.len(),
        s.subrange(i, i + w.len()) == w,
        word_ok(w),
        i + w.len() == s.len() || stop_char(s[i + w.len()]),
    ensures
        lexk(s, i) == seq![(TokenKind::Word, w)] + lexk(s, i + w.len()),
{
    let e = i + w.len();
    assert(s[i] == w[0]);
    assert(word_char(w[0]));
    assert forall|m: int| i + 1 <= m < e implies !word_stops(s, m) by {
        assert(s[m] == w[m - i]);
        assert(word_char(w[m - i]));
        if m + 1 < e {
            assert(s[m + 1] == w[m - i + 1]);
            assert(!(w[m - i] == '-' && w[m - i + 1] == '>'));
        }
    }
    if e < s.len() {
        assert(stop_char(s[e]));
    }
    lemma_word_end_at(s, i + 1, e);
    assert(!starts_comment(s, i)) by {
        if w.len() >= 2 {
            assert(s[i + 1] == w[1]);
            assert(!(w[0] == '/' && w[1] == '/'));
        }
    }
    assert(!starts_arrow(s, i)) by {
        if w.len() >= 2 {
            assert(s[i + 1] == w[1]);
            assert(!(w[0] == '-' && w[1] == '>'));
        }
    }
    assert(s.subrange(i, e) == w);
    lemma_lex_positions(s, e, 1, (1 + w.len()) as usize, 1, 1);
    lemma_kt_prepend(TokenModel { kind: TokenKind::Word, text: w, line: 1, col: 1 }, lex_from(s, e, 1, (1 + w.len()) as usize));
}

/// The two parts of a text found at `i` are found one after the other.
proof fn lemma_sub_split(s: Seq<char>, i: int, a: Seq<char>, b: Seq<char>)
    requires
        0 <= i,
        i + a.len() + b.len() <= s.len(),
        s.subrange(i, i + a.len() + b.len()) == a + b,
    ensures
        s.subrange(i, i + a.len()) == a,
        s.subrange(i + a.len(), i + a.len() + b.len()) == b,
{
    assert(s.subrange(i, i + a.len()) =~= a) by {
        assert forall|k: int| 0 <= k < a.len() implies s.subrange(i, i + a.len())[k] == a[k] by {
            assert(s.subrange(i, i + a.len() + b.len())[k] == (a + b)[k]);
        }
    }
    assert(s.subrange(i + a.len(), i + a.len() + b.len()) =~= b) by {
        assert forall|k: int| 0 <= k < b.len() implies s.subrange(i + a.len(), i + a.len() + b.len())[k] == b[k] by {
            assert(s.subrange(i, i + a.len() + b.len())[a.len() + k] == (a + b)[a.len() + k]);
            assert(s.subrange(i, i + a.len() + b.len())[a.len() + k] == s[i + a.len() + k]);
            assert(s.subrange(i + a.len(), i + a.len() + b.len())[k] == s[i + a.len() + k]);
            assert((a + b)[a.len() + k] == b[k]);
        }
    }
}

/// The tokens of characters separated by commas: a word for each, and a comma between two.
pub open spec fn reads_toks(cs: Seq<char>) -> Seq<(TokenKind, Seq<char>)> {
    Seq::new(
        (2 * cs.len() - 1) as nat,
        |k: int|
            if k % 2 == 0 {
                (TokenKind::Word, seq![char_at(cs, k / 2)])
            } else {
                (TokenKind::Comma, seq![','])
            },
    )
}

/// The tokens of the pairs `, b, D` that end a transition.
pub open spec fn pairs_toks(ps: Seq<(char, TuringDirection)>) -> Seq<(TokenKind, Seq<char>)> {
    Seq::new(
        4 * ps.len(),
        |k: int|
            if k % 4 == 1 {
                (TokenKind::Word, seq![ps[k / 4].0])
            } else if k % 4 == 3 {
                (TokenKind::Word, seq![ps[k / 4].1.letter()])
            } else {
                (TokenKind::Comma, seq![','])
            },
    )
}

/// The tokens of a transition.
pub open spec fn mult_toks(t: MultModel) -> Seq<(TokenKind, Seq<char>)> {
    reads_toks(t.chars_read) + seq![
        (TokenKind::Arrow, seq!['-', '>']),
        (TokenKind::Word, seq![t.move_read.letter()]),
    ] + pairs_toks(t.chars_write)
}

/// A transition whose characters can be written: each reads and writes word characters.
pub open spec fn mult_ok(t: MultModel) -> bool {
    &&& t.chars_read.len() > 0
    &&& forall|j: int| 0 <= j < t.chars_read.len() ==> word_char(#[trigger] t.chars_read[j])
    &&& forall|j: int| 0 <= j < t.chars_write.len() ==> word_char(#[trigger] t.chars_write[j].0)
}

proof fn lemma_word_single(c: char)
    requires
        word_char(c),
    ensures
        word_ok(seq![c]),
{
}

proof fn lemma_letter_word(d: TuringDirection)
    ensures
        word_char(d.letter()),
        word_ok(seq![d.letter()]),
{
}

/// Characters separated by commas read as their words and commas.
proof fn lemma_lex_reads(s: Seq<char>, i: int, cs: Seq<char>)
    requires
        0 <= i,
        cs.len() > 0,
        forall|j: int| 0 <= j < cs.len() ==> word_char(#[trigger] cs[j]),
        i + reads_text(cs).len() <= s.len(),
        s.subrange(i, i + reads_text(cs).len()) == reads_text(cs),
        i + reads_text(cs).len() == s.len() || stop_char(s[i + reads_text(cs).len()]),
    ensures
        reads_text(cs).len() == 3 * cs.len() - 2,
        lexk(s, i) == reads_toks(cs) + lexk(s, i + reads_text(cs).len()),
    decreases cs.len(),
{
    if cs.len() == 1 {
        assert(reads_text(cs) == seq![char_at(cs, 0)]);
        lemma_word_single(cs[0]);
        lemma_lex_word(s, i, seq![cs[0]]);
        assert(reads_toks(cs) =~= seq![(TokenKind::Word, seq![cs[0]])]);
    } else {
        let init = cs.drop_last();
        let c = cs.last();
        let tail = seq![',', ' ', char_at(cs, cs.len() - 1)];
        assert(reads_text(cs) == reads_text(init) + tail);
        lemma_sub_split(s, i, reads_text(init), tail);
        assert(forall|j: int| 0 <= j < init.len() ==> word_char(#[trigger] init[j]) == word_char(cs[j]));
        let p = i + reads_text(init).len();
        assert(s[p] == ',') by {
            assert(s.subrange(p, p + 3)[0] == tail[0]);
        }
        lemma_lex_reads(s, i, init);
        assert(s[p + 1] == ' ') by {
            assert(s.subrange(p, p + 3)[1] == tail[1]);
        }
        assert(s[p + 2] == c) by {
            assert(s.subrange(p, p + 3)[2] == tail[2]);
        }
        lemma_lex_punct(s, p);
        lemma_lex_blank(s, p + 1);
        assert(s.subrange(p + 2, p + 3) =~= seq![c]);
        lemma_word_single(c);
        lemma_lex_word(s, p + 2, seq![c]);
        assert(reads_toks(cs) =~= reads_toks(init) + seq![(TokenKind::Comma, seq![',']), (TokenKind::Word, seq![c])]);
    }
}

/// The pairs `, b, D` read as commas and words.
proof fn lemma_lex_pairs(s: Seq<char>, i: int, ps: Seq<(char, TuringDirection)>)
    requires
        0 <= i,
        forall|j: int| 0 <= j < ps.len() ==> word_char(#[trigger] ps[j].0),
        i + pairs_text(ps).len() <= s.len(),
        s.subrange(i, i + pairs_text(ps).len()) == pairs_text(ps),
        ps.len() > 0 ==> (i + pairs_text(ps).len() == s.len() || stop_char(s[i + pairs_text(ps).len()])),
    ensures
        pairs_text(ps).len() == 6 * ps.len(),
        lexk(s, i) == pairs_toks(ps) + lexk(s, i + pairs_text(ps).len()),
    decreases ps.len(),
{
    if ps.len() == 0 {
        assert(pairs_toks(ps) =~= Seq::<(TokenKind, Seq<char>)>::empty());
    } else {
        let init = ps.drop_last();
        let b = ps.last().0;
        let d = ps.last().1.letter();
        let tail = seq![',', ' ', b, ',', ' ', d];
        assert(pairs_text(ps) == pairs_text(init) + tail);
        lemma_sub_split(s, i, pairs_text(init), tail);
        assert(forall|j: int| 0 <= j < init.len() ==> (#[trigger] init[j]).0 == ps[j].0);
        let p = i + pairs_text(init).len();
        assert(s[p] == ',') by {
            assert(s.subrange(p, p + 6)[0] == tail[0]);
        }
        lemma_lex_pairs(s, i, init);
        assert(s[p + 1] == ' ') by {
            assert(s.subrange(p, p + 6)[1] == tail[1]);
        }
        assert(s[p + 2] == b) by {
            assert(s.subrange(p, p + 6)[2] == tail[2]);
        }
        assert(s[p + 3] == ',') by {
            assert(s.subrange(p, p + 6)[3] == tail[3]);
        }
        assert(s[p + 4] == ' ') by {
            assert(s.subrange(p, p + 6)[4] == tail[4]);
        }
        assert(s[p + 5] == d) by {
            assert(s.subrange(p, p + 6)[5] == tail[5]);
        }
        lemma_lex_punct(s, p);
        lemma_lex_blank(s, p + 1);
        assert(s.subrange(p + 2, p + 3) =~= seq![b]);
        lemma_word_single(b);
        lemma_lex_word(s, p + 2, seq![b]);
        lemma_lex_punct(s, p + 3);
        lemma_lex_blank(s, p + 4);
        assert(s.subrange(p + 5, p + 6) =~= seq![d]);
        lemma_letter_word(ps.last().1);
        lemma_lex_word(s, p + 5, seq![d]);
        assert(pairs_toks(ps) =~= pairs_toks(init) + seq![
            (TokenKind::Comma, seq![',']),
            (TokenKind::Word, seq![b]),
            (TokenKind::Comma, seq![',']),
            (TokenKind::Word, seq![d]),
        ]);
    }
}

proof fn lemma_pairs_first(ps: Seq<(char, TuringDirection)>)
    requires
        ps.len() > 0,
    ensures
        pairs_text(ps).len() > 0,
        pairs_text(ps)[0] == ',',
    decreases ps.len(),
{
    if ps.len() > 1 {
        lemma_pairs_first(ps.drop_last());
    } else {
        assert(pairs_text(ps.drop_last()) =~= Seq::<char>::empty());
    }
}

/// A transition reads as the words of its characters and directions, commas and an arrow.
proof fn lemma_lex_mult(s: Seq<char>, i: int, t: MultModel)
    requires
        0 <= i,
        mult_ok(t),
        i + mult_text(t).len() <= s.len(),
        s.subrange(i, i + mult_text(t).len()) == mult_text(t),
        i + mult_text(t).len() == s.len() || stop_char(s[i + mult_text(t).len()]),
    ensures
        lexk(s, i) == mult_toks(t) + lexk(s, i + mult_text(t).len()),
{
    let r = reads_text(t.chars_read);
    let mid = seq![' ', '-', '>', ' ', t.move_read.letter()];
    let pt = pairs_text(t.chars_write);
    assert(mult_text(t) == r + mid + pt);
    lemma_sub_split(s, i, r + mid, pt);
    lemma_sub_split(s, i, r, mid);
    let p = i + r.len();
    assert(s[p] == ' ') by {
        assert(s.subrange(p, p + 5)[0] == mid[0]);
    }
    lemma_lex_reads(s, i, t.chars_read);
    assert(s[p + 1] == '-' && s[p + 2] == '>') by {
        assert(s.subrange(p, p + 5)[1] == mid[1]);
        assert(s.subrange(p, p + 5)[2] == mid[2]);
    }
    assert(s[p + 3] == ' ') by {
        assert(s.subrange(p, p + 5)[3] == mid[3]);
    }
    assert(s[p + 4] == t.move_read.letter()) by {
        assert(s.subrange(p, p + 5)[4] == mid[4]);
    }
    lemma_lex_blank(s, p);
    lemma_lex_arrow(s, p + 1);
    lemma_lex_blank(s, p + 3);
    assert(s.subrange(p + 4, p + 5) =~= seq![t.move_read.letter()]);
    lemma_letter_word(t.move_read);
    let q = p + 5;
    if t.chars_write.len() > 0 {
        lemma_pairs_first(t.chars_write);
        assert(s[q] == ',') by {
            assert(s.subrange(q, q + pt.len())[0] == pt[0]);
        }
    }
    lemma_lex_word(s, p + 4, seq![t.move_read.letter()]);
    lemma_lex_pairs(s, q, t.chars_write);
    assert(mult_toks(t) =~= reads_toks(t.chars_read) + seq![(TokenKind::Arrow, seq!['-', '>'])]
        + seq![(TokenKind::Word, seq![t.move_read.letter()])] + pairs_toks(t.chars_write));
}

/// The tokens of the information of a transition.
pub open spec fn info_toks(i: InfoModel) -> Seq<(TokenKind, Seq<char>)> {
    match i {
        InfoModel::MultipleTapes(t) => mult_toks(t),
        InfoModel::OneTape(_) => Seq::empty(),
    }
}

/// The tokens of transitions separated by `|`.
pub open spec fn alts_toks(infos: Seq<InfoModel>) -> Seq<(TokenKind, Seq<char>)>
    decreases infos.len(),
{
    if infos.len() == 0 {
        Seq::empty()
    } else if infos.len() == 1 {
        info_toks(infos[0])
    } else {
        alts_toks(infos.drop_last()) + seq![(TokenKind::Bar, seq!['|'])] + info_toks(infos.last())
    }
}

/// The tokens of the statement of the transitions between two states.
pub open spec fn edge_toks(g: GraphModel, e: EdgeModel) -> Seq<(TokenKind, Seq<char>)> {
    seq![(TokenKind::Word, state_text(g.states[e.from].name)), (TokenKind::Open, seq!['{'])]
        + alts_toks(e.infos) + seq![
        (TokenKind::Close, seq!['}']),
        (TokenKind::Word, state_text(g.states[e.to].name)),
        (TokenKind::Semi, seq![';']),
    ]
}

/// The tokens of the statements of the transitions between pairs of states.
pub open spec fn edges_toks(g: GraphModel, es: Seq<EdgeModel>) -> Seq<(TokenKind, Seq<char>)>
    decreases es.len(),
{
    if es.len() == 0 {
        Seq::empty()
    } else {
        edges_toks(g, es.drop_last()) + edge_toks(g, es.last())
    }
}

/// The tokens of a statement `keyword = q_name;`.
pub open spec fn named_toks(keyword: Seq<char>, name: Seq<char>) -> Seq<(TokenKind, Seq<char>)> {
    seq![
        (TokenKind::Word, keyword),
        (TokenKind::Equal, seq!['=']),
        (TokenKind::Word, state_text(name)),
        (TokenKind::Semi, seq![';']),
    ]
}

/// The tokens of the statements of the accepting states with an id below `n`.
pub open spec fn accepting_toks(g: GraphModel, n: nat) -> Seq<(TokenKind, Seq<char>)>
    decreases n,
{
    if n == 0 {
        Seq::empty()
    } else {
        let id = (n - 1) as usize;
        accepting_toks(g, (n - 1) as nat) + if g.states.contains_key(id) && g.states[id].state_type
            == TuringStateType::Accepting {
            named_toks(accepting_word(), g.states[id].name)
        } else {
            Seq::empty()
        }
    }
}

/// The tokens of the text of a graph.
pub open spec fn graph_toks(g: GraphModel) -> Seq<(TokenKind, Seq<char>)> {
    named_toks(initial_word(), g.states[0].name) + accepting_toks(g, g.next_index as nat) + edges_toks(
        g,
        g.edges,
    )
}

/// A graph whose text can be read back: valid, its states' names read as words after `q_`,
/// and its transitions read and write word characters.
pub open spec fn printable(g: GraphModel) -> bool {
    &&& g.wf()
    &&& forall|id: usize| #[trigger] g.states.contains_key(id) ==> name_ok(g.states[id].name)
    &&& forall|i: int, j: int|
        0 <= i < g.edges.len() && 0 <= j < g.edges[i].infos.len() ==> mult_ok(
            (#[trigger] g.edges[i].infos[j])->MultipleTapes_0,
        )
}

/// Transitions separated by ` | ` read as their tokens and bars.
proof fn lemma_lex_alts(s: Seq<char>, i: int, infos: Seq<InfoModel>)
    requires
        0 <= i,
        forall|j: int| 0 <= j < infos.len() ==> (#[trigger] infos[j]) is MultipleTapes && mult_ok(
            infos[j]->MultipleTapes_0,
        ),
        i + alts_text(infos).len() <= s.len(),
        s.subrange(i, i + alts_text(infos).len()) == alts_text(infos),
        infos.len() > 0 ==> (i + alts_text(infos).len() == s.len() || stop_char(s[i + alts_text(infos).len()])),
    ensures
        lexk(s, i) == alts_toks(infos) + lexk(s, i + alts_text(infos).len()),
    decreases infos.len(),
{
    if infos.len() == 0 {
    } else if infos.len() == 1 {
        lemma_lex_mult(s, i, infos[0]->MultipleTapes_0);
    } else {
        reveal_strlit(" | ");
        let init = infos.drop_last();
        let last = infos.last();
        let bar = seq![' ', '|', ' '];
        assert(" | "@ == bar);
        assert(alts_text(infos) == alts_text(init) + bar + info_text(last));
        lemma_sub_split(s, i, alts_text(init) + bar, info_text(last));
        lemma_sub_split(s, i, alts_text(init), bar);
        assert(forall|j: int| 0 <= j < init.len() ==> #[trigger] init[j] == infos[j]);
        let p = i + alts_text(init).len();
        assert(s[p] == ' ' && s[p + 1] == '|' && s[p + 2] == ' ') by {
            assert(s.subrange(p, p + 3)[0] == bar[0]);
            assert(s.subrange(p, p + 3)[1] == bar[1]);
            assert(s.subrange(p, p + 3)[2] == bar[2]);
        }
        lemma_lex_alts(s, i, init);
        lemma_lex_blank(s, p);
        lemma_lex_punct(s, p + 1);
        lemma_lex_blank(s, p + 2);
        lemma_lex_mult(s, p + 3, last->MultipleTapes_0);
        assert(alts_toks(infos) =~= alts_toks(init) + seq![(TokenKind::Bar, seq!['|'])] + info_toks(last));
    }
}

/// The statement of the transitions between two states reads as its tokens.
proof fn lemma_lex_edge(s: Seq<char>, i: int, g: GraphModel, e: EdgeModel)
    requires
        0 <= i,
        word_ok(state_text(g.states[e.from].name)),
        word_ok(state_text(g.states[e.to].name)),
        e.infos.len() > 0,
        forall|j: int| 0 <= j < e.infos.len() ==> (#[trigger] e.infos[j]) is MultipleTapes && mult_ok(
            e.infos[j]->MultipleTapes_0,
        ),
        i + edge_text(g, e).len() <= s.len(),
        s.subrange(i, i + edge_text(g, e).len()) == edge_text(g, e),
    ensures
        lexk(s, i) == edge_toks(g, e) + lexk(s, i + edge_text(g, e).len()),
{
    reveal_strlit(" {");
    reveal_strlit("} ");
    reveal_strlit(";\n");
    let a = state_text(g.states[e.from].name);
    let b = seq![' ', '{'];
    let c = alts_text(e.infos);
    let d = seq!['}', ' '];
    let f = state_text(g.states[e.to].name);
    let h = seq![';', '\n'];
    assert(edge_text(g, e) == a + b + c + d + f + h);
    lemma_sub_split(s, i, a + b + c + d + f, h);
    lemma_sub_split(s, i, a + b + c + d, f);
    lemma_sub_split(s, i, a + b + c, d);
    lemma_sub_split(s, i, a + b, c);
    lemma_sub_split(s, i, a, b);
    let p1 = i + a.len();
    let p2 = p1 + 2;
    let p3 = p2 + c.len();
    let p4 = p3 + 2;
    let p5 = p4 + f.len();
    assert(s[p1] == ' ' && s[p1 + 1] == '{') by {
        assert(s.subrange(p1, p1 + 2)[0] == b[0]);
        assert(s.subrange(p1, p1 + 2)[1] == b[1]);
    }
    assert(s[p3] == '}' && s[p3 + 1] == ' ') by {
        assert(s.subrange(p3, p3 + 2)[0] == d[0]);
        assert(s.subrange(p3, p3 + 2)[1] == d[1]);
    }
    assert(s[p5] == ';' && s[p5 + 1] == '\n') by {
        assert(s.subrange(p5, p5 + 2)[0] == h[0]);
        assert(s.subrange(p5, p5 + 2)[1] == h[1]);
    }
    lemma_lex_word(s, i, a);
    lemma_lex_blank(s, p1);
    lemma_lex_punct(s, p1 + 1);
    lemma_lex_alts(s, p2, e.infos);
    lemma_lex_punct(s, p3);
    lemma_lex_blank(s, p3 + 1);
    lemma_lex_word(s, p4, f);
    lemma_lex_punct(s, p5);
    lemma_lex_blank(s, p5 + 1);
    assert(edge_toks(g, e) =~= seq![(TokenKind::Word, a)] + seq![(TokenKind::Open, seq!['{'])] + alts_toks(e.infos)
        + seq![(TokenKind::Close, seq!['}'])] + seq![(TokenKind::Word, f)] + seq![(TokenKind::Semi, seq![';'])]);
}

/// A statement `keyword = q_name;` on a line reads as its tokens.
proof fn lemma_lex_named(s: Seq<char>, i: int, keyword: Seq<char>, sep: Seq<char>, name: Seq<char>)
    requires
        0 <= i,
        word_ok(keyword),
        sep == seq![' ', '=', ' '],
        word_ok(state_text(name)),
        i + (keyword + sep + state_text(name) + seq![';', '\n']).len() <= s.len(),
        s.subrange(i, i + (keyword + sep + state_text(name) + seq![';', '\n']).len()) == keyword + sep
            + state_text(name) + seq![';', '\n'],
    ensures
        lexk(s, i) == named_toks(keyword, name) + lexk(
            s,
            i + (keyword + sep + state_text(name) + seq![';', '\n']).len(),
        ),
{
    let w = state_text(name);
    let h = seq![';', '\n'];
    lemma_sub_split(s, i, keyword + sep + w, h);
    lemma_sub_split(s, i, keyword + sep, w);
    lemma_sub_split(s, i, keyword, sep);
    let p1 = i + keyword.len();
    let p2 = p1 + 3;
    let p3 = p2 + w.len();
    assert(s[p1] == ' ' && s[p1 + 1] == '=' && s[p1 + 2] == ' ') by {
        assert(s.subrange(p1, p1 + 3)[0] == sep[0]);
        assert(s.subrange(p1, p1 + 3)[1] == sep[1]);
        assert(s.subrange(p1, p1 + 3)[2] == sep[2]);
    }
    assert(s[p3] == ';' && s[p3 + 1] == '\n') by {
        assert(s.subrange(p3, p3 + 2)[0] == h[0]);
        assert(s.subrange(p3, p3 + 2)[1] == h[1]);
    }
    lemma_lex_word(s, i, keyword);
    lemma_lex_blank(s, p1);
    lemma_lex_punct(s, p1 + 1);
    lemma_lex_blank(s, p1 + 2);
    lemma_lex_word(s, p2, w);
    lemma_lex_punct(s, p3);
    lemma_lex_blank(s, p3 + 1);
    assert(named_toks(keyword, name) =~= seq![(TokenKind::Word, keyword)] + seq![(TokenKind::Equal, seq!['='])]
        + seq![(TokenKind::Word, w)] + seq![(TokenKind::Semi, seq![';'])]);
}

/// An edge whose statement can be read back.
pub open spec fn edge_printable(g: GraphModel, e: EdgeModel) -> bool {
    &&& word_ok(state_text(g.states[e.from].name))
    &&& word_ok(state_text(g.states[e.to].name))
    &&& e.infos.len() > 0
    &&& forall|j: int| 0 <= j < e.infos.len() ==> (#[trigger] e.infos[j]) is MultipleTapes && mult_ok(
        e.infos[j]->MultipleTapes_0,
    )
}

/// The statements of the transitions read as their tokens.
proof fn lemma_lex_edges(s: Seq<char>, i: int, g: GraphModel, es: Seq<EdgeModel>)
    requires
        0 <= i,
        forall|j: int| 0 <= j < es.len() ==> edge_printable(g, #[trigger] es[j]),
        i + edges_text(g, es).len() <= s.len(),
        s.subrange(i, i + edges_text(g, es).len()) == edges_text(g, es),
    ensures
        lexk(s, i) == edges_toks(g, es) + lexk(s, i + edges_text(g, es).len()),
    decreases es.len(),
{
    if es.len() > 0 {
        let init = es.drop_last();
        assert(forall|j: int| 0 <= j < init.len() ==> #[trigger] init[j] == es[j]);
        lemma_sub_split(s, i, edges_text(g, init), edge_text(g, es.last()));
        lemma_lex_edges(s, i, g, init);
        assert(edge_printable(g, es[es.len() - 1]));
        lemma_lex_edge(s, i + edges_text(g, init).len(), g, es.last());
        assert(edges_toks(g, es) == edges_toks(g, init) + edge_toks(g, es.last()));
    }
}

/// The statements of the accepting states read as their tokens.
proof fn lemma_lex_accepting(s: Seq<char>, i: int, g: GraphModel, n: nat)
    requires
        0 <= i,
        n <= usize::MAX + 1,
        forall|id: usize| #[trigger] g.states.contains_key(id) ==> word_ok(state_text(g.states[id].name)),
        i + accepting_text(g, n).len() <= s.len(),
        s.subrange(i, i + accepting_text(g, n).len()) == accepting_text(g, n),
    ensures
        lexk(s, i) == accepting_toks(g, n) + lexk(s, i + accepting_text(g, n).len()),
    decreases n,
{
    if n > 0 {
        let id = (n - 1) as usize;
        let m = (n - 1) as nat;
        if g.states.contains_key(id) && g.states[id].state_type == TuringStateType::Accepting {
            reveal_strlit("accepting = ");
            reveal_strlit(";\n");
            let sep = seq![' ', '=', ' '];
            let name = g.states[id].name;
            let line = accepting_word() + sep + state_text(name) + seq![';', '\n'];
            assert("accepting = "@ + state_text(name) + ";\n"@ =~= line);
            assert(accepting_text(g, n) == accepting_text(g, m) + line);
            lemma_sub_split(s, i, accepting_text(g, m), line);
            lemma_lex_accepting(s, i, g, m);
            lemma_lex_named(s, i + accepting_text(g, m).len(), accepting_word(), sep, name);
            assert(accepting_toks(g, n) == accepting_toks(g, m) + named_toks(accepting_word(), name));
        } else {
            assert(accepting_text(g, n) =~= accepting_text(g, m));
            assert(accepting_toks(g, n) =~= accepting_toks(g, m));
            lemma_lex_accepting(s, i, g, m);
        }
    }
}

/// The text of a printable graph reads as the tokens of its statements, then the end.
pub proof fn lemma_lex_graph(g: GraphModel)
    requires
        printable(g),
    ensures
        kt(lex(graph_text(g))) == graph_toks(g) + seq![(TokenKind::End, Seq::<char>::empty())],
{
    reveal_strlit("initial = ");
    reveal_strlit(";\n");
    let s = graph_text(g);
    let sep = seq![' ', '=', ' '];
    let n0 = g.states[0].name;
    let head = initial_word() + sep + state_text(n0) + seq![';', '\n'];
    let acc = accepting_text(g, g.next_index as nat);
    let eds = edges_text(g, g.edges);
    assert(s =~= head + acc + eds);
    assert(s.subrange(0, s.len() as int) =~= s);
    lemma_sub_split(s, 0, head + acc, eds);
    lemma_sub_split(s, 0, head, acc);
    assert(s.subrange(0, head.len() as int) == head);
    lemma_lex_named(s, 0, initial_word(), sep, n0);
    lemma_lex_accepting(s, head.len() as int, g, g.next_index as nat);
    assert forall|j: int| 0 <= j < g.edges.len() implies edge_printable(g, #[trigger] g.edges[j]) by {
        let e = g.edges[j];
        assert(g.edge_wf(e));
        assert forall|m: int| 0 <= m < e.infos.len() implies (#[trigger] e.infos[m]) is MultipleTapes && mult_ok(
            e.infos[m]->MultipleTapes_0,
        ) by {
            assert(mult_ok(g.edges[j].infos[m]->MultipleTapes_0));
        }
    }
    lemma_lex_edges(s, (head.len() + acc.len()) as int, g, g.edges);
    assert(kt(lex_from(s, s.len() as int, 1, 1)) =~= seq![(TokenKind::End, Seq::<char>::empty())]);
    assert(graph_toks(g) == named_toks(initial_word(), n0) + accepting_toks(g, g.next_index as nat)
        + edges_toks(g, g.edges));
}

/// Whether the tokens from `i` on start with the kinds and characters `xs`.
pub open spec fn toks_at(ts: Seq<TokenModel>, i: int, xs: Seq<(TokenKind, Seq<char>)>) -> bool {
    &&& 0 <= i
    &&& i + xs.len() <= ts.len()
    &&& kt(ts).subrange(i, i + xs.len()) == xs
}

proof fn lemma_toks_split(ts: Seq<TokenModel>, i: int, a: Seq<(TokenKind, Seq<char>)>, b: Seq<(TokenKind, Seq<char>)>)
    requires
        toks_at(ts, i, a + b),
    ensures
        toks_at(ts, i, a),
        toks_at(ts, i + a.len(), b),
{
    let k = kt(ts);
    assert(k.subrange(i, i + a.len()) =~= a) by {
        assert forall|m: int| 0 <= m < a.len() implies k.subrange(i, i + a.len())[m] == a[m] by {
            assert(k.subrange(i, i + a.len() + b.len())[m] == (a + b)[m]);
        }
    }
    assert(k.subrange(i + a.len(), i + a.len() + b.len()) =~= b) by {
        assert forall|m: int| 0 <= m < b.len() implies k.subrange(i + a.len(), i + a.len() + b.len())[m] == b[m] by {
            assert(k.subrange(i, i + a.len() + b.len())[a.len() + m] == (a + b)[a.len() + m]);
            assert(k.subrange(i, i + a.len() + b.len())[a.len() + m] == k[i + a.len() + m]);
        }
    }
}

/// The kind and characters of the token at `i`, when the tokens from `i` on start with `xs`.
proof fn lemma_toks_elem(ts: Seq<TokenModel>, i: int, xs: Seq<(TokenKind, Seq<char>)>, m: int)
    requires
        toks_at(ts, i, xs),
        0 <= m < xs.len(),
    ensures
        at(ts, i + m).kind == xs[m].0,
        at(ts, i + m).text == xs[m].1,
{
    assert(kt(ts).subrange(i, i + xs.len())[m] == kt(ts)[i + m]);
}

/// The direction a letter stands for.
proof fn lemma_direction_letter(d: TuringDirection)
    ensures
        direction_of(seq![d.letter()]) == Some(d),
{
    let w = seq![d.letter()];
    assert(seq!['L'] != seq!['R']) by {
        assert(seq!['L'][0] != seq!['R'][0]);
    }
    assert(seq!['L'] != seq!['N']) by {
        assert(seq!['L'][0] != seq!['N'][0]);
    }
    assert(seq!['R'] != seq!['N']) by {
        assert(seq!['R'][0] != seq!['N'][0]);
    }
    match d {
        TuringDirection::Left => {
            assert(w =~= seq!['L']);
        },
        TuringDirection::Right => {
            assert(w =~= seq!['R']);
        },
        TuringDirection::Neutral => {
            assert(w =~= seq!['N']);
        },
    }
}

/// Words separated by commas read back as the characters they were written from.
proof fn lemma_parse_symbols(ts: Seq<TokenModel>, i: int, cs: Seq<char>)
    requires
        cs.len() > 0,
        toks_at(ts, i, reads_toks(cs)),
        at(ts, i + reads_toks(cs).len()).kind != TokenKind::Comma,
    ensures
        symbols_from(ts, i) == Ok::<(Seq<char>, int), crate::turing_parser::SyntaxErrorModel>((cs, i + reads_toks(cs).len())),
    decreases cs.len(),
{
    let n = reads_toks(cs).len();
    lemma_toks_elem(ts, i, reads_toks(cs), 0);
    assert(at(ts, i).text == seq![cs[0]]);
    if cs.len() == 1 {
        assert(seq![cs[0]] =~= cs);
    } else {
        let rest = cs.drop_first();
        lemma_toks_elem(ts, i, reads_toks(cs), 1);
        assert(reads_toks(cs) =~= seq![(TokenKind::Word, seq![cs[0]]), (TokenKind::Comma, seq![','])] + reads_toks(rest)) by {
            assert forall|k: int| 0 <= k < reads_toks(rest).len() implies reads_toks(cs)[k + 2] == reads_toks(rest)[k] by {
                assert((k + 2) % 2 == k % 2);
                assert((k + 2) / 2 == k / 2 + 1);
            }
        }
        lemma_toks_split(ts, i, seq![(TokenKind::Word, seq![cs[0]]), (TokenKind::Comma, seq![','])], reads_toks(rest));
        lemma_parse_symbols(ts, i + 2, rest);
        assert(seq![cs[0]] + rest =~= cs);
    }
}

/// The characters a transition writes.
pub open spec fn writes_of(ps: Seq<(char, TuringDirection)>) -> Seq<char> {
    ps.map_values(|p: (char, TuringDirection)| p.0)
}

/// The directions of the writing tapes of a transition.
pub open spec fn moves_of(ps: Seq<(char, TuringDirection)>) -> Seq<TuringDirection> {
    ps.map_values(|p: (char, TuringDirection)| p.1)
}

/// The pairs `, b, D` read back as the characters and directions they were written from.
proof fn lemma_parse_tail(ts: Seq<TokenModel>, i: int, ps: Seq<(char, TuringDirection)>)
    requires
        toks_at(ts, i, pairs_toks(ps)),
        at(ts, i + pairs_toks(ps).len()).kind != TokenKind::Comma,
    ensures
        tail_from(ts, i) == Ok::<(Seq<char>, Seq<TuringDirection>, int), crate::turing_parser::SyntaxErrorModel>(
            (writes_of(ps), moves_of(ps), i + pairs_toks(ps).len()),
        ),
    decreases ps.len(),
{
    if ps.len() == 0 {
        assert(writes_of(ps) =~= Seq::<char>::empty());
        assert(moves_of(ps) =~= Seq::<TuringDirection>::empty());
    } else {
        let rest = ps.drop_first();
        let head = seq![
            (TokenKind::Comma, seq![',']),
            (TokenKind::Word, seq![ps[0].0]),
            (TokenKind::Comma, seq![',']),
            (TokenKind::Word, seq![ps[0].1.letter()]),
        ];
        assert(pairs_toks(ps) =~= head + pairs_toks(rest)) by {
            assert forall|k: int| 0 <= k < pairs_toks(rest).len() implies pairs_toks(ps)[k + 4] == pairs_toks(rest)[k] by {
                assert((k + 4) % 4 == k % 4);
                assert((k + 4) / 4 == k / 4 + 1);
            }
        }
        lemma_toks_split(ts, i, head, pairs_toks(rest));
        lemma_toks_elem(ts, i, head, 0);
        lemma_toks_elem(ts, i, head, 1);
        lemma_toks_elem(ts, i, head, 2);
        lemma_toks_elem(ts, i, head, 3);
        lemma_direction_letter(ps[0].1);
        lemma_parse_tail(ts, i + 4, rest);
        assert(seq![ps[0].0] + writes_of(rest) =~= writes_of(ps));
        assert(seq![ps[0].1] + moves_of(rest) =~= moves_of(ps));
    }
}

/// The shape of a transition as read: its characters read and written, and its directions.
pub open spec fn trans_shape(tr: TransSyntax) -> (Seq<char>, Seq<char>, Seq<TuringDirection>) {
    (tr.reads, tr.writes, tr.dirs)
}

/// The shape a transition is read back with.
pub open spec fn mult_shape(t: MultModel) -> (Seq<char>, Seq<char>, Seq<TuringDirection>) {
    (t.chars_read, writes_of(t.chars_write), seq![t.move_read] + moves_of(t.chars_write))
}

/// A transition reads back as its shape.
proof fn lemma_parse_trans(ts: Seq<TokenModel>, i: int, t: MultModel)
    requires
        t.chars_read.len() > 0,
        toks_at(ts, i, mult_toks(t)),
        at(ts, i + mult_toks(t).len()).kind != TokenKind::Comma,
    ensures
        trans_from(ts, i) matches Ok((tr, j)) && j == i + mult_toks(t).len() && trans_shape(tr) == mult_shape(t),
{
    let r = reads_toks(t.chars_read);
    let mid = seq![(TokenKind::Arrow, seq!['-', '>']), (TokenKind::Word, seq![t.move_read.letter()])];
    let pt = pairs_toks(t.chars_write);
    assert(mult_toks(t) == r + mid + pt);
    lemma_toks_split(ts, i, r + mid, pt);
    lemma_toks_split(ts, i, r, mid);
    lemma_toks_elem(ts, i + r.len(), mid, 0);
    lemma_toks_elem(ts, i + r.len(), mid, 1);
    lemma_parse_symbols(ts, i, t.chars_read);
    lemma_direction_letter(t.move_read);
    lemma_parse_tail(ts, i + r.len() + 2, t.chars_write);
}

proof fn lemma_alts_toks_cons(infos: Seq<InfoModel>)
    requires
        infos.len() >= 2,
    ensures
        alts_toks(infos) == info_toks(infos[0]) + seq![(TokenKind::Bar, seq!['|'])] + alts_toks(infos.drop_first()),
    decreases infos.len(),
{
    let bar = seq![(TokenKind::Bar, seq!['|'])];
    let init = infos.drop_last();
    let rest = infos.drop_first();
    assert(rest.drop_last() =~= init.drop_first());
    assert(rest.last() == infos.last());
    if infos.len() == 2 {
        assert(alts_toks(init) == info_toks(infos[0]));
        assert(alts_toks(rest) == info_toks(rest[0]));
        assert(rest[0] == infos.last());
        assert(alts_toks(infos) =~= info_toks(infos[0]) + bar + alts_toks(rest));
    } else {
        lemma_alts_toks_cons(init);
        assert(init[0] == infos[0]);
        assert(alts_toks(infos) =~= info_toks(infos[0]) + bar + alts_toks(rest));
    }
}

/// The shapes transitions are read back with.
pub open spec fn infos_shapes(infos: Seq<InfoModel>) -> Seq<(Seq<char>, Seq<char>, Seq<TuringDirection>)> {
    infos.map_values(|x: InfoModel| mult_shape(x->MultipleTapes_0))
}

/// Transitions separated by bars read back as their shapes.
proof fn lemma_parse_alts(ts: Seq<TokenModel>, i: int, infos: Seq<InfoModel>)
    requires
        infos.len() > 0,
        forall|j: int| 0 <= j < infos.len() ==> (#[trigger] infos[j]) is MultipleTapes
            && infos[j]->MultipleTapes_0.chars_read.len() > 0,
        toks_at(ts, i, alts_toks(infos)),
        at(ts, i + alts_toks(infos).len()).kind != TokenKind::Comma,
        at(ts, i + alts_toks(infos).len()).kind != TokenKind::Bar,
    ensures
        alts_from(ts, i) matches Ok((trs, j)) && j == i + alts_toks(infos).len() && trs.map_values(
            |tr: TransSyntax| trans_shape(tr),
        ) == infos_shapes(infos),
    decreases infos.len(),
{
    let t0 = infos[0]->MultipleTapes_0;
    if infos.len() == 1 {
        lemma_parse_trans(ts, i, t0);
        let trs = alts_from(ts, i)->Ok_0.0;
        assert(trs.map_values(|tr: TransSyntax| trans_shape(tr)) =~= infos_shapes(infos));
    } else {
        let rest = infos.drop_first();
        let bar = seq![(TokenKind::Bar, seq!['|'])];
        lemma_alts_toks_cons(infos);
        lemma_toks_split(ts, i, info_toks(infos[0]) + bar, alts_toks(rest));
        lemma_toks_split(ts, i, info_toks(infos[0]), bar);
        lemma_toks_elem(ts, i + mult_toks(t0).len(), bar, 0);
        lemma_parse_trans(ts, i, t0);
        assert(forall|j: int| 0 <= j < rest.len() ==> #[trigger] rest[j] == infos[j + 1]);
        lemma_parse_alts(ts, i + mult_toks(t0).len() + 1, rest);
        let tr = trans_from(ts, i)->Ok_0.0;
        let trs = alts_from(ts, i + mult_toks(t0).len() + 1)->Ok_0.0;
        assert(trans_shape(tr) == mult_shape(t0));
        assert(trs.map_values(|x: TransSyntax| trans_shape(x)) == infos_shapes(rest));
        let all = seq![tr] + trs;
        assert(all.map_values(|x: TransSyntax| trans_shape(x)) =~= infos_shapes(infos)) by {
            assert forall|k: int| 0 <= k < infos.len() implies all.map_values(|x: TransSyntax| trans_shape(x))[k]
                == infos_shapes(infos)[k] by {
                if k == 0 {
                    assert(all[0] == tr);
                } else {
                    assert(all[k] == trs[k - 1]);
                    assert(trs.map_values(|x: TransSyntax| trans_shape(x))[k - 1] == infos_shapes(rest)[k - 1]);
                    assert(rest[k - 1] == infos[k]);
                }
            }
        }
    }
}

/// A statement as written: `keyword = q_name;`, or the transitions between two named states.
pub enum Printed {
    Named(Seq<char>, Seq<char>),
    Edge(Seq<char>, Seq<InfoModel>, Seq<char>),
}

/// The shape of a statement as read, without the positions of its tokens.
pub enum StmtShape {
    Initial(Seq<char>),
    Accepting(Seq<Seq<char>>),
    Transitions(Seq<char>, Seq<(Seq<char>, Seq<char>, Seq<TuringDirection>)>, Seq<char>),
}

/// The shape of a statement as read.
pub open spec fn stmt_shape(st: StmtSyntax) -> StmtShape {
    match st {
        StmtSyntax::Initial { name, .. } => StmtShape::Initial(name),
        StmtSyntax::Accepting { names } => StmtShape::Accepting(names),
        StmtSyntax::Transitions { from, alts, to, .. } => StmtShape::Transitions(
            from,
            alts.map_values(|tr: TransSyntax| trans_shape(tr)),
            to,
        ),
    }
}

/// The shape a written statement is read back with.
pub open spec fn printed_shape(p: Printed) -> StmtShape {
    match p {
        Printed::Named(kw, n) => if kw == initial_word() {
            StmtShape::Initial(n)
        } else {
            StmtShape::Accepting(seq![n])
        },
        Printed::Edge(f, infos, t) => StmtShape::Transitions(f, infos_shapes(infos), t),
    }
}

/// The tokens of a written statement.
pub open spec fn printed_toks(p: Printed) -> Seq<(TokenKind, Seq<char>)> {
    match p {
        Printed::Named(kw, n) => named_toks(kw, n),
        Printed::Edge(f, infos, t) => seq![(TokenKind::Word, state_text(f)), (TokenKind::Open, seq!['{'])]
            + alts_toks(infos) + seq![
            (TokenKind::Close, seq!['}']),
            (TokenKind::Word, state_text(t)),
            (TokenKind::Semi, seq![';']),
        ],
    }
}

/// The name of a state can be written after `q_` and read back.
pub open spec fn name_ok(n: Seq<char>) -> bool {
    n.len() > 0 && word_ok(state_text(n))
}

/// A written statement that reads back.
pub open spec fn printed_ok(p: Printed) -> bool {
    match p {
        Printed::Named(kw, n) => (kw == initial_word() || kw == accepting_word()) && name_ok(n),
        Printed::Edge(f, infos, t) => {
            &&& name_ok(f)
            &&& name_ok(t)
            &&& infos.len() > 0
            &&& forall|j: int| 0 <= j < infos.len() ==> (#[trigger] infos[j]) is MultipleTapes
                && infos[j]->MultipleTapes_0.chars_read.len() > 0
        },
    }
}

/// The tokens of written statements, one after the other.
pub open spec fn flat(ps: Seq<Printed>) -> Seq<(TokenKind, Seq<char>)>
    decreases ps.len(),
{
    if ps.len() == 0 {
        Seq::empty()
    } else {
        printed_toks(ps[0]) + flat(ps.drop_first())
    }
}

proof fn lemma_state_word(n: Seq<char>)
    requires
        n.len() > 0,
    ensures
        is_state_word(state_text(n)),
        state_name(state_text(n)) == n,
        state_text(n)[0] == 'q',
        state_text(n) != initial_word(),
        state_text(n) != accepting_word(),
{
    reveal_strlit("q_");
    assert(state_text(n) == seq!['q', '_'] + n);
    assert(state_text(n).skip(2) =~= n);
    assert(state_text(n)[0] != initial_word()[0]);
    assert(state_text(n)[0] != accepting_word()[0]);
}

/// A written statement reads back with its shape.
proof fn lemma_parse_printed(ts: Seq<TokenModel>, i: int, p: Printed)
    requires
        printed_ok(p),
        toks_at(ts, i, printed_toks(p)),
    ensures
        stmt_at(ts, i) matches Ok((st, j)) && j == i + printed_toks(p).len() && stmt_shape(st) == printed_shape(p),
{
    match p {
        Printed::Named(kw, n) => {
            let xs = named_toks(kw, n);
            lemma_toks_elem(ts, i, xs, 0);
            lemma_toks_elem(ts, i, xs, 1);
            lemma_toks_elem(ts, i, xs, 2);
            lemma_toks_elem(ts, i, xs, 3);
            lemma_state_word(n);
            assert(initial_word() != accepting_word()) by {
                assert(initial_word().len() != accepting_word().len());
            }
            if kw == initial_word() {
            } else {
                assert(names_from(ts, i + 2) == Ok::<(Seq<Seq<char>>, int), crate::turing_parser::SyntaxErrorModel>((seq![n], i + 3)));
            }
        },
        Printed::Edge(f, infos, t) => {
            let a = seq![(TokenKind::Word, state_text(f)), (TokenKind::Open, seq!['{'])];
            let c = seq![(TokenKind::Close, seq!['}']), (TokenKind::Word, state_text(t)), (TokenKind::Semi, seq![';'])];
            let b = alts_toks(infos);
            assert(printed_toks(p) == a + b + c);
            lemma_toks_split(ts, i, a + b, c);
            lemma_toks_split(ts, i, a, b);
            lemma_toks_elem(ts, i, a, 0);
            lemma_toks_elem(ts, i, a, 1);
            lemma_toks_elem(ts, i + 2 + b.len(), c, 0);
            lemma_toks_elem(ts, i + 2 + b.len(), c, 1);
            lemma_toks_elem(ts, i + 2 + b.len(), c, 2);
            lemma_state_word(f);
            lemma_state_word(t);
            lemma_parse_alts(ts, i + 2, infos);
        },
    }
}

/// Written statements, followed by the end, read back with their shapes.
#[verifier::spinoff_prover]
#[verifier::rlimit(30)]
proof fn lemma_parse_printeds(ts: Seq<TokenModel>, i: int, ps: Seq<Printed>)
    requires
        forall|j: int| 0 <= j < ps.len() ==> printed_ok(#[trigger] ps[j]),
        toks_at(ts, i, flat(ps)),
        at(ts, i + flat(ps).len()).kind == TokenKind::End,
    ensures
        stmts_from(ts, i) matches Ok(sts) && sts.map_values(|st: StmtSyntax| stmt_shape(st)) == ps.map_values(
            |p: Printed| printed_shape(p),
        ),
    decreases ps.len(),
{
    if ps.len() == 0 {
        let sts = stmts_from(ts, i)->Ok_0;
        assert(sts.map_values(|st: StmtSyntax| stmt_shape(st)) =~= ps.map_values(|p: Printed| printed_shape(p)));
    } else {
        let rest = ps.drop_first();
        lemma_toks_split(ts, i, printed_toks(ps[0]), flat(rest));
        assert(printed_ok(ps[0]));
        assert(printed_toks(ps[0]).len() > 0 && printed_toks(ps[0])[0].0 == TokenKind::Word);
        lemma_toks_elem(ts, i, printed_toks(ps[0]), 0);
        lemma_parse_printed(ts, i, ps[0]);
        assert(forall|j: int| 0 <= j < rest.len() ==> #[trigger] rest[j] == ps[j + 1]);
        lemma_parse_printeds(ts, i + printed_toks(ps[0]).len(), rest);
        let st = stmt_at(ts, i)->Ok_0.0;
        let sts = stmts_from(ts, i + printed_toks(ps[0]).len())->Ok_0;
        assert(stmt_shape(st) == printed_shape(ps[0]));
        let ra = sts.map_values(|x: StmtSyntax| stmt_shape(x));
        let rb = rest.map_values(|p: Printed| printed_shape(p));
        assert(ra == rb);
        assert(sts.len() == ra.len() && rest.len() == rb.len());
        let all = seq![st] + sts;
        let ma = all.map_values(|x: StmtSyntax| stmt_shape(x));
        let mb = ps.map_values(|p: Printed| printed_shape(p));
        assert(ma.len() == mb.len());
        assert(ma =~= mb) by {
            assert forall|k: int| 0 <= k < ps.len() implies #[trigger] ma[k] == mb[k] by {
                if k > 0 {
                    assert(all[k] == sts[k - 1]);
                    assert(ma[k] == ra[k - 1]);
                    assert(mb[k] == rb[k - 1]);
                } else {
                    assert(all[0] == st);
                }
            }
        }
    }
}

/// The statements of the accepting states with an id below `n`, as written.
pub open spec fn acc_printed(g: GraphModel, n: nat) -> Seq<Printed>
    decreases n,
{
    if n == 0 {
        Seq::empty()
    } else {
        let id = (n - 1) as usize;
        acc_printed(g, (n - 1) as nat) + if g.states.contains_key(id) && g.states[id].state_type
            == TuringStateType::Accepting {
            seq![Printed::Named(accepting_word(), g.states[id].name)]
        } else {
            Seq::empty()
        }
    }
}

/// The statements of the transitions, as written.
pub open spec fn edges_printed(g: GraphModel, es: Seq<EdgeModel>) -> Seq<Printed>
    decreases es.len(),
{
    if es.len() == 0 {
        Seq::empty()
    } else {
        edges_printed(g, es.drop_last()) + seq![
            Printed::Edge(g.states[es.last().from].name, es.last().infos, g.states[es.last().to].name),
        ]
    }
}

/// The statements of a graph, as written.
pub open spec fn printed_list(g: GraphModel) -> Seq<Printed> {
    seq![Printed::Named(initial_word(), g.states[0].name)] + acc_printed(g, g.next_index as nat)
        + edges_printed(g, g.edges)
}

proof fn lemma_flat_append(a: Seq<Printed>, b: Seq<Printed>)
    ensures
        flat(a + b) == flat(a) + flat(b),
    decreases a.len(),
{
    if a.len() == 0 {
        assert(a + b =~= b);
        assert(flat(a) + flat(b) =~= flat(b));
    } else {
        assert((a + b).drop_first() =~= a.drop_first() + b);
        lemma_flat_append(a.drop_first(), b);
        assert(flat(a + b) =~= flat(a) + flat(b));
    }
}

proof fn lemma_flat_single(p: Printed)
    ensures
        flat(seq![p]) == printed_toks(p),
{
    assert(seq![p].drop_first() =~= Seq::<Printed>::empty());
    assert(flat(Seq::<Printed>::empty()) =~= Seq::<(TokenKind, Seq<char>)>::empty());
    assert(seq![p][0] == p);
    assert(flat(seq![p]) =~= printed_toks(p));
}

proof fn lemma_acc_flat(g: GraphModel, n: nat)
    ensures
        accepting_toks(g, n) == flat(acc_printed(g, n)),
        forall|j: int| 0 <= j < acc_printed(g, n).len() ==> {
            let p = #[trigger] acc_printed(g, n)[j];
            &&& p is Named
            &&& p->Named_0 == accepting_word()
            &&& exists|id: usize| g.states.contains_key(id) && g.states[id].name == p->Named_1
        },
    decreases n,
{
    if n > 0 {
        let m = (n - 1) as nat;
        let id = (n - 1) as usize;
        lemma_acc_flat(g, m);
        if g.states.contains_key(id) && g.states[id].state_type == TuringStateType::Accepting {
            let p = Printed::Named(accepting_word(), g.states[id].name);
            lemma_flat_append(acc_printed(g, m), seq![p]);
            lemma_flat_single(p);
            assert forall|j: int| 0 <= j < acc_printed(g, n).len() implies {
                let p = #[trigger] acc_printed(g, n)[j];
                &&& p is Named
                &&& p->Named_0 == accepting_word()
                &&& exists|id: usize| g.states.contains_key(id) && g.states[id].name == p->Named_1
            } by {
                if j < acc_printed(g, m).len() {
                    assert(acc_printed(g, n)[j] == acc_printed(g, m)[j]);
                }
            }
        } else {
            assert(acc_printed(g, n) =~= acc_printed(g, m));
            assert(accepting_toks(g, n) =~= accepting_toks(g, m));
        }
    }
}

proof fn lemma_edges_flat(g: GraphModel, es: Seq<EdgeModel>)
    ensures
        edges_toks(g, es) == flat(edges_printed(g, es)),
        edges_printed(g, es).len() == es.len(),
        forall|j: int| 0 <= j < es.len() ==> #[trigger] edges_printed(g, es)[j] == Printed::Edge(
            g.states[es[j].from].name,
            es[j].infos,
            g.states[es[j].to].name,
        ),
    decreases es.len(),
{
    if es.len() > 0 {
        let init = es.drop_last();
        lemma_edges_flat(g, init);
        let p = Printed::Edge(g.states[es.last().from].name, es.last().infos, g.states[es.last().to].name);
        lemma_flat_append(edges_printed(g, init), seq![p]);
        lemma_flat_single(p);
        assert(printed_toks(p) == edge_toks(g, es.last()));
        assert forall|j: int| 0 <= j < es.len() implies #[trigger] edges_printed(g, es)[j] == Printed::Edge(
            g.states[es[j].from].name,
            es[j].infos,
            g.states[es[j].to].name,
        ) by {
            if j < init.len() {
                assert(edges_printed(g, es)[j] == edges_printed(g, init)[j]);
                assert(init[j] == es[j]);
            }
        }
    }
}

/// The text of a printable graph reads back as the statements it was written from.
pub proof fn lemma_graph_text_syntax(g: GraphModel)
    requires
        printable(g),
    ensures
        text_syntax(graph_text(g)) matches Ok(sts) && sts.map_values(|st: StmtSyntax| stmt_shape(st))
            == printed_list(g).map_values(|p: Printed| printed_shape(p)),
{
    lemma_lex_graph(g);
    let ts = lex(graph_text(g));
    let ps = printed_list(g);
    let head = seq![Printed::Named(initial_word(), g.states[0].name)];
    lemma_flat_append(head + acc_printed(g, g.next_index as nat), edges_printed(g, g.edges));
    lemma_flat_append(head, acc_printed(g, g.next_index as nat));
    lemma_flat_single(head[0]);
    lemma_acc_flat(g, g.next_index as nat);
    lemma_edges_flat(g, g.edges);
    assert(flat(ps) == graph_toks(g));
    let n = graph_toks(g).len();
    assert(kt(ts).len() == ts.len());
    assert(kt(ts) == graph_toks(g) + seq![(TokenKind::End, Seq::<char>::empty())]);
    assert(kt(ts).subrange(0, n as int) =~= graph_toks(g));
    assert(kt(ts)[n as int] == (TokenKind::End, Seq::<char>::empty()));
    assert(toks_at(ts, 0, flat(ps)));
    assert(at(ts, n as int).kind == TokenKind::End);
    assert forall|j: int| 0 <= j < ps.len() implies printed_ok(#[trigger] ps[j]) by {
        let hl = head.len() as int;
        let al = acc_printed(g, g.next_index as nat).len() as int;
        if j == 0 {
            assert(ps[0] == head[0]);
            assert(g.states.contains_key(0));
        } else if j < hl + al {
            assert(ps[j] == acc_printed(g, g.next_index as nat)[j - hl]);
            let p = ps[j];
            let id = choose|id: usize| g.states.contains_key(id) && g.states[id].name == p->Named_1;
            assert(name_ok(g.states[id].name));
        } else {
            let k = j - hl - al;
            assert(ps[j] == edges_printed(g, g.edges)[k]);
            let e = g.edges[k];
            assert(g.edge_wf(e));
            assert forall|m: int| 0 <= m < e.infos.len() implies (#[trigger] e.infos[m]) is MultipleTapes
                && e.infos[m]->MultipleTapes_0.chars_read.len() > 0 by {
                assert(mult_ok(g.edges[k].infos[m]->MultipleTapes_0));
            }
        }
    }
    lemma_parse_printeds(ts, 0, ps);
}

/// States keyed by their ids, all below the next id, with distinct names.
pub open spec fn states_ok(g: GraphModel) -> bool {
    &&& forall|id: usize| #[trigger] g.states.contains_key(id) ==> g.states[id].id == id && id < g.next_index
    &&& forall|a: usize, b: usize|
        #![trigger g.states[a], g.states[b]]
        g.states.contains_key(a) && g.states.contains_key(b) && a != b ==> g.states[a].name != g.states[b].name
}

/// Every state of `a` is a state of `b`.
pub open spec fn states_within(a: GraphModel, b: GraphModel) -> bool {
    forall|id: usize| #[trigger] a.states.contains_key(id) ==> b.states.contains_key(id) && b.states[id] == a.states[id]
}

proof fn lemma_with_state(g: GraphModel, n: Seq<char>, t: TuringStateType)
    requires
        states_ok(g),
        g.next_index < usize::MAX,
    ensures
        states_ok(with_state(g, n, t).0),
        states_within(g, with_state(g, n, t).0),
        with_state(g, n, t).0.states.contains_key(with_state(g, n, t).1),
        with_state(g, n, t).0.states[with_state(g, n, t).1].name == n,
        with_state(g, n, t).0.edges == g.edges,
        with_state(g, n, t).0.k == g.k,
        g.next_index <= with_state(g, n, t).0.next_index <= g.next_index + 1,
{
    let (h, id) = with_state(g, n, t);
    if g.has_name(n) {
        let x = choose|x: usize| #[trigger] g.states.contains_key(x) && g.states[x].name == n;
        assert(g.id_of_name(n) == Some(x));
    } else {
        assert forall|a: usize, b: usize|
            #![trigger h.states[a], h.states[b]]
            h.states.contains_key(a) && h.states.contains_key(b) && a != b implies h.states[a].name != h.states[b].name by {
            if a == g.next_index {
                assert(g.states.contains_key(b));
                assert(!(g.states.contains_key(b) && g.states[b].name == n));
            } else if b == g.next_index {
                assert(g.states.contains_key(a));
                assert(!(g.states.contains_key(a) && g.states[a].name == n));
            }
        }
    }
}

proof fn lemma_with_states(g: GraphModel, names: Seq<Seq<char>>, t: TuringStateType)
    requires
        states_ok(g),
        g.next_index + names.len() < usize::MAX,
    ensures
        states_ok(with_states(g, names, t)),
        states_within(g, with_states(g, names, t)),
        with_states(g, names, t).edges == g.edges,
        with_states(g, names, t).k == g.k,
        g.next_index <= with_states(g, names, t).next_index <= g.next_index + names.len(),
    decreases names.len(),
{
    if names.len() > 0 {
        lemma_with_state(g, names[0], t);
        let h = with_state(g, names[0], t).0;
        lemma_with_states(h, names.drop_first(), t);
    }
}

proof fn lemma_with_states_append(g: GraphModel, a: Seq<Seq<char>>, b: Seq<Seq<char>>, t: TuringStateType)
    ensures
        with_states(g, a + b, t) == with_states(with_states(g, a, t), b, t),
    decreases a.len(),
{
    if a.len() == 0 {
        assert(a + b =~= b);
    } else {
        assert((a + b)[0] == a[0]);
        assert((a + b).drop_first() =~= a.drop_first() + b);
        lemma_with_states_append(with_state(g, a[0], t).0, a.drop_first(), b, t);
    }
}

/// Adding a state does not look at the transitions.
proof fn lemma_with_state_edges(g: GraphModel, es: Seq<EdgeModel>, n: Seq<char>, t: TuringStateType)
    ensures
        with_state(GraphModel { edges: es, ..g }, n, t).0 == (GraphModel { edges: es, ..with_state(g, n, t).0 }),
        with_state(GraphModel { edges: es, ..g }, n, t).1 == with_state(g, n, t).1,
{
    let h = GraphModel { edges: es, ..g };
    assert(h.has_name(n) == g.has_name(n));
    assert(h.id_of_name(n) == g.id_of_name(n));
}

proof fn lemma_apply_append(g: GraphModel, a: Seq<StmtSyntax>, b: Seq<StmtSyntax>)
    ensures
        apply_stmts(g, a + b) == match apply_stmts(g, a) {
            Ok(h) => apply_stmts(h, b),
            Err(e) => Err(e),
        },
    decreases a.len(),
{
    if a.len() == 0 {
        assert(a + b =~= b);
    } else {
        assert((a + b)[0] == a[0]);
        assert((a + b).drop_first() =~= a.drop_first() + b);
        if let Ok(h) = apply_stmt(g, a[0]) {
            lemma_apply_append(h, a.drop_first(), b);
        }
    }
}

/// A transition read back with the shape of a valid transition makes that transition.
proof fn lemma_created_shape(tr: TransSyntax, m: MultModel)
    requires
        trans_shape(tr) == mult_shape(m),
        mult_valid(m),
    ensures
        created(tr) == Ok::<MultModel, crate::turing_parser::BuildFailure>(m),
{
    assert(writes_of(m.chars_write) =~= m.chars_write.map_values(|p: (char, TuringDirection)| p.0));
    assert(seq![m.move_read] + moves_of(m.chars_write) =~= seq![m.move_read] + m.chars_write.map_values(
        |p: (char, TuringDirection)| p.1,
    ));
    assert(!mult_args_bad(tr.reads, tr.writes, tr.dirs));
    assert(!mult_illegal(tr.reads, tr.writes, tr.dirs));
    assert(mult_built(tr.reads, tr.writes, tr.dirs).chars_write =~= m.chars_write);
}

/// The edges `es`, then the transitions from `f` to `t` among the first `j` of `infos`.
pub open spec fn edges_with_prefix(es: Seq<EdgeModel>, f: usize, t: usize, infos: Seq<InfoModel>, j: int) -> Seq<EdgeModel> {
    if j == 0 {
        es
    } else {
        es.push(EdgeModel { from: f, to: t, infos: infos.take(j) })
    }
}

/// Reading back the transitions of an edge adds that edge after the others.
proof fn lemma_alts_rebuild(h: GraphModel, es: Seq<EdgeModel>, e: EdgeModel, alts: Seq<TransSyntax>, j: int)
    requires
        0 <= j <= alts.len(),
        e.infos.len() > 0,
        alts.map_values(|tr: TransSyntax| trans_shape(tr)) == infos_shapes(e.infos),
        forall|m: int| 0 <= m < e.infos.len() ==> (#[trigger] e.infos[m]) is MultipleTapes && mult_valid(
            e.infos[m]->MultipleTapes_0,
        ) && e.infos[m].tapes() == h.k + 1,
        forall|a: int, b: int| #![trigger e.infos[a], e.infos[b]] 0 <= a < b < e.infos.len() ==> e.infos[a] != e.infos[b],
        forall|m: int| 0 <= m < es.len() ==> !(#[trigger] es[m].from == e.from && es[m].to == e.to),
    ensures
        with_alts(
            GraphModel { edges: edges_with_prefix(es, e.from, e.to, e.infos, j), ..h },
            e.from,
            e.to,
            alts.skip(j),
        ) == Ok::<GraphModel, crate::turing_parser::BuildErrorModel>(GraphModel { edges: es.push(e), ..h }),
    decreases alts.len() - j,
{
    let f = e.from;
    let t = e.to;
    let hj = GraphModel { edges: edges_with_prefix(es, f, t, e.infos, j), ..h };
    assert(alts.len() == e.infos.len()) by {
        assert(alts.map_values(|tr: TransSyntax| trans_shape(tr)).len() == infos_shapes(e.infos).len());
    }
    if j == alts.len() {
        assert(alts.skip(j) =~= Seq::<TransSyntax>::empty());
        assert(e.infos.take(j) =~= e.infos);
        assert(hj.edges =~= es.push(e));
    } else {
        let tr = alts[j];
        let info = e.infos[j];
        let m = info->MultipleTapes_0;
        assert(alts.skip(j)[0] == tr);
        assert(alts.skip(j).drop_first() =~= alts.skip(j + 1));
        assert(alts.map_values(|x: TransSyntax| trans_shape(x))[j] == infos_shapes(e.infos)[j]);
        lemma_created_shape(tr, m);
        assert(InfoModel::MultipleTapes(m) == info);
        let n = es.len() as int;
        if j == 0 {
            assert(!hj.has_edge(f, t));
            assert(hj.transitions_between(f, t) =~= Seq::<InfoModel>::empty());
            assert(hj.with_transition(f, t, info).edges =~= edges_with_prefix(es, f, t, e.infos, 1)) by {
                assert(e.infos.take(1) =~= seq![info]);
            }
        } else {
            assert(hj.edges[n].from == f && hj.edges[n].to == t);
            let p = hj.edge_position(f, t);
            assert(p == n) by {
                if p != n {
                    assert(hj.edges[p] == es[p]);
                }
            }
            assert(hj.transitions_between(f, t) == e.infos.take(j));
            assert(!e.infos.take(j).contains(info)) by {
                if e.infos.take(j).contains(info) {
                    let a = choose|a: int| 0 <= a < e.infos.take(j).len() && e.infos.take(j)[a] == info;
                    assert(e.infos[a] == e.infos[j]);
                }
            }
            assert(hj.with_transition(f, t, info).edges =~= edges_with_prefix(es, f, t, e.infos, j + 1)) by {
                assert(e.infos.take(j).push(info) =~= e.infos.take(j + 1));
            }
        }
        assert(appended(hj, f, t, info) == Ok::<GraphModel, crate::turing_parser::BuildFailure>(
            GraphModel { edges: edges_with_prefix(es, f, t, e.infos, j + 1), ..h },
        ));
        lemma_alts_rebuild(h, es, e, alts, j + 1);
    }
}

/// The names the statements of the transitions give, in order: each source, then its target.
pub open spec fn endpoint_names(g: GraphModel, es: Seq<EdgeModel>) -> Seq<Seq<char>>
    decreases es.len(),
{
    if es.len() == 0 {
        Seq::empty()
    } else {
        endpoint_names(g, es.drop_last()) + seq![g.states[es.last().from].name, g.states[es.last().to].name]
    }
}

proof fn lemma_endpoint_names_len(g: GraphModel, es: Seq<EdgeModel>)
    ensures
        endpoint_names(g, es).len() == 2 * es.len(),
    decreases es.len(),
{
    if es.len() > 0 {
        lemma_endpoint_names_len(g, es.drop_last());
    }
}

/// The states a reading of the transition statements of `g` leaves, from `a` on.
pub open spec fn names_read(a: GraphModel, g: GraphModel, m: int) -> GraphModel {
    with_states(a, endpoint_names(g, g.edges.take(m)), TuringStateType::Normal)
}

/// Reading the statements of the transitions of a graph, from the `m`-th on, gives the graph
/// back, when reading gives its states their ids.
proof fn lemma_edges_phase(g: GraphModel, a: GraphModel, sts: Seq<StmtSyntax>, m: int)
    requires
        g.wf(),
        states_ok(a),
        a.k == g.k,
        a.next_index + 2 * g.edges.len() < usize::MAX,
        names_read(a, g, g.edges.len() as int).states == g.states,
        names_read(a, g, g.edges.len() as int).next_index == g.next_index,
        forall|i: int, j: int|
            0 <= i < g.edges.len() && 0 <= j < g.edges[i].infos.len() ==> mult_valid(
                (#[trigger] g.edges[i].infos[j])->MultipleTapes_0,
            ),
        sts.len() == g.edges.len(),
        forall|j: int| 0 <= j < sts.len() ==> stmt_shape(#[trigger] sts[j]) == StmtShape::Transitions(
            g.states[g.edges[j].from].name,
            infos_shapes(g.edges[j].infos),
            g.states[g.edges[j].to].name,
        ),
        0 <= m <= g.edges.len(),
    ensures
        apply_stmts(GraphModel { edges: g.edges.take(m), ..names_read(a, g, m) }, sts.skip(m)) == Ok::<
            GraphModel,
            crate::turing_parser::BuildErrorModel,
        >(g),
    decreases g.edges.len() - m,
{
    let n = g.edges.len() as int;
    let wm = names_read(a, g, m);
    let gm = GraphModel { edges: g.edges.take(m), ..wm };
    let fin = names_read(a, g, n);
    lemma_endpoint_names_len(g, g.edges.take(m));
    lemma_endpoint_names_len(g, g.edges);
    assert(g.edges.take(n) =~= g.edges);
    if m == n {
        assert(sts.skip(m) =~= Seq::<StmtSyntax>::empty());
        lemma_with_states(a, endpoint_names(g, g.edges), TuringStateType::Normal);
        assert(gm == g);
    } else {
        let e = g.edges[m];
        assert(g.edge_wf(e));
        let st = sts[m];
        assert(sts.skip(m)[0] == st);
        assert(sts.skip(m).drop_first() =~= sts.skip(m + 1));
        let fname = g.states[e.from].name;
        let tname = g.states[e.to].name;
        assert(stmt_shape(st) == StmtShape::Transitions(fname, infos_shapes(e.infos), tname));
        let before = endpoint_names(g, g.edges.take(m));
        assert(g.edges.take(m + 1).drop_last() =~= g.edges.take(m));
        assert(g.edges.take(m + 1).last() == e);
        assert(endpoint_names(g, g.edges.take(m + 1)) == before + seq![fname, tname]);
        assert(endpoint_names(g, g.edges) == endpoint_names(g, g.edges.take(m + 1)) + endpoint_names(g, g.edges).skip(
            2 * m + 2,
        )) by {
            assert(endpoint_names(g, g.edges) =~= endpoint_names(g, g.edges.take(m + 1)) + endpoint_names(g, g.edges).skip(
                2 * m + 2,
            )) by {
                lemma_endpoint_prefix(g, g.edges, m + 1);
            }
        }
        lemma_with_states_append(a, before, seq![fname, tname], TuringStateType::Normal);
        lemma_with_states(a, before, TuringStateType::Normal);
        lemma_with_state(wm, fname, TuringStateType::Normal);
        let (w1, fid) = with_state(wm, fname, TuringStateType::Normal);
        lemma_with_state(w1, tname, TuringStateType::Normal);
        let (w2, tid) = with_state(w1, tname, TuringStateType::Normal);
        assert(seq![fname, tname].drop_first() =~= seq![tname]);
        assert(seq![fname, tname][0] == fname);
        assert(seq![tname][0] == tname);
        assert(with_states(w2, Seq::<Seq<char>>::empty(), TuringStateType::Normal) == w2);
        assert(with_states(w1, seq![tname], TuringStateType::Normal) == w2) by {
            assert(seq![tname].drop_first() =~= Seq::<Seq<char>>::empty());
        }
        assert(with_states(wm, seq![fname, tname], TuringStateType::Normal) == w2);
        assert(w2 == names_read(a, g, m + 1));
        let rest = endpoint_names(g, g.edges).skip(2 * m + 2);
        lemma_with_states_append(a, endpoint_names(g, g.edges.take(m + 1)), rest, TuringStateType::Normal);
        lemma_with_states(w2, rest, TuringStateType::Normal);
        assert(states_within(w2, fin));
        assert(states_within(w1, w2));
        assert(fin.states.contains_key(fid) && fin.states[fid].name == fname);
        assert(fid == e.from) by {
            if fid != e.from {
                assert(g.states.contains_key(fid) && g.states.contains_key(e.from));
                assert(g.states[fid].name != g.states[e.from].name);
            }
        }
        assert(tid == e.to) by {
            if tid != e.to {
                assert(g.states.contains_key(tid) && g.states.contains_key(e.to));
                assert(g.states[tid].name != g.states[e.to].name);
            }
        }
        lemma_with_state_edges(wm, g.edges.take(m), fname, TuringStateType::Normal);
        lemma_with_state_edges(w1, g.edges.take(m), tname, TuringStateType::Normal);
        let h = GraphModel { edges: g.edges.take(m), ..w2 };
        match st {
            StmtSyntax::Transitions { from, alts, to, .. } => {
                assert(from == fname && to == tname);
                assert(alts.map_values(|tr: TransSyntax| trans_shape(tr)) == infos_shapes(e.infos));
                assert forall|x: int| 0 <= x < g.edges.take(m).len() implies !(#[trigger] g.edges.take(m)[x].from == e.from
                    && g.edges.take(m)[x].to == e.to) by {
                    assert(g.edges.take(m)[x] == g.edges[x]);
                    assert(!(g.edges[x].from == g.edges[m].from && g.edges[x].to == g.edges[m].to));
                }
                assert forall|y: int| 0 <= y < e.infos.len() implies (#[trigger] e.infos[y]) is MultipleTapes && mult_valid(
                    e.infos[y]->MultipleTapes_0,
                ) && e.infos[y].tapes() == h.k + 1 by {
                    assert(mult_valid(g.edges[m].infos[y]->MultipleTapes_0));
                }
                lemma_alts_rebuild(h, g.edges.take(m), e, alts, 0);
                assert(alts.skip(0) =~= alts);
                assert(g.edges.take(m).push(e) =~= g.edges.take(m + 1));
                assert(apply_stmt(gm, st) == Ok::<GraphModel, crate::turing_parser::BuildErrorModel>(
                    GraphModel { edges: g.edges.take(m + 1), ..w2 },
                ));
            },
            _ => {},
        }
        lemma_edges_phase(g, a, sts, m + 1);
    }
}

/// The names of the first statements of the transitions are the first names of all of them.
proof fn lemma_endpoint_prefix(g: GraphModel, es: Seq<EdgeModel>, m: int)
    requires
        0 <= m <= es.len(),
    ensures
        endpoint_names(g, es.take(m)) == endpoint_names(g, es).take(2 * m),
        endpoint_names(g, es) =~= endpoint_names(g, es.take(m)) + endpoint_names(g, es).skip(2 * m),
    decreases es.len(),
{
    lemma_endpoint_names_len(g, es);
    lemma_endpoint_names_len(g, es.take(m));
    if m == es.len() {
        assert(es.take(m) =~= es);
    } else {
        let init = es.drop_last();
        assert(init.take(m) =~= es.take(m));
        lemma_endpoint_prefix(g, init, m);
        lemma_endpoint_names_len(g, init);
        assert(endpoint_names(g, es).take(2 * m) =~= endpoint_names(g, init).take(2 * m));
    }
}

/// The names of the accepting states with an id below `n`, by increasing id.
pub open spec fn acc_names(g: GraphModel, n: nat) -> Seq<Seq<char>>
    decreases n,
{
    if n == 0 {
        Seq::empty()
    } else {
        let id = (n - 1) as usize;
        acc_names(g, (n - 1) as nat) + if g.states.contains_key(id) && g.states[id].state_type
            == TuringStateType::Accepting {
            seq![g.states[id].name]
        } else {
            Seq::empty()
        }
    }
}

proof fn lemma_acc_names(g: GraphModel, n: nat)
    ensures
        acc_names(g, n).len() == acc_printed(g, n).len(),
        acc_names(g, n).len() <= n,
        forall|j: int| 0 <= j < acc_printed(g, n).len() ==> #[trigger] acc_printed(g, n)[j] == Printed::Named(
            accepting_word(),
            acc_names(g, n)[j],
        ),
    decreases n,
{
    if n > 0 {
        let m = (n - 1) as nat;
        lemma_acc_names(g, m);
        let id = (n - 1) as usize;
        assert forall|j: int| 0 <= j < acc_printed(g, n).len() implies #[trigger] acc_printed(g, n)[j] == Printed::Named(
            accepting_word(),
            acc_names(g, n)[j],
        ) by {
            if j < acc_printed(g, m).len() {
                assert(acc_printed(g, n)[j] == acc_printed(g, m)[j]);
                assert(acc_names(g, n)[j] == acc_names(g, m)[j]);
            }
        }
    }
}

/// The graph holding only the initial state of `g`, under its name.
pub open spec fn start_graph(g: GraphModel) -> GraphModel {
    GraphModel {
        states: map![0usize => StateModel { name: g.states[0].name, state_type: TuringStateType::Normal, id: 0 }],
        edges: Seq::empty(),
        next_index: 1,
        k: g.k,
    }
}

/// The states, with their ids, that reading the text of `g` gives: the initial one, then the
/// accepting ones in the order of their statements, then those the transitions name, in order.
pub open spec fn reader(g: GraphModel) -> GraphModel {
    names_read(
        with_states(start_graph(g), acc_names(g, g.next_index as nat), TuringStateType::Accepting),
        g,
        g.edges.len() as int,
    )
}

/// Whether the states of `g` have the ids that reading its text gives them.
pub open spec fn ids_as_read(g: GraphModel) -> bool {
    reader(g).states == g.states && reader(g).next_index == g.next_index
}

/// Reading statements that each name an accepting state adds them in order.
proof fn lemma_acc_phase(h: GraphModel, sts: Seq<StmtSyntax>, names: Seq<Seq<char>>)
    requires
        sts.len() == names.len(),
        forall|j: int| 0 <= j < sts.len() ==> stmt_shape(#[trigger] sts[j]) == StmtShape::Accepting(seq![names[j]]),
    ensures
        apply_stmts(h, sts) == Ok::<GraphModel, crate::turing_parser::BuildErrorModel>(
            with_states(h, names, TuringStateType::Accepting),
        ),
    decreases sts.len(),
{
    if sts.len() > 0 {
        let n = names[0];
        assert(stmt_shape(sts[0]) == StmtShape::Accepting(seq![n]));
        let h1 = with_state(h, n, TuringStateType::Accepting).0;
        assert(with_states(h, seq![n], TuringStateType::Accepting) == h1) by {
            assert(seq![n][0] == n);
            assert(seq![n].drop_first() =~= Seq::<Seq<char>>::empty());
            assert(with_states(h1, Seq::<Seq<char>>::empty(), TuringStateType::Accepting) == h1);
        }
        assert(apply_stmt(h, sts[0]) == Ok::<GraphModel, crate::turing_parser::BuildErrorModel>(h1));
        lemma_acc_phase(h1, sts.drop_first(), names.drop_first());
    }
}

/// Reading the statement naming the initial state of a graph, on a graph with only its
/// default initial state, names it.
proof fn lemma_initial_phase(g: GraphModel, st: StmtSyntax)
    requires
        stmt_shape(st) == StmtShape::Initial(g.states[0].name),
    ensures
        apply_stmt(empty_graph(g.k), st) == Ok::<GraphModel, crate::turing_parser::BuildErrorModel>(start_graph(g)),
{
    let e = empty_graph(g.k);
    let n0 = g.states[0].name;
    assert(e.states.contains_key(0));
    if e.states[0].name == n0 {
        assert(e.states =~= start_graph(g).states);
    } else {
        assert(!e.has_name(n0)) by {
            if e.has_name(n0) {
                let x = choose|x: usize| #[trigger] e.states.contains_key(x) && e.states[x].name == n0;
                assert(x == 0);
            }
        }
        assert(e.renamed(0, n0).states =~= start_graph(g).states);
    }
}

/// Statements that add no transition leave the first transition to those after them.
proof fn lemma_first_trans_skip(a: Seq<StmtSyntax>, b: Seq<StmtSyntax>)
    requires
        forall|j: int| 0 <= j < a.len() ==> !(#[trigger] a[j] is Transitions),
    ensures
        first_trans(a + b) == first_trans(b),
    decreases a.len(),
{
    if a.len() == 0 {
        assert(a + b =~= b);
    } else {
        assert((a + b)[0] == a[0]);
        assert((a + b).drop_first() =~= a.drop_first() + b);
        lemma_first_trans_skip(a.drop_first(), b);
    }
}

/// The conditions under which the text of a graph reads back as the graph.
pub open spec fn reads_back(g: GraphModel) -> bool {
    &&& printable(g)
    &&& ids_as_read(g)
    &&& (g.edges.len() == 0 ==> g.k == 1)
    &&& forall|i: int, j: int|
        0 <= i < g.edges.len() && 0 <= j < g.edges[i].infos.len() ==> mult_valid(
            (#[trigger] g.edges[i].infos[j])->MultipleTapes_0,
        )
    &&& g.next_index + 2 * g.edges.len() + 1 < usize::MAX
}

/// Statements read back from the text of a graph, split as written: the initial state's, the
/// accepting states', and the transitions'.
pub open spec fn split_as_printed(g: GraphModel, st0: StmtSyntax, sa: Seq<StmtSyntax>, se: Seq<StmtSyntax>) -> bool {
    &&& stmt_shape(st0) == StmtShape::Initial(g.states[0].name)
    &&& sa.len() == acc_names(g, g.next_index as nat).len()
    &&& forall|j: int| 0 <= j < sa.len() ==> stmt_shape(#[trigger] sa[j]) == StmtShape::Accepting(
        seq![acc_names(g, g.next_index as nat)[j]],
    )
    &&& se.len() == g.edges.len()
    &&& forall|j: int| 0 <= j < se.len() ==> stmt_shape(#[trigger] se[j]) == StmtShape::Transitions(
        g.states[g.edges[j].from].name,
        infos_shapes(g.edges[j].infos),
        g.states[g.edges[j].to].name,
    )
}

proof fn lemma_split_printed(g: GraphModel, sts: Seq<StmtSyntax>)
    requires
        sts.map_values(|st: StmtSyntax| stmt_shape(st)) == printed_list(g).map_values(|p: Printed| printed_shape(p)),
    ensures
        sts.len() >= 1,
        split_as_printed(
            g,
            sts[0],
            sts.subrange(1, 1 + acc_names(g, g.next_index as nat).len() as int),
            sts.subrange(1 + acc_names(g, g.next_index as nat).len() as int, sts.len() as int),
        ),
        sts =~= seq![sts[0]] + (sts.subrange(1, 1 + acc_names(g, g.next_index as nat).len() as int) + sts.subrange(
            1 + acc_names(g, g.next_index as nat).len() as int,
            sts.len() as int,
        )),
{
    let ps = printed_list(g);
    let head = seq![Printed::Named(initial_word(), g.states[0].name)];
    let accp = acc_printed(g, g.next_index as nat);
    let edgep = edges_printed(g, g.edges);
    let names = acc_names(g, g.next_index as nat);
    lemma_acc_names(g, g.next_index as nat);
    lemma_edges_flat(g, g.edges);
    let la = accp.len() as int;
    let le = edgep.len() as int;
    assert(ps.len() == 1 + la + le);
    let shapes = sts.map_values(|st: StmtSyntax| stmt_shape(st));
    let pshapes = ps.map_values(|p: Printed| printed_shape(p));
    assert(sts.len() == ps.len()) by {
        assert(shapes.len() == sts.len() && pshapes.len() == ps.len());
    }
    assert forall|j: int| 0 <= j < ps.len() implies stmt_shape(#[trigger] sts[j]) == printed_shape(ps[j]) by {
        assert(shapes[j] == pshapes[j]);
    }
    assert(initial_word() != accepting_word()) by {
        assert(initial_word().len() != accepting_word().len());
    }
    let sa = sts.subrange(1, 1 + la);
    let se = sts.subrange(1 + la, sts.len() as int);
    assert(ps[0] == head[0]);
    assert(stmt_shape(sts[0]) == printed_shape(ps[0]));
    assert forall|j: int| 0 <= j < sa.len() implies stmt_shape(#[trigger] sa[j]) == StmtShape::Accepting(seq![names[j]]) by {
        assert(sa[j] == sts[1 + j]);
        assert(ps[1 + j] == accp[j]);
        assert(stmt_shape(sts[1 + j]) == printed_shape(ps[1 + j]));
    }
    assert forall|j: int| 0 <= j < se.len() implies stmt_shape(#[trigger] se[j]) == StmtShape::Transitions(
        g.states[g.edges[j].from].name,
        infos_shapes(g.edges[j].infos),
        g.states[g.edges[j].to].name,
    ) by {
        assert(se[j] == sts[1 + la + j]);
        assert(ps[1 + la + j] == edgep[j]);
        assert(stmt_shape(sts[1 + la + j]) == printed_shape(ps[1 + la + j]));
    }
}

/// The number of writing tapes read back from the text of a graph is that of the graph.
proof fn lemma_first_trans_printed(g: GraphModel, st0: StmtSyntax, sa: Seq<StmtSyntax>, se: Seq<StmtSyntax>)
    requires
        reads_back(g),
        split_as_printed(g, st0, sa, se),
    ensures
        build(seq![st0] + (sa + se)) == apply_stmts(empty_graph(g.k), seq![st0] + (sa + se)),
{
    let pre = seq![st0] + sa;
    assert forall|j: int| 0 <= j < pre.len() implies !(#[trigger] pre[j] is Transitions) by {
        if j == 0 {
            assert(stmt_shape(st0) is Initial);
        } else {
            assert(pre[j] == sa[j - 1]);
            assert(stmt_shape(sa[j - 1]) is Accepting);
        }
    }
    lemma_first_trans_skip(pre, se);
    assert(seq![st0] + (sa + se) =~= pre + se);
    if g.edges.len() == 0 {
        assert(se =~= Seq::<StmtSyntax>::empty());
    } else {
        let e0 = g.edges[0];
        assert(g.edge_wf(e0));
        assert(stmt_shape(se[0]) == StmtShape::Transitions(
            g.states[e0.from].name,
            infos_shapes(e0.infos),
            g.states[e0.to].name,
        ));
        match se[0] {
            StmtSyntax::Transitions { alts, .. } => {
                assert(alts.map_values(|tr: TransSyntax| trans_shape(tr)) == infos_shapes(e0.infos));
                assert(alts.len() == e0.infos.len()) by {
                    assert(alts.map_values(|tr: TransSyntax| trans_shape(tr)).len() == infos_shapes(e0.infos).len());
                }
                assert(alts.map_values(|tr: TransSyntax| trans_shape(tr))[0] == infos_shapes(e0.infos)[0]);
                assert(first_trans(se) == Some(alts[0]));
                assert(mult_valid(g.edges[0].infos[0]->MultipleTapes_0));
                assert(alts[0].reads.len() == g.k + 1);
            },
            _ => {},
        }
    }
}

/// Applying the statements read back from the text of a graph, on a graph with its default
/// initial state, gives the graph.
proof fn lemma_apply_printed(g: GraphModel, st0: StmtSyntax, sa: Seq<StmtSyntax>, se: Seq<StmtSyntax>)
    requires
        reads_back(g),
        split_as_printed(g, st0, sa, se),
    ensures
        apply_stmts(empty_graph(g.k), seq![st0] + (sa + se)) == Ok::<GraphModel, crate::turing_parser::BuildErrorModel>(g),
{
    let names = acc_names(g, g.next_index as nat);
    lemma_acc_names(g, g.next_index as nat);
    let start = start_graph(g);
    lemma_initial_phase(g, st0);
    assert((seq![st0] + (sa + se))[0] == st0);
    assert((seq![st0] + (sa + se)).drop_first() =~= sa + se);
    lemma_apply_append(start, sa, se);
    lemma_acc_phase(start, sa, names);
    let a = with_states(start, names, TuringStateType::Accepting);
    assert(states_ok(start)) by {
        assert(start.states.contains_key(0));
    }
    lemma_with_states(start, names, TuringStateType::Accepting);
    assert(names_read(a, g, 0) == a) by {
        assert(g.edges.take(0) =~= Seq::<EdgeModel>::empty());
        assert(endpoint_names(g, g.edges.take(0)) =~= Seq::<Seq<char>>::empty());
    }
    assert((GraphModel { edges: g.edges.take(0), ..names_read(a, g, 0) }) == a) by {
        assert(g.edges.take(0) =~= Seq::<EdgeModel>::empty());
        assert(a.edges =~= Seq::<EdgeModel>::empty());
    }
    assert(se.skip(0) =~= se);
    lemma_edges_phase(g, a, se, 0);
}

/// The text that [`graph_to_string`](crate::turing_parser::graph_to_string) writes of a graph
/// reads back as that graph, when its names and symbols can be written, its transitions pass
/// the checks of a transition, reading gives its states their ids, and it has one writing
/// tape if it has no transition (see [`reads_back`]).
pub proof fn lemma_text_reads_back(g: GraphModel)
    requires
        reads_back(g),
    ensures
        text_syntax(graph_text(g)) matches Ok(sts) && build(sts) == Ok::<
            GraphModel,
            crate::turing_parser::BuildErrorModel,
        >(g),
{
    lemma_graph_text_syntax(g);
    let sts = text_syntax(graph_text(g))->Ok_0;
    lemma_split_printed(g, sts);
    let la = acc_names(g, g.next_index as nat).len() as int;
    let st0 = sts[0];
    let sa = sts.subrange(1, 1 + la);
    let se = sts.subrange(1 + la, sts.len() as int);
    lemma_first_trans_printed(g, st0, sa, se);
    lemma_apply_printed(g, st0, sa, se);
}

} // verus!
