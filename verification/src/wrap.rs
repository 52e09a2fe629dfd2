//! Line breaking for the text layout: content is tokenized into line breaks
//! and text runs, runs are split after separator characters, and the token
//! stream is wrapped to a maximum width.

use vstd::prelude::*;

verus! {

use crate::resolve::lemma_take_push;

/// Whether a character counts as whitespace.
pub uninterp spec fn spec_is_whitespace(c: char) -> bool;

/// Relies on `char::is_whitespace`: the result depends on the character
/// alone; a space and a line feed count as whitespace.
pub assume_specification[ char::is_whitespace ](c: char) -> (r: bool)
    ensures
        r == spec_is_whitespace(c),
        c == ' ' ==> r,
        c == '\n' ==> r,
;

/// The length of a character sequence without its trailing whitespace.
pub open spec fn spec_trim_end_len(s: Seq<char>) -> int
    decreases s.len(),
{
    if s.len() == 0 {
        0
    } else if spec_is_whitespace(s.last()) {
        spec_trim_end_len(s.drop_last())
    } else {
        s.len() as int
    }
}

/// One token of a line-broken text: a hard line break, or a run of text.
#[derive(Clone, Debug)]
pub enum BreakToken {
    Line,
    Token(Vec<char>),
}

/// A token at the specification level: `None` is a line break.
pub open spec fn token_view(t: BreakToken) -> Option<Seq<char>> {
    match t {
        BreakToken::Line => None,
        BreakToken::Token(s) => Some(s@),
    }
}

/// The specification-level view of a token list.
pub open spec fn tokens_view(v: Seq<BreakToken>) -> Seq<Option<Seq<char>>> {
    v.map_values(|t: BreakToken| token_view(t))
}

/// The width a token occupies when it is appended to a line.
pub open spec fn spec_token_width(t: Option<Seq<char>>) -> int {
    match t {
        None => 0,
        Some(s) => s.len() as int,
    }
}

/// The width a token requires to fit: trailing whitespace may overhang.
pub open spec fn spec_token_end_width(t: Option<Seq<char>>) -> int {
    match t {
        None => 0,
        Some(s) => spec_trim_end_len(s),
    }
}

impl BreakToken {
    /// The full width of the token in characters.
    pub fn width(&self) -> (r: usize)
        ensures
            r as int == spec_token_width(token_view(*self)),
    {
        match self {
            BreakToken::Line => 0,
            BreakToken::Token(s) => s.len(),
        }
    }

    /// The width of the token without its trailing whitespace.
    pub fn end_width(&self) -> (r: usize)
        ensures
            r as int == spec_token_end_width(token_view(*self)),
    {
        match self {
            BreakToken::Line => 0,
            BreakToken::Token(s) => {
                let mut i: usize = s.len();
                proof {
                    assert(s@.take(s@.len() as int) =~= s@);
                }
                while i > 0 && s[i - 1].is_whitespace()
                    invariant
                        i <= s.len(),
                        spec_trim_end_len(s@) == spec_trim_end_len(s@.take(i as int)),
                        forall|j: int| i <= j < s@.len() ==> spec_is_whitespace(#[trigger] s@[j]),
                    decreases i,
                {
                    proof {
                        assert(s@.take(i as int).last() == s@[i - 1]);
                        assert(s@.take(i as int).drop_last() =~= s@.take(i as int - 1));
                    }
                    i -= 1;
                }
                proof {
                    if i > 0 {
                        assert(s@.take(i as int).last() == s@[i - 1]);
                        assert(spec_trim_end_len(s@.take(i as int)) == i);
                    }
                }
                i
            },
        }
    }

    /// A hard line break token.
    pub fn line() -> (r: BreakToken)
        ensures
            token_view(r) is None,
    {
        BreakToken::Line
    }

    /// A text run token.
    pub fn token(s: Vec<char>) -> (r: BreakToken)
        ensures
            token_view(r) == Some(s@),
    {
        BreakToken::Token(s)
    }
}

/// The token stream of a text, before the empty-input case: each line feed is
/// a break, each maximal run between breaks is a text token.
pub open spec fn tok_model(s: Seq<char>) -> Seq<Option<Seq<char>>>
    decreases s.len(),
{
    if s.len() == 0 {
        Seq::empty()
    } else {
        let prev = tok_model(s.drop_last());
        let c = s.last();
        if c == '\n' {
            prev + seq![None::<Seq<char>>]
        } else if s.len() >= 2 && s[s.len() - 2] != '\n' {
            prev.update(prev.len() - 1, Some(prev.last()->0 + seq![c]))
        } else {
            prev + seq![Some(seq![c])]
        }
    }
}

/// The token stream of a text; an empty text is a single empty run.
pub open spec fn tokenize_model(s: Seq<char>) -> Seq<Option<Seq<char>>> {
    if s.len() == 0 {
        seq![Some(Seq::<char>::empty())]
    } else {
        tok_model(s)
    }
}

/// Tokenize a text into line breaks and maximal text runs.
pub fn tokenize_lines(s: &Vec<char>) -> (r: Vec<BreakToken>)
    ensures
        tokens_view(r@) == tokenize_model(s@),
{
    let mut out: Vec<BreakToken> = Vec::new();
    if s.len() == 0 {
        out.push(BreakToken::Token(Vec::new()));
        proof {
            assert(tokens_view(out@) =~= tokenize_model(s@));
        }
        return out;
    }
    let mut cur: Vec<char> = Vec::new();
    let mut i: usize = 0;
    while i < s.len()
        invariant
            i <= s.len(),
            s@.len() > 0,
            (cur@.len() > 0) == (i > 0 && s@[i as int - 1] != '\n'),
            cur@.len() > 0 ==> tok_model(s@.take(i as int)) == tokens_view(out@) + seq![
                Some(cur@),
            ],
            cur@.len() == 0 ==> tok_model(s@.take(i as int)) == tokens_view(out@),
        decreases s.len() - i,
    {
        proof {
            lemma_take_push(s@, i as int);
            assert(s@.take(i as int).push(s@[i as int]).drop_last() =~= s@.take(i as int));
        }
        let ghost out0 = out@;
        let ghost cur0 = cur@;
        let c = s[i];
        if c == '\n' {
            if cur.len() > 0 {
                out.push(BreakToken::Token(cur));
                cur = Vec::new();
                proof {
                    assert(tokens_view(out@) =~= tokens_view(out0).push(Some(cur0)));
                }
            }
            out.push(BreakToken::Line);
            proof {
                assert(tokens_view(out@) =~= tokens_view(out@.drop_last()).push(
                    None::<Seq<char>>,
                ));
                assert(tok_model(s@.take(i as int + 1)) =~= tokens_view(out@));
            }
        } else {
            cur.push(c);
            proof {
                if cur0.len() > 0 {
                    let prev = tok_model(s@.take(i as int));
                    assert(prev.last() == Some(cur0));
                    assert(cur0 + seq![c] =~= cur@);
                    assert(prev.update(prev.len() - 1, Some(cur0 + seq![c])) =~= tokens_view(
                        out@,
                    ) + seq![Some(cur@)]);
                    assert(tok_model(s@.take(i as int + 1)) =~= tokens_view(out@) + seq![
                        Some(cur@),
                    ]);
                } else {
                    assert(cur@ =~= seq![c]);
                    assert(tok_model(s@.take(i as int + 1)) =~= tokens_view(out@) + seq![
                        Some(cur@),
                    ]);
                }
            }
        }
        i += 1;
    }
    proof {
        assert(s@.take(s@.len() as int) =~= s@);
    }
    if cur.len() > 0 {
        let ghost out0 = out@;
        let ghost cur0 = cur@;
        out.push(BreakToken::Token(cur));
        proof {
            assert(tokens_view(out@) =~= tokens_view(out0).push(Some(cur0)));
        }
    }
    out
}

/// The index of the first separator character, or the length when none
/// occurs.
pub open spec fn sep_prefix_len(s: Seq<char>, seps: Seq<char>) -> int
    decreases s.len(),
{
    if s.len() == 0 {
        0
    } else if seps.contains(s[0]) {
        0
    } else {
        1 + sep_prefix_len(s.skip(1), seps)
    }
}

/// The index of the first separator is pinned by what stands before it.
pub proof fn lemma_sep_prefix_len(s: Seq<char>, seps: Seq<char>, k: int)
    requires
        0 <= k <= s.len(),
        forall|j: int| 0 <= j < k ==> !seps.contains(#[trigger] s[j]),
        k < s.len() ==> seps.contains(s[k]),
    ensures
        sep_prefix_len(s, seps) == k,
    decreases k,
{
    if k == 0 {
    } else {
        assert(!seps.contains(s[0]));
        assert(forall|j: int| 0 <= j < k - 1 ==> !seps.contains(#[trigger] s.skip(1)[j]));
        lemma_sep_prefix_len(s.skip(1), seps, k - 1);
    }
}

/// The pieces of one text run, split after each separator character: every
/// piece ends with the separator that closed it, and a run that ends with a
/// separator contributes a final empty piece.
pub open spec fn split_token(s: Seq<char>, seps: Seq<char>) -> Seq<Seq<char>>
    decreases s.len(),
{
    let p = sep_prefix_len(s, seps);
    if 0 <= p < s.len() {
        seq![s.take(p + 1)] + split_token(s.skip(p + 1), seps)
    } else {
        seq![s]
    }
}

/// The token stream with every text run split after separator characters;
/// line breaks pass through.
pub open spec fn split_tokens_model(
    toks: Seq<Option<Seq<char>>>,
    seps: Seq<char>,
) -> Seq<Option<Seq<char>>>
    decreases toks.len(),
{
    if toks.len() == 0 {
        Seq::empty()
    } else {
        split_tokens_model(toks.drop_last(), seps) + (match toks.last() {
            None => seq![None::<Seq<char>>],
            Some(t) => split_token(t, seps).map_values(|p: Seq<char>| Some(p)),
        })
    }
}

/// Whether a character stands in the separator list.
fn contains_char(seps: &Vec<char>, c: char) -> (r: bool)
    ensures
        r == seps@.contains(c),
{
    let mut i: usize = 0;
    while i < seps.len()
        invariant
            i <= seps.len(),
            forall|j: int| 0 <= j < i ==> seps@[j] != c,
        decreases seps.len() - i,
    {
        if seps[i] == c {
            return true;
        }
        i += 1;
    }
    false
}

/// The views of a list of character vectors.
pub open spec fn pieces_view(v: Seq<Vec<char>>) -> Seq<Seq<char>> {
    v.map_values(|p: Vec<char>| p@)
}

/// Split one text run after each separator character.
fn split_one(s: &Vec<char>, seps: &Vec<char>) -> (r: Vec<Vec<char>>)
    ensures
        pieces_view(r@) == split_token(s@, seps@),
{
    let mut pieces: Vec<Vec<char>> = Vec::new();
    let mut cur: Vec<char> = Vec::new();
    let mut j: usize = 0;
    let mut i: usize = 0;
    proof {
        assert(s@.skip(0) =~= s@);
        assert(pieces_view(pieces@) + split_token(s@.skip(0), seps@) =~= split_token(s@, seps@));
    }
    while i < s.len()
        invariant
            j <= i <= s.len(),
            cur@ == s@.subrange(j as int, i as int),
            forall|k: int| j <= k < i ==> !seps@.contains(#[trigger] s@[k]),
            split_token(s@, seps@) == pieces_view(pieces@) + split_token(
                s@.skip(j as int),
                seps@,
            ),
        decreases s.len() - i,
    {
        let c = s[i];
        if contains_char(seps, c) {
            cur.push(c);
            proof {
                assert(forall|k: int|
                    0 <= k < i - j ==> !seps@.contains(#[trigger] s@.skip(j as int)[k]));
                lemma_sep_prefix_len(s@.skip(j as int), seps@, i - j);
                assert(s@.skip(j as int).take(i - j + 1) =~= s@.subrange(j as int, i as int + 1));
                assert(cur@ =~= s@.subrange(j as int, i as int + 1));
                assert(s@.skip(j as int).skip(i - j + 1) =~= s@.skip(i as int + 1));
            }
            let ghost pieces0 = pieces@;
            let ghost cur_v = cur@;
            pieces.push(cur);
            cur = Vec::new();
            proof {
                assert(pieces_view(pieces@) =~= pieces_view(pieces0).push(cur_v));
                assert(split_token(s@, seps@) =~= pieces_view(pieces@) + split_token(
                    s@.skip(i as int + 1),
                    seps@,
                ));
                assert(cur@ =~= s@.subrange(i as int + 1, i as int + 1));
            }
            j = i + 1;
        } else {
            cur.push(c);
            proof {
                assert(cur@ =~= s@.subrange(j as int, i as int + 1));
            }
        }
        i += 1;
    }
    proof {
        assert(forall|k: int|
            0 <= k < s@.len() - j ==> !seps@.contains(#[trigger] s@.skip(j as int)[k]));
        lemma_sep_prefix_len(s@.skip(j as int), seps@, s@.len() - j);
        assert(cur@ =~= s@.skip(j as int));
    }
    let ghost pieces0 = pieces@;
    let ghost cur_v = cur@;
    pieces.push(cur);
    proof {
        assert(pieces_view(pieces@) =~= pieces_view(pieces0).push(cur_v));
    }
    pieces
}

/// Split every text run of a token stream after each separator character.
pub fn split_at_separators(tokens: &Vec<BreakToken>, seps: &Vec<char>) -> (r: Vec<BreakToken>)
    ensures
        tokens_view(r@) == split_tokens_model(tokens_view(tokens@), seps@),
{
    let mut out: Vec<BreakToken> = Vec::new();
    let mut i: usize = 0;
    while i < tokens.len()
        invariant
            i <= tokens.len(),
            tokens_view(out@) == split_tokens_model(tokens_view(tokens@).take(i as int), seps@),
        decreases tokens.len() - i,
    {
        proof {
            lemma_take_push(tokens_view(tokens@), i as int);
            assert(tokens_view(tokens@)[i as int] == token_view(tokens@[i as int]));
            assert(tokens_view(tokens@).take(i as int).push(
                tokens_view(tokens@)[i as int],
            ).drop_last() =~= tokens_view(tokens@).take(i as int));
        }
        let ghost out0 = out@;
        match &tokens[i] {
            BreakToken::Line => {
                out.push(BreakToken::Line);
                proof {
                    assert(tokens_view(out@) =~= tokens_view(out0).push(None::<Seq<char>>));
                    assert(tokens_view(out@) =~= split_tokens_model(
                        tokens_view(tokens@).take(i as int + 1),
                        seps@,
                    ));
                }
            },
            BreakToken::Token(t) => {
                let pieces = split_one(t, seps);
                let ghost pieces_v = pieces@;
                let mut k: usize = 0;
                while k < pieces.len()
                    invariant
                        k <= pieces.len(),
                        pieces@ == pieces_v,
                        tokens_view(out@) == tokens_view(out0) + pieces_view(pieces_v).take(
                            k as int,
                        ).map_values(|p: Seq<char>| Some(p)),
                    decreases pieces.len() - k,
                {
                    let ghost out1 = out@;
                    let piece = pieces[k].clone();
                    proof {
                        assert(piece@ =~= pieces_v[k as int]@);
                    }
                    out.push(BreakToken::Token(piece));
                    proof {
                        lemma_take_push(pieces_view(pieces_v), k as int);
                        assert(tokens_view(out@) =~= tokens_view(out1).push(
                            Some(pieces_v[k as int]@),
                        ));
                        assert(tokens_view(out@) =~= tokens_view(out0) + pieces_view(
                            pieces_v,
                        ).take(k as int + 1).map_values(|p: Seq<char>| Some(p)));
                    }
                    k += 1;
                }
                proof {
                    assert(pieces_view(pieces_v).take(pieces_v.len() as int) =~= pieces_view(
                        pieces_v,
                    ));
                    assert(tokens_view(out@) =~= split_tokens_model(
                        tokens_view(tokens@).take(i as int + 1),
                        seps@,
                    ));
                }
            },
        }
        i += 1;
    }
    proof {
        assert(tokens_view(tokens@).take(tokens@.len() as int) =~= tokens_view(tokens@));
    }
    out
}

/// A sum that stops at the machine's largest index.
pub open spec fn sat_add(a: int, b: int) -> int {
    if a + b > usize::MAX {
        usize::MAX as int
    } else {
        a + b
    }
}

/// The token stream with break tokens inserted so that every text run fits
/// the width: a run whose width without trailing whitespace does not fit on
/// the current line is moved, unconditionally, to a fresh line.
pub open spec fn wrap_from(toks: Seq<Option<Seq<char>>>, max: int, cur: int) -> Seq<
    Option<Seq<char>>,
>
    decreases toks.len(),
{
    if toks.len() == 0 {
        Seq::empty()
    } else {
        match toks[0] {
            None => seq![None::<Seq<char>>] + wrap_from(toks.skip(1), max, 0),
            Some(t) => {
                if cur + spec_trim_end_len(t) < max {
                    seq![Some(t)] + wrap_from(toks.skip(1), max, sat_add(cur, t.len() as int))
                } else {
                    seq![None::<Seq<char>>, Some(t)] + wrap_from(
                        toks.skip(1),
                        max,
                        t.len() as int,
                    )
                }
            },
        }
    }
}

/// Insert break tokens so that every text run fits the given width.
pub fn wrap_lines_tokens(tokens: &Vec<BreakToken>, max_width: usize) -> (r: Vec<BreakToken>)
    ensures
        tokens_view(r@) == wrap_from(tokens_view(tokens@), max_width as int, 0),
{
    let mut out: Vec<BreakToken> = Vec::new();
    let mut cur: usize = 0;
    let mut i: usize = 0;
    proof {
        assert(tokens_view(tokens@).skip(0) =~= tokens_view(tokens@));
    }
    while i < tokens.len()
        invariant
            i <= tokens.len(),
            wrap_from(tokens_view(tokens@), max_width as int, 0) == tokens_view(out@)
                + wrap_from(tokens_view(tokens@).skip(i as int), max_width as int, cur as int),
        decreases tokens.len() - i,
    {
        proof {
            assert(tokens_view(tokens@).skip(i as int)[0] == token_view(tokens@[i as int]));
            assert(tokens_view(tokens@).skip(i as int).skip(1) =~= tokens_view(tokens@).skip(
                i as int + 1,
            ));
        }
        let ghost out0 = out@;
        match &tokens[i] {
            BreakToken::Line => {
                out.push(BreakToken::Line);
                cur = 0;
                proof {
                    assert(tokens_view(out@) =~= tokens_view(out0).push(None::<Seq<char>>));
                    assert(tokens_view(out0) + (seq![None::<Seq<char>>] + wrap_from(
                        tokens_view(tokens@).skip(i as int + 1),
                        max_width as int,
                        0,
                    )) =~= tokens_view(out@) + wrap_from(
                        tokens_view(tokens@).skip(i as int + 1),
                        max_width as int,
                        0,
                    ));
                }
            },
            BreakToken::Token(t) => {
                let tok = BreakToken::Token(t.clone());
                proof {
                    assert(token_view(tok) == Some(t@));
                }
                let ew = tok.end_width();
                let fits = cur < max_width && ew < max_width - cur;
                if fits {
                    let w = tok.width();
                    out.push(tok);
                    cur = cur.saturating_add(w);
                    proof {
                        assert(tokens_view(out@) =~= tokens_view(out0).push(Some(t@)));
                        assert(cur as int == sat_add(out0.len() - out0.len(), 0) + cur as int);
                        assert(tokens_view(out0) + (seq![Some(t@)] + wrap_from(
                            tokens_view(tokens@).skip(i as int + 1),
                            max_width as int,
                            cur as int,
                        )) =~= tokens_view(out@) + wrap_from(
                            tokens_view(tokens@).skip(i as int + 1),
                            max_width as int,
                            cur as int,
                        ));
                    }
                } else {
                    let w = tok.width();
                    out.push(BreakToken::Line);
                    out.push(tok);
                    cur = w;
                    proof {
                        assert(tokens_view(out@) =~= tokens_view(out0).push(
                            None::<Seq<char>>,
                        ).push(Some(t@)));
                        assert(tokens_view(out0) + (seq![None::<Seq<char>>, Some(t@)]
                            + wrap_from(
                            tokens_view(tokens@).skip(i as int + 1),
                            max_width as int,
                            cur as int,
                        )) =~= tokens_view(out@) + wrap_from(
                            tokens_view(tokens@).skip(i as int + 1),
                            max_width as int,
                            cur as int,
                        ));
                    }
                }
            },
        }
        i += 1;
    }
    proof {
        assert(tokens_view(tokens@).skip(tokens@.len() as int) =~= Seq::<
            Option<Seq<char>>,
        >::empty());
        assert(tokens_view(out@) + Seq::<Option<Seq<char>>>::empty() =~= tokens_view(out@));
    }
    out
}

/// The display lines of a token stream: break tokens separate lines, text
/// runs concatenate onto the current line. A stream always yields at least
/// one line; a trailing break yields a trailing empty line.
pub open spec fn token_lines(toks: Seq<Option<Seq<char>>>) -> Seq<Seq<char>>
    decreases toks.len(),
{
    if toks.len() == 0 {
        seq![Seq::<char>::empty()]
    } else {
        let prev = token_lines(toks.drop_last());
        match toks.last() {
            None => prev + seq![Seq::<char>::empty()],
            Some(t) => prev.update(prev.len() - 1, prev.last() + t),
        }
    }
}

/// Collect a token stream into its display lines.
pub fn collect_lines(tokens: &Vec<BreakToken>) -> (r: Vec<Vec<char>>)
    ensures
        pieces_view(r@) == token_lines(tokens_view(tokens@)),
        r@.len() >= 1,
{
    let mut out: Vec<Vec<char>> = Vec::new();
    out.push(Vec::new());
    proof {
        assert(pieces_view(out@) =~= token_lines(tokens_view(tokens@).take(0)));
    }
    let mut i: usize = 0;
    while i < tokens.len()
        invariant
            i <= tokens.len(),
            out@.len() >= 1,
            pieces_view(out@) == token_lines(tokens_view(tokens@).take(i as int)),
        decreases tokens.len() - i,
    {
        proof {
            lemma_take_push(tokens_view(tokens@), i as int);
            assert(tokens_view(tokens@)[i as int] == token_view(tokens@[i as int]));
            assert(tokens_view(tokens@).take(i as int).push(
                tokens_view(tokens@)[i as int],
            ).drop_last() =~= tokens_view(tokens@).take(i as int));
        }
        let ghost out0 = out@;
        match &tokens[i] {
            BreakToken::Line => {
                out.push(Vec::new());
                proof {
                    assert(pieces_view(out@) =~= pieces_view(out0).push(Seq::<char>::empty()));
                    assert(pieces_view(out@) =~= token_lines(
                        tokens_view(tokens@).take(i as int + 1),
                    ));
                }
            },
            BreakToken::Token(t) => {
                let last_idx = out.len() - 1;
                let mut last = out.remove(last_idx);
                let ghost last0 = last@;
                let mut k: usize = 0;
                while k < t.len()
                    invariant
                        k <= t.len(),
                        last@ == last0 + t@.take(k as int),
                    decreases t.len() - k,
                {
                    last.push(t[k]);
                    proof {
                        assert(last@ =~= last0 + t@.take(k as int + 1));
                    }
                    k += 1;
                }
                proof {
                    assert(t@.take(t@.len() as int) =~= t@);
                }
                out.push(last);
                proof {
                    assert(pieces_view(out@) =~= pieces_view(out0).update(
                        out0.len() - 1,
                        last0 + t@,
                    ));
                    assert(pieces_view(out0).last() == last0);
                    assert(pieces_view(out@) =~= token_lines(
                        tokens_view(tokens@).take(i as int + 1),
                    ));
                }
            },
        }
        i += 1;
    }
    proof {
        assert(tokens_view(tokens@).take(tokens@.len() as int) =~= tokens_view(tokens@));
    }
    out
}

} // verus!
