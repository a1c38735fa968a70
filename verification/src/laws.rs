//! Global laws of the formatter, proved once over the scanner and
//! assembler specifications.
//!
//! The cursor-monotonicity law of the locator lives next to the locator
//! itself (`locate::lemma_cursor_monotonic`), as does the shape law of its
//! result lists (`locate::lemma_ranges_shape`); this module holds the laws
//! that relate the assembled output to the scanned line: content
//! preservation, the identity of the assembler on lines whose separators
//! are already canonical, and punctuation adjacency.

use vstd::prelude::*;

use crate::assemble::{assemble, assemble_from, chunk};
use crate::scan::{lemma_token_at, scan, scan_from, token_at, wf_token, wf_tokens};
use crate::token::{tok_text, Token, TokenKind};

verus! {

/// The line with every space removed.
pub open spec fn strip_spaces(s: Seq<char>) -> Seq<char> {
    s.filter(|c: char| c != ' ')
}

/// The concatenation of the texts of the tokens before the sentinel.
pub open spec fn texts_from(s: Seq<char>, toks: Seq<Token>, k: int) -> Seq<char>
    decreases toks.len() - k when 0 <= k
{
    if k >= toks.len() {
        Seq::empty()
    } else if toks[k].kind == TokenKind::Eoi {
        Seq::empty()
    } else {
        tok_text(s, toks[k]) + texts_from(s, toks, k + 1)
    }
}

proof fn lemma_texts_cons(s: Seq<char>, t: Token, rest: Seq<Token>, k: int)
    requires
        0 <= k,
    ensures
        texts_from(s, seq![t] + rest, k + 1) == texts_from(s, rest, k),
    decreases rest.len() - k,
{
    let toks = seq![t] + rest;
    if k >= rest.len() {
    } else {
        assert(toks[k + 1] == rest[k]);
        lemma_texts_cons(s, t, rest, k + 1);
    }
}

/// Stripping spaces from the token texts gives the stripped remainder of
/// the line: the scan only ever drops isolated spaces between tokens.
proof fn lemma_scan_strip(s: Seq<char>, i: int)
    requires
        0 <= i <= s.len(),
        s.len() <= usize::MAX,
    ensures
        scan_from(s, i) matches Some(toks) ==> strip_spaces(texts_from(s, toks, 0))
            == strip_spaces(s.subrange(i, s.len() as int)),
    decreases s.len() - i,
{
    broadcast use vstd::seq_lib::group_filter_ensures;
    broadcast use Seq::lemma_filter_prepend;
    broadcast use Seq::filter_distributes_over_add;

    reveal(Seq::filter);
    let pred = |c: char| c != ' ';
    if i == s.len() {
        match scan_from(s, i) {
            Some(toks) => {
                assert(s.subrange(i, s.len() as int) =~= Seq::<char>::empty());
                assert(Seq::<char>::empty().filter(pred) =~= Seq::<char>::empty());
            },
            None => {},
        }
    } else if s[i] == ' ' && (i + 1 == s.len() || s[i + 1] != ' ') {
        lemma_scan_strip(s, i + 1);
        match scan_from(s, i) {
            Some(toks) => {
                let tail = s.subrange(i + 1, s.len() as int);
                assert(s.subrange(i, s.len() as int) =~= seq![s[i]] + tail);
                assert((seq![s[i]] + tail).filter(pred) == Seq::<char>::empty() + tail.filter(
                    pred,
                ));
                assert(Seq::<char>::empty() + tail.filter(pred) =~= tail.filter(pred));
            },
            None => {},
        }
    } else {
        match token_at(s, i) {
            None => {},
            Some(t) => {
                lemma_token_at(s, i);
                lemma_scan_strip(s, t.end as int);
                match scan_from(s, t.end as int) {
                    None => {},
                    Some(rest) => {
                        let toks = seq![t] + rest;
                        lemma_texts_cons(s, t, rest, 0);
                        assert(texts_from(s, toks, 0) == tok_text(s, t) + texts_from(s, rest, 0));
                        let tail = s.subrange(t.end as int, s.len() as int);
                        assert(s.subrange(i, s.len() as int) =~= tok_text(s, t) + tail);
                        assert((tok_text(s, t) + tail).filter(pred) == tok_text(s, t).filter(pred)
                            + tail.filter(pred));
                        assert((tok_text(s, t) + texts_from(s, rest, 0)).filter(pred) == tok_text(
                            s,
                            t,
                        ).filter(pred) + texts_from(s, rest, 0).filter(pred));
                    },
                }
            },
        }
    }
}

/// Stripping spaces from the assembled suffix gives the stripped token
/// texts: every separator the rule table may emit is a space or nothing.
proof fn lemma_assemble_strip(s: Seq<char>, toks: Seq<Token>, k: int, prev: Token)
    requires
        0 <= k,
    ensures
        strip_spaces(assemble_from(s, toks, k, prev)) == strip_spaces(texts_from(s, toks, k)),
    decreases toks.len() - k,
{
    broadcast use Seq::lemma_filter_prepend;
    broadcast use Seq::filter_distributes_over_add;

    reveal(Seq::filter);
    let pred = |c: char| c != ' ';
    if k >= toks.len() || toks[k].kind == TokenKind::Eoi {
    } else {
        lemma_assemble_strip(s, toks, k + 1, toks[k]);
        let text = tok_text(s, toks[k]);
        let rest_out = assemble_from(s, toks, k + 1, toks[k]);
        let rest_txt = texts_from(s, toks, k + 1);
        assert((text + rest_out).filter(pred) == text.filter(pred) + rest_out.filter(pred));
        assert((text + rest_txt).filter(pred) == text.filter(pred) + rest_txt.filter(pred));
        if chunk(s, prev, toks[k]) == seq![' '] + text {
            assert((seq![' '] + text).filter(pred) == Seq::<char>::empty() + text.filter(pred));
            assert(((seq![' '] + text) + rest_out).filter(pred) == (seq![' '] + text).filter(pred)
                + rest_out.filter(pred));
            assert(Seq::<char>::empty() + text.filter(pred) =~= text.filter(pred));
        }
    }
}

/// Content preservation: formatting never adds, removes or reorders
/// non-space characters. For every line that scans, the formatted line
/// with all spaces removed equals the original line with all spaces
/// removed.
pub proof fn lemma_content_preserved(s: Seq<char>)
    requires
        s.len() <= usize::MAX,
    ensures
        scan(s) matches Some(toks) ==> strip_spaces(assemble(s, toks)) == strip_spaces(s),
{
    broadcast use Seq::filter_distributes_over_add;

    reveal(Seq::filter);
    let pred = |c: char| c != ' ';
    lemma_scan_strip(s, 0);
    crate::scan::lemma_scan_wf(s, 0);
    match scan(s) {
        None => {},
        Some(toks) => {
            assert(s.subrange(0, s.len() as int) =~= s);
            let t0 = toks[0];
            lemma_assemble_strip(s, toks, 1, t0);
            if t0.kind == TokenKind::Eoi {
                assert(toks.len() == 1) by {
                    if toks.len() > 1 {
                        assert(wf_token(s, toks[0]));
                    }
                }
                assert(tok_text(s, t0) =~= Seq::<char>::empty());
                assert(texts_from(s, toks, 0) == Seq::<char>::empty());
                assert(assemble(s, toks) =~= Seq::<char>::empty() + assemble_from(s, toks, 1, t0));
                assert(assemble_from(s, toks, 1, t0) == Seq::<char>::empty());
                assert(assemble(s, toks) =~= Seq::<char>::empty());
                assert(Seq::<char>::empty().filter(pred) =~= Seq::<char>::empty());
            } else {
                assert(texts_from(s, toks, 0) == tok_text(s, t0) + texts_from(s, toks, 1));
                assert(assemble(s, toks) == tok_text(s, t0) + assemble_from(s, toks, 1, t0));
                assert((tok_text(s, t0) + assemble_from(s, toks, 1, t0)).filter(pred) == tok_text(
                    s,
                    t0,
                ).filter(pred) + assemble_from(s, toks, 1, t0).filter(pred));
                assert((tok_text(s, t0) + texts_from(s, toks, 1)).filter(pred) == tok_text(
                    s,
                    t0,
                ).filter(pred) + texts_from(s, toks, 1).filter(pred));
            }
        },
    }
}

/// The separators of a scanned line already agree with the rule table:
/// the line starts at its first token, every emitted piece reproduces the
/// original slice between the neighbouring token ends, and no dropped
/// space trails before the sentinel.
pub open spec fn canonical_separators(s: Seq<char>, toks: Seq<Token>) -> bool {
    &&& toks.len() >= 1
    &&& toks[0].start == 0
    &&& forall|k: int|
        1 <= k < toks.len() && toks[k].kind != TokenKind::Eoi ==> #[trigger] chunk(
            s,
            toks[k - 1],
            toks[k],
        ) == s.subrange(toks[k - 1].end as int, toks[k].end as int)
    &&& forall|k: int|
        1 <= k < toks.len() && (#[trigger] toks[k]).kind == TokenKind::Eoi ==> toks[k].start
            == toks[k - 1].end
}

proof fn lemma_assemble_id_from(s: Seq<char>, toks: Seq<Token>, k: int)
    requires
        s.len() <= usize::MAX,
        wf_tokens(s, toks),
        canonical_separators(s, toks),
        1 <= k <= toks.len() - 1,
    ensures
        assemble_from(s, toks, k, toks[k - 1]) == s.subrange(
            toks[k - 1].end as int,
            s.len() as int,
        ),
    decreases toks.len() - k,
{
    assert(toks.last() == crate::scan::tok(TokenKind::Eoi, s.len() as int, s.len() as int));
    if toks[k].kind == TokenKind::Eoi {
        assert(k == toks.len() - 1) by {
            if k < toks.len() - 1 {
                assert(wf_token(s, toks[k]));
            }
        }
        assert(toks[k].start == toks[k - 1].end);
        assert(assemble_from(s, toks, k, toks[k - 1]) == Seq::<char>::empty());
        assert(toks[k - 1].end == s.len());
        assert(s.subrange(s.len() as int, s.len() as int) =~= Seq::<char>::empty());
    } else {
        assert(k < toks.len() - 1);
        assert(wf_token(s, toks[k]));
        assert(wf_token(s, toks[k - 1]));
        let j = k - 1;
        assert(crate::scan::gap_ok(s, toks[j], toks[j + 1]));
        lemma_assemble_id_from(s, toks, k + 1);
        assert(chunk(s, toks[k - 1], toks[k]) == s.subrange(
            toks[k - 1].end as int,
            toks[k].end as int,
        ));
        lemma_subrange_stitch(s, toks[k - 1].end as int, toks[k].end as int, s.len() as int);
        assert(assemble_from(s, toks, k, toks[k - 1]) == chunk(s, toks[k - 1], toks[k])
            + assemble_from(s, toks, k + 1, toks[k]));
    }
}

proof fn lemma_subrange_stitch(s: Seq<char>, a: int, b: int, c: int)
    requires
        0 <= a <= b <= c <= s.len(),
    ensures
        s.subrange(a, b) + s.subrange(b, c) == s.subrange(a, c),
{
    assert(s.subrange(a, b) + s.subrange(b, c) =~= s.subrange(a, c));
}

/// One direction of idempotence: a line whose scan already carries
/// exactly the separators the rule table emits is returned unchanged by
/// the assembler.
pub proof fn lemma_formatted_line_unchanged(s: Seq<char>, toks: Seq<Token>)
    requires
        s.len() <= usize::MAX,
        scan(s) == Some(toks),
        canonical_separators(s, toks),
    ensures
        assemble(s, toks) == s,
{
    crate::scan::lemma_scan_wf(s, 0);
    assert(toks.last() == crate::scan::tok(TokenKind::Eoi, s.len() as int, s.len() as int));
    if toks.len() == 1 {
        assert(toks[0].kind == TokenKind::Eoi && toks[0].start == 0);
        assert(s.len() == 0);
        assert(tok_text(s, toks[0]) =~= Seq::<char>::empty());
        assert(assemble(s, toks) =~= s);
    } else {
        assert(wf_token(s, toks[0]));
        lemma_assemble_id_from(s, toks, 1);
        assert(tok_text(s, toks[0]) == s.subrange(0, toks[0].end as int));
        assert(s.subrange(0, toks[0].end as int) + s.subrange(toks[0].end as int, s.len() as int)
            =~= s);
    }
}

/// The output pieces for the tokens `a ..= b - 1`, each with its
/// separator.
pub open spec fn chunks_between(s: Seq<char>, toks: Seq<Token>, a: int, b: int) -> Seq<char>
    decreases b - a when 1 <= a
{
    if a >= b {
        Seq::empty()
    } else {
        chunk(s, toks[a - 1], toks[a]) + chunks_between(s, toks, a + 1, b)
    }
}

proof fn lemma_assemble_split(s: Seq<char>, toks: Seq<Token>, k: int, b: int)
    requires
        1 <= k <= b,
        b <= toks.len(),
        forall|j: int| k <= j < b ==> (#[trigger] toks[j]).kind != TokenKind::Eoi,
    ensures
        assemble_from(s, toks, k, toks[k - 1]) == chunks_between(s, toks, k, b) + assemble_from(
            s,
            toks,
            b,
            toks[b - 1],
        ),
    decreases b - k,
{
    if k == b {
        assert(Seq::<char>::empty() + assemble_from(s, toks, b, toks[b - 1]) =~= assemble_from(
            s,
            toks,
            b,
            toks[b - 1],
        ));
    } else {
        lemma_assemble_split(s, toks, k + 1, b);
        let c0 = chunk(s, toks[k - 1], toks[k]);
        assert(c0 + (chunks_between(s, toks, k + 1, b) + assemble_from(s, toks, b, toks[b - 1]))
            =~= (c0 + chunks_between(s, toks, k + 1, b)) + assemble_from(s, toks, b, toks[b - 1]));
    }
}

proof fn lemma_chunks_last(s: Seq<char>, toks: Seq<Token>, a: int, b: int)
    requires
        1 <= a < b,
    ensures
        chunks_between(s, toks, a, b) == chunks_between(s, toks, a, b - 1) + chunk(
            s,
            toks[b - 2],
            toks[b - 1],
        ),
    decreases b - a,
{
    if a == b - 1 {
        assert(chunks_between(s, toks, a, b - 1) == Seq::<char>::empty());
        assert(chunks_between(s, toks, a + 1, b) == Seq::<char>::empty());
        assert(chunk(s, toks[a - 1], toks[a]) + Seq::<char>::empty() =~= Seq::<char>::empty()
            + chunk(s, toks[a - 1], toks[a]));
    } else {
        lemma_chunks_last(s, toks, a + 1, b);
        let c0 = chunk(s, toks[a - 1], toks[a]);
        assert(c0 + (chunks_between(s, toks, a + 1, b - 1) + chunk(s, toks[b - 2], toks[b - 1]))
            =~= (c0 + chunks_between(s, toks, a + 1, b - 1)) + chunk(s, toks[b - 2], toks[b - 1]));
    }
}

/// Punctuation adjacency: in the assembled output, the text of a `Punct`
/// or `FwPunct` token is emitted with no separator of its own, and the
/// output in front of it ends in a non-space character - unless the token
/// right before it is a multi-space run, which is the one construct the
/// rules reproduce verbatim even next to punctuation.
pub proof fn lemma_no_space_before_punct(s: Seq<char>, toks: Seq<Token>, k: int)
    requires
        wf_tokens(s, toks),
        1 <= k < toks.len() - 1,
        toks[k].kind == TokenKind::Punct || toks[k].kind == TokenKind::FwPunct,
        toks[k - 1].kind != TokenKind::MultiSpace,
    ensures
        ({
            let before = tok_text(s, toks[0]) + chunks_between(s, toks, 1, k);
            &&& assemble(s, toks) == before + (tok_text(s, toks[k]) + assemble_from(
                s,
                toks,
                k + 1,
                toks[k],
            ))
            &&& before.len() > 0
            &&& before[before.len() - 1] != ' '
        }),
{
    let before = tok_text(s, toks[0]) + chunks_between(s, toks, 1, k);
    assert forall|j: int| 1 <= j < k implies (#[trigger] toks[j]).kind != TokenKind::Eoi by {
        assert(wf_token(s, toks[j]));
    }
    lemma_assemble_split(s, toks, 1, k);
    assert(wf_token(s, toks[k]));
    assert(wf_token(s, toks[k - 1]));
    assert(assemble_from(s, toks, k, toks[k - 1]) == chunk(s, toks[k - 1], toks[k])
        + assemble_from(s, toks, k + 1, toks[k]));
    assert(chunk(s, toks[k - 1], toks[k]) == tok_text(s, toks[k]));
    assert(assemble(s, toks) == tok_text(s, toks[0]) + assemble_from(s, toks, 1, toks[0]));
    assert(tok_text(s, toks[0]) + (chunks_between(s, toks, 1, k) + (tok_text(s, toks[k])
        + assemble_from(s, toks, k + 1, toks[k]))) =~= before + (tok_text(s, toks[k])
        + assemble_from(s, toks, k + 1, toks[k])));
    assert(wf_token(s, toks[0]));
    if k == 1 {
        assert(chunks_between(s, toks, 1, 1) == Seq::<char>::empty());
        assert(before =~= tok_text(s, toks[0]));
        assert(before[before.len() - 1] == s[toks[0].end - 1]);
    } else {
        lemma_chunks_last(s, toks, 1, k);
        let last_chunk = chunk(s, toks[k - 2], toks[k - 1]);
        let text = tok_text(s, toks[k - 1]);
        assert(text.len() > 0);
        assert(last_chunk.len() > 0 && last_chunk[last_chunk.len() - 1] == s[toks[k - 1].end - 1]);
        assert(before =~= (tok_text(s, toks[0]) + chunks_between(s, toks, 1, k - 1)) + last_chunk);
        assert(before[before.len() - 1] == last_chunk[last_chunk.len() - 1]);
    }
}

} // verus!
