//! The line scanner.
//!
//! Scanning is greedy and ordered: at each position the first matching rule
//! wins, with delimited spans and punctuation classes tried before the
//! generic word and catch-all fallbacks. A single space between two tokens
//! is dropped silently (its position stays visible as a one-column gap
//! between the neighbouring spans); two or more spaces form a `MultiSpace`
//! token. When no rule matches the remaining input, the whole scan fails.
//!
//! The scanner is specified by the recursive functions below over the
//! line's character sequence; `tokenize` is the executable scanner, proved
//! to return exactly what the specification describes.

use vstd::prelude::*;

use crate::token::{
    char_is_alnum, char_is_cjk, char_is_fw_punct, char_is_other, char_is_punct, is_alnum, is_cjk,
    is_fw_punct, is_other_char, is_punct, SubKind, Token, TokenKind,
};
use crate::SyntaxError;

verus! {

/// First index at or after `i` that does not hold a space.
pub open spec fn space_run_end(s: Seq<char>, i: int) -> int
    decreases s.len() - i when 0 <= i <= s.len()
{
    if i < s.len() && s[i] == ' ' {
        space_run_end(s, i + 1)
    } else {
        i
    }
}

/// First index at or after `i` that does not hold a CJK character.
pub open spec fn cjk_run_end(s: Seq<char>, i: int) -> int
    decreases s.len() - i when 0 <= i <= s.len()
{
    if i < s.len() && is_cjk(s[i]) {
        cjk_run_end(s, i + 1)
    } else {
        i
    }
}

/// First index at or after `i` that does not hold a Latin letter or digit.
pub open spec fn alnum_run_end(s: Seq<char>, i: int) -> int
    decreases s.len() - i when 0 <= i <= s.len()
{
    if i < s.len() && is_alnum(s[i]) {
        alnum_run_end(s, i + 1)
    } else {
        i
    }
}

/// First index at or after `i` that does not hold the marker character `c`.
pub open spec fn marker_run_end(s: Seq<char>, i: int, c: char) -> int
    decreases s.len() - i when 0 <= i <= s.len()
{
    if i < s.len() && s[i] == c {
        marker_run_end(s, i + 1, c)
    } else {
        i
    }
}

/// Position just after the closing delimiter `d`, scanning from `i`; a
/// backslash escapes the character after it, so an escaped delimiter does
/// not close the span. `None` when the span never closes.
pub open spec fn delim_close(s: Seq<char>, i: int, d: char) -> Option<int>
    decreases s.len() - i when 0 <= i <= s.len()
{
    if i >= s.len() {
        None
    } else if s[i] == d {
        Some(i + 1)
    } else if s[i] == '\\' {
        if i + 2 <= s.len() {
            delim_close(s, i + 2, d)
        } else {
            None
        }
    } else {
        delim_close(s, i + 1, d)
    }
}

/// `n` copies of the marker `c` stand at `i`.
pub open spec fn is_marks(s: Seq<char>, i: int, c: char, n: int) -> bool {
    forall|k: int| i <= k < i + n ==> s[k] == c
}

/// First index at or after `i` where `n` copies of `c` stand; `None` when
/// no such index exists before the end of the line.
pub open spec fn find_marks(s: Seq<char>, i: int, c: char, n: int) -> Option<int>
    decreases s.len() - i when 0 <= i <= s.len() && 1 <= n
{
    if i + n > s.len() {
        None
    } else if is_marks(s, i, c, n) {
        Some(i)
    } else {
        find_marks(s, i + 1, c, n)
    }
}

/// Extends a dotted name: from the end `e` of a letter-or-digit run, as
/// long as a dot followed by another such run comes next, consume both.
pub open spec fn doclink_ext(s: Seq<char>, e: int) -> int
    decreases s.len() - e when 0 <= e <= s.len() via doclink_ext_dec
{
    if e + 2 <= s.len() && s[e] == '.' && is_alnum(s[e + 1]) {
        doclink_ext(s, alnum_run_end(s, e + 1))
    } else {
        e
    }
}

#[via_fn]
proof fn doclink_ext_dec(s: Seq<char>, e: int) {
    if 0 <= e <= s.len() && e + 2 <= s.len() && s[e] == '.' && is_alnum(s[e + 1]) {
        lemma_alnum_run(s, e + 1);
    }
}

/// Shorthand for building a token from unbounded indices.
pub open spec fn tok(kind: TokenKind, start: int, end: int) -> Token {
    Token { kind, start: start as usize, end: end as usize }
}

/// The token the greedy scan produces at position `i`, or `None` when no
/// rule matches there. A lone space is not handled here: the caller skips
/// it silently.
pub open spec fn token_at(s: Seq<char>, i: int) -> Option<Token> {
    let c = s[i];
    if c == ' ' {
        Some(tok(TokenKind::MultiSpace, i, space_run_end(s, i)))
    } else if c == '`' {
        match delim_close(s, i + 1, '`') {
            Some(e) => Some(tok(TokenKind::SpecialBlock(SubKind::InlineCode), i, e)),
            None => Some(tok(TokenKind::Other, i, i + 1)),
        }
    } else if c == '$' {
        match delim_close(s, i + 1, '$') {
            Some(e) => Some(tok(TokenKind::SpecialBlock(SubKind::InlineMath), i, e)),
            None => None,
        }
    } else if c == '*' || c == '_' {
        let n = marker_run_end(s, i, c) - i;
        match find_marks(s, i + n, c, n) {
            Some(j) => Some(tok(TokenKind::InlineEm, i, j + n)),
            None => None,
        }
    } else if is_fw_punct(c) {
        Some(tok(TokenKind::FwPunct, i, i + 1))
    } else if is_punct(c) {
        Some(tok(TokenKind::Punct, i, i + 1))
    } else if is_cjk(c) {
        Some(tok(TokenKind::Word, i, cjk_run_end(s, i)))
    } else if is_alnum(c) {
        let w = alnum_run_end(s, i);
        if w + 2 <= s.len() && s[w] == '.' && is_alnum(s[w + 1]) {
            Some(tok(TokenKind::SpecialBlock(SubKind::DocLink), i, doclink_ext(s, w)))
        } else {
            Some(tok(TokenKind::Word, i, w))
        }
    } else if is_other_char(c) {
        Some(tok(TokenKind::Other, i, i + 1))
    } else {
        None
    }
}

/// The token sequence of the whole suffix starting at `i`, ending in the
/// end-of-input sentinel; `None` when some position cannot be matched.
pub open spec fn scan_from(s: Seq<char>, i: int) -> Option<Seq<Token>>
    decreases s.len() - i when 0 <= i <= s.len() && s.len() <= usize::MAX via scan_from_dec
{
    if i == s.len() {
        Some(seq![tok(TokenKind::Eoi, i, i)])
    } else if s[i] == ' ' && (i + 1 == s.len() || s[i + 1] != ' ') {
        scan_from(s, i + 1)
    } else {
        match token_at(s, i) {
            None => None,
            Some(t) => match scan_from(s, t.end as int) {
                None => None,
                Some(rest) => Some(seq![t] + rest),
            },
        }
    }
}

#[via_fn]
proof fn scan_from_dec(s: Seq<char>, i: int) {
    if 0 <= i <= s.len() && s.len() <= usize::MAX && i != s.len() {
        if !(s[i] == ' ' && (i + 1 == s.len() || s[i + 1] != ' ')) {
            if token_at(s, i) is Some {
                lemma_token_at(s, i);
            }
        }
    }
}

/// The scan of the whole line.
pub open spec fn scan(s: Seq<char>) -> Option<Seq<Token>> {
    scan_from(s, 0)
}

pub proof fn lemma_space_run(s: Seq<char>, i: int)
    requires
        0 <= i <= s.len(),
    ensures
        i <= space_run_end(s, i) <= s.len(),
        forall|k: int| i <= k < space_run_end(s, i) ==> s[k] == ' ',
        space_run_end(s, i) < s.len() ==> s[space_run_end(s, i)] != ' ',
    decreases s.len() - i,
{
    if i < s.len() && s[i] == ' ' {
        lemma_space_run(s, i + 1);
    }
}

pub proof fn lemma_cjk_run(s: Seq<char>, i: int)
    requires
        0 <= i <= s.len(),
    ensures
        i <= cjk_run_end(s, i) <= s.len(),
        forall|k: int| i <= k < cjk_run_end(s, i) ==> is_cjk(s[k]),
        i < s.len() && is_cjk(s[i]) ==> cjk_run_end(s, i) > i,
    decreases s.len() - i,
{
    if i < s.len() && is_cjk(s[i]) {
        lemma_cjk_run(s, i + 1);
    }
}

pub proof fn lemma_alnum_run(s: Seq<char>, i: int)
    requires
        0 <= i <= s.len(),
    ensures
        i <= alnum_run_end(s, i) <= s.len(),
        forall|k: int| i <= k < alnum_run_end(s, i) ==> is_alnum(s[k]),
        i < s.len() && is_alnum(s[i]) ==> alnum_run_end(s, i) > i,
    decreases s.len() - i,
{
    if i < s.len() && is_alnum(s[i]) {
        lemma_alnum_run(s, i + 1);
    }
}

pub proof fn lemma_marker_run(s: Seq<char>, i: int, c: char)
    requires
        0 <= i <= s.len(),
    ensures
        i <= marker_run_end(s, i, c) <= s.len(),
        forall|k: int| i <= k < marker_run_end(s, i, c) ==> s[k] == c,
        i < s.len() && s[i] == c ==> marker_run_end(s, i, c) > i,
    decreases s.len() - i,
{
    if i < s.len() && s[i] == c {
        lemma_marker_run(s, i + 1, c);
    }
}

pub proof fn lemma_delim_close(s: Seq<char>, i: int, d: char)
    requires
        0 <= i <= s.len(),
    ensures
        delim_close(s, i, d) matches Some(e) ==> i < e <= s.len() && s[e - 1] == d,
    decreases s.len() - i,
{
    if i < s.len() && s[i] != d {
        if s[i] == '\\' {
            if i + 2 <= s.len() {
                lemma_delim_close(s, i + 2, d);
            }
        } else {
            lemma_delim_close(s, i + 1, d);
        }
    }
}

pub proof fn lemma_find_marks(s: Seq<char>, i: int, c: char, n: int)
    requires
        0 <= i <= s.len(),
        1 <= n,
    ensures
        find_marks(s, i, c, n) matches Some(j) ==> i <= j && j + n <= s.len() && is_marks(
            s,
            j,
            c,
            n,
        ),
    decreases s.len() - i,
{
    if i + n <= s.len() && !is_marks(s, i, c, n) {
        lemma_find_marks(s, i + 1, c, n);
    }
}

pub proof fn lemma_doclink_ext(s: Seq<char>, e: int)
    requires
        0 < e <= s.len(),
        is_alnum(s[e - 1]),
    ensures
        e <= doclink_ext(s, e) <= s.len(),
        is_alnum(s[doclink_ext(s, e) - 1]),
    decreases s.len() - e,
{
    if e + 2 <= s.len() && s[e] == '.' && is_alnum(s[e + 1]) {
        lemma_alnum_run(s, e + 1);
        lemma_doclink_ext(s, alnum_run_end(s, e + 1));
    }
}

/// Everything the greedy match at one position guarantees about the token
/// it yields: it starts at that position, is non-empty and in bounds, and
/// each class carries its characteristic text shape.
pub proof fn lemma_token_at(s: Seq<char>, i: int)
    requires
        0 <= i < s.len(),
        s.len() <= usize::MAX,
    ensures
        token_at(s, i) matches Some(t) ==> {
            &&& t.start == i
            &&& i < t.end <= s.len()
            &&& t.kind != TokenKind::Eoi
            &&& (t.kind == TokenKind::MultiSpace <==> s[i] == ' ')
            &&& (t.kind == TokenKind::MultiSpace ==> forall|k: int|
                t.start <= k < t.end ==> s[k] == ' ')
            &&& (t.kind != TokenKind::MultiSpace ==> s[t.end - 1] != ' ')
            &&& ((t.kind matches TokenKind::SpecialBlock(_)) || t.kind == TokenKind::InlineEm
                ==> t.end - t.start >= 2)
        },
{
    let c = s[i];
    assert(' ' as u32 == 0x20);
    if c == ' ' {
        lemma_space_run(s, i);
    } else if c == '`' {
        lemma_delim_close(s, i + 1, '`');
    } else if c == '$' {
        lemma_delim_close(s, i + 1, '$');
    } else if c == '*' || c == '_' {
        lemma_marker_run(s, i, c);
        let n = marker_run_end(s, i, c) - i;
        lemma_find_marks(s, i + n, c, n);
        match find_marks(s, i + n, c, n) {
            Some(j) => {
                assert(s[j + n - 1] == c);
            },
            None => {},
        }
    } else if is_fw_punct(c) {
    } else if is_punct(c) {
    } else if is_cjk(c) {
        lemma_cjk_run(s, i);
        let e = cjk_run_end(s, i);
        assert(is_cjk(s[e - 1]));
        assert(s[e - 1] != ' ');
    } else if is_alnum(c) {
        lemma_alnum_run(s, i);
        let w = alnum_run_end(s, i);
        assert(is_alnum(s[w - 1]));
        if w + 2 <= s.len() && s[w] == '.' && is_alnum(s[w + 1]) {
            lemma_doclink_ext(s, w);
            assert(doclink_ext(s, w) >= w + 2) by {
                lemma_alnum_run(s, w + 1);
                let e2 = alnum_run_end(s, w + 1);
                lemma_doclink_ext(s, e2);
                assert(doclink_ext(s, w) == doclink_ext(s, e2));
            }
            assert(s[doclink_ext(s, w) - 1] != ' ');
        } else {
            assert(s[w - 1] != ' ');
        }
    } else {
    }
}

/// Context-free well-formedness of one produced token.
pub open spec fn wf_token(s: Seq<char>, t: Token) -> bool {
    &&& t.start < t.end <= s.len()
    &&& t.kind != TokenKind::Eoi
    &&& (t.kind == TokenKind::MultiSpace ==> t.end - t.start >= 2 && forall|k: int|
        t.start <= k < t.end ==> s[k] == ' ')
    &&& (t.kind != TokenKind::MultiSpace ==> s[t.end - 1] != ' ')
    &&& ((t.kind matches TokenKind::SpecialBlock(_)) || t.kind == TokenKind::InlineEm
        ==> t.end - t.start >= 2)
}

/// The gap between two neighbouring tokens: none, or exactly one silently
/// dropped space.
pub open spec fn gap_ok(s: Seq<char>, a: Token, b: Token) -> bool {
    ||| b.start == a.end
    ||| (b.start == a.end + 1 && s[a.end as int] == ' ')
}

/// Well-formedness of a scan result for the suffix starting at `i`: the
/// sentinel closes the sequence, every real token is well formed, the
/// first token starts at `i` or one space later, and neighbours touch or
/// are one space apart.
pub open spec fn wf_tokens_from(s: Seq<char>, i: int, toks: Seq<Token>) -> bool {
    &&& toks.len() >= 1
    &&& toks.last() == tok(TokenKind::Eoi, s.len() as int, s.len() as int)
    &&& forall|k: int| 0 <= k < toks.len() - 1 ==> wf_token(s, #[trigger] toks[k])
    &&& (toks[0].start == i || (toks[0].start == i + 1 && s[i] == ' '))
    &&& forall|k: int| 0 <= k < toks.len() - 1 ==> #[trigger] gap_ok(s, toks[k], toks[k + 1])
}

/// Well-formedness of the scan of a whole line.
pub open spec fn wf_tokens(s: Seq<char>, toks: Seq<Token>) -> bool {
    wf_tokens_from(s, 0, toks)
}

/// A successful scan is well formed.
pub proof fn lemma_scan_wf(s: Seq<char>, i: int)
    requires
        0 <= i <= s.len(),
        s.len() <= usize::MAX,
    ensures
        scan_from(s, i) matches Some(toks) ==> wf_tokens_from(s, i, toks),
    decreases s.len() - i,
{
    if i == s.len() {
    } else if s[i] == ' ' && (i + 1 == s.len() || s[i + 1] != ' ') {
        lemma_scan_wf(s, i + 1);
        match scan_from(s, i + 1) {
            Some(toks) => {
                assert(toks[0].start == i + 1) by {
                    if toks[0].start == i + 2 {
                        assert(s[i + 1] == ' ');
                    }
                }
            },
            None => {},
        }
    } else {
        match token_at(s, i) {
        None => {},
        Some(t) => {
            lemma_token_at(s, i);
            lemma_scan_wf(s, t.end as int);
            match scan_from(s, t.end as int) {
            None => {},
            Some(rest) => {
                let toks = seq![t] + rest;
                assert(toks.last() == rest.last());
                assert(wf_token(s, t)) by {
                    if s[i] == ' ' {
                        assert(i + 1 < s.len() && s[i + 1] == ' ');
                        assert(space_run_end(s, i) == space_run_end(s, i + 1));
                        lemma_space_run(s, i + 1);
                    }
                }
                assert forall|k: int| 0 <= k < toks.len() - 1 implies wf_token(
                    s,
                    #[trigger] toks[k],
                ) by {
                    if k == 0 {
                    } else {
                        assert(toks[k] == rest[k - 1]);
                        if rest.len() == 1 {
                            assert(false);
                        }
                    }
                }
                assert forall|k: int| 0 <= k < toks.len() - 1 implies gap_ok(
                    s,
                    #[trigger] toks[k],
                    toks[k + 1],
                ) by {
                    if k == 0 {
                        assert(toks[1] == rest[0]);
                        assert(rest[0].start == t.end || (rest[0].start == t.end + 1 && s[
                            t.end as int] == ' '));
                    } else {
                        let j = k - 1;
                        assert(toks[k] == rest[j]);
                        assert(toks[k + 1] == rest[j + 1]);
                        assert(gap_ok(s, rest[j], rest[j + 1]));
                    }
                }
                assert(wf_tokens_from(s, i, toks));
            },
            }
        },
        }
    }
}

fn space_end(cv: &Vec<char>, i: usize) -> (e: usize)
    requires
        i <= cv.len(),
    ensures
        e == space_run_end(cv@, i as int),
{
    let mut j = i;
    while j < cv.len() && cv[j] == ' '
        invariant
            i <= j <= cv.len(),
            space_run_end(cv@, i as int) == space_run_end(cv@, j as int),
        decreases cv.len() - j,
    {
        j += 1;
    }
    j
}

fn cjk_end(cv: &Vec<char>, i: usize) -> (e: usize)
    requires
        i <= cv.len(),
    ensures
        e == cjk_run_end(cv@, i as int),
{
    let mut j = i;
    while j < cv.len() && char_is_cjk(cv[j])
        invariant
            i <= j <= cv.len(),
            cjk_run_end(cv@, i as int) == cjk_run_end(cv@, j as int),
        decreases cv.len() - j,
    {
        j += 1;
    }
    j
}

fn alnum_end(cv: &Vec<char>, i: usize) -> (e: usize)
    requires
        i <= cv.len(),
    ensures
        e == alnum_run_end(cv@, i as int),
{
    let mut j = i;
    while j < cv.len() && char_is_alnum(cv[j])
        invariant
            i <= j <= cv.len(),
            alnum_run_end(cv@, i as int) == alnum_run_end(cv@, j as int),
        decreases cv.len() - j,
    {
        j += 1;
    }
    j
}

fn marker_end(cv: &Vec<char>, i: usize, c: char) -> (e: usize)
    requires
        i <= cv.len(),
    ensures
        e == marker_run_end(cv@, i as int, c),
{
    let mut j = i;
    while j < cv.len() && cv[j] == c
        invariant
            i <= j <= cv.len(),
            marker_run_end(cv@, i as int, c) == marker_run_end(cv@, j as int, c),
        decreases cv.len() - j,
    {
        j += 1;
    }
    j
}

fn delim_find(cv: &Vec<char>, i: usize, d: char) -> (r: Option<usize>)
    requires
        i <= cv.len(),
    ensures
        r matches Some(e) ==> delim_close(cv@, i as int, d) == Some(e as int),
        r is None ==> delim_close(cv@, i as int, d) is None,
{
    let mut j = i;
    loop
        invariant
            i <= j <= cv.len(),
            delim_close(cv@, i as int, d) == delim_close(cv@, j as int, d),
        decreases cv.len() - j,
    {
        if j >= cv.len() {
            return None;
        }
        let c = cv[j];
        if c == d {
            return Some(j + 1);
        }
        if c == '\\' {
            if cv.len() - j >= 2 {
                j += 2;
            } else {
                return None;
            }
        } else {
            j += 1;
        }
    }
}

fn marks_find(cv: &Vec<char>, i: usize, c: char, n: usize) -> (r: Option<usize>)
    requires
        i <= cv.len(),
        1 <= n,
    ensures
        r matches Some(j) ==> find_marks(cv@, i as int, c, n as int) == Some(j as int),
        r is None ==> find_marks(cv@, i as int, c, n as int) is None,
{
    let mut j = i;
    loop
        invariant
            i <= j <= cv.len(),
            1 <= n,
            find_marks(cv@, i as int, c, n as int) == find_marks(cv@, j as int, c, n as int),
        decreases cv.len() - j,
    {
        if cv.len() - j < n {
            return None;
        }
        if marks_at(cv, j, c, n) {
            return Some(j);
        }
        j += 1;
    }
}

fn marks_at(cv: &Vec<char>, j: usize, c: char, n: usize) -> (b: bool)
    requires
        j + n <= cv.len(),
    ensures
        b == is_marks(cv@, j as int, c, n as int),
{
    let mut k: usize = 0;
    while k < n
        invariant
            k <= n,
            j + n <= cv.len(),
            forall|k2: int| 0 <= k2 < k ==> #[trigger] cv@[j + k2] == c,
        decreases n - k,
    {
        if cv[j + k] != c {
            proof {
                assert(cv@[j + k] != c);
            }
            return false;
        }
        k += 1;
    }
    proof {
        assert forall|k2: int| j <= k2 < j + n implies cv@[k2] == c by {
            assert(cv@[j + (k2 - j)] == c);
        };
    }
    true
}

fn doclink_end(cv: &Vec<char>, w: usize) -> (e: usize)
    requires
        0 < w <= cv.len(),
        is_alnum(cv@[w as int - 1]),
    ensures
        e as int == doclink_ext(cv@, w as int),
        w <= e <= cv.len(),
{
    let mut e = w;
    loop
        invariant
            w <= e <= cv.len(),
            is_alnum(cv@[e as int - 1]),
            doclink_ext(cv@, w as int) == doclink_ext(cv@, e as int),
        decreases cv.len() - e,
    {
        if cv.len() - e >= 2 && cv[e] == '.' && char_is_alnum(cv[e + 1]) {
            proof {
                lemma_alnum_run(cv@, e as int + 1);
            }
            let e2 = alnum_end(cv, e + 1);
            proof {
                assert(doclink_ext(cv@, e as int) == doclink_ext(cv@, e2 as int));
            }
            e = e2;
        } else {
            return e;
        }
    }
}

/// The executable greedy match at position `i`.
fn next_token(cv: &Vec<char>, i: usize) -> (r: Option<Token>)
    requires
        i < cv.len(),
    ensures
        r == token_at(cv@, i as int),
{
    let c = cv[i];
    if c == ' ' {
        let e = space_end(cv, i);
        Some(Token { kind: TokenKind::MultiSpace, start: i, end: e })
    } else if c == '`' {
        match delim_find(cv, i + 1, '`') {
            Some(e) => Some(
                Token { kind: TokenKind::SpecialBlock(SubKind::InlineCode), start: i, end: e },
            ),
            None => Some(Token { kind: TokenKind::Other, start: i, end: i + 1 }),
        }
    } else if c == '$' {
        match delim_find(cv, i + 1, '$') {
            Some(e) => Some(
                Token { kind: TokenKind::SpecialBlock(SubKind::InlineMath), start: i, end: e },
            ),
            None => None,
        }
    } else if c == '*' || c == '_' {
        let m = marker_end(cv, i, c);
        proof {
            lemma_marker_run(cv@, i as int, c);
        }
        let n = m - i;
        match marks_find(cv, m, c, n) {
            Some(j) => {
                proof {
                    lemma_find_marks(cv@, m as int, c, n as int);
                }
                Some(Token { kind: TokenKind::InlineEm, start: i, end: j + n })
            },
            None => None,
        }
    } else if char_is_fw_punct(c) {
        Some(Token { kind: TokenKind::FwPunct, start: i, end: i + 1 })
    } else if char_is_punct(c) {
        Some(Token { kind: TokenKind::Punct, start: i, end: i + 1 })
    } else if char_is_cjk(c) {
        let e = cjk_end(cv, i);
        Some(Token { kind: TokenKind::Word, start: i, end: e })
    } else if char_is_alnum(c) {
        let w = alnum_end(cv, i);
        proof {
            lemma_alnum_run(cv@, i as int);
        }
        if cv.len() - w >= 2 && cv[w] == '.' && char_is_alnum(cv[w + 1]) {
            let e = doclink_end(cv, w);
            Some(Token { kind: TokenKind::SpecialBlock(SubKind::DocLink), start: i, end: e })
        } else {
            Some(Token { kind: TokenKind::Word, start: i, end: w })
        }
    } else if char_is_other(c) {
        Some(Token { kind: TokenKind::Other, start: i, end: i + 1 })
    } else {
        None
    }
}

/// The executable scanner for a whole line of characters: returns exactly
/// the token sequence the specification describes, or the scan error when
/// and only when no full partition exists.
pub fn tokenize(cv: &Vec<char>) -> (r: Result<Vec<Token>, SyntaxError>)
    ensures
        r matches Ok(v) ==> scan(cv@) == Some(v@),
        r is Err ==> scan(cv@) is None,
{
    let ghost s = cv@;
    let n = cv.len();
    let mut toks: Vec<Token> = Vec::new();
    let mut i: usize = 0;
    loop
        invariant
            i <= n,
            n == s.len(),
            cv@ == s,
            scan_from(s, i as int) matches Some(rest) ==> scan_from(s, 0) == Some(toks@ + rest),
            scan_from(s, i as int) is None ==> scan_from(s, 0) is None,
        decreases n - i,
    {
        if i == n {
            let t = Token { kind: TokenKind::Eoi, start: n, end: n };
            proof {
                assert(scan_from(s, i as int) == Some(seq![tok(TokenKind::Eoi, n as int, n as int)]));
                assert(toks@.push(t) =~= toks@ + seq![tok(TokenKind::Eoi, n as int, n as int)]);
            }
            toks.push(t);
            return Ok(toks);
        }
        let c = cv[i];
        if c == ' ' && (i + 1 == n || cv[i + 1] != ' ') {
            proof {
                assert(scan_from(s, i as int) == scan_from(s, i as int + 1));
            }
            i += 1;
        } else {
            match next_token(cv, i) {
                None => {
                    proof {
                        assert(scan_from(s, i as int) is None);
                    }
                    return Err(SyntaxError);
                },
                Some(t) => {
                    proof {
                        lemma_token_at(s, i as int);
                        assert(scan_from(s, i as int) == match scan_from(s, t.end as int) {
                            None => None::<Seq<Token>>,
                            Some(rest) => Some(seq![t] + rest),
                        });
                        match scan_from(s, t.end as int) {
                            Some(rest2) => {
                                assert(toks@ + (seq![t] + rest2) =~= (toks@ + seq![t]) + rest2);
                                assert(toks@.push(t) =~= toks@ + seq![t]);
                            },
                            None => {},
                        }
                    }
                    let end = t.end;
                    toks.push(t);
                    i = end;
                },
            }
        }
    }
}

} // verus!
