//! Lexical analysis: a deterministic automaton over the characters of the
//! source text that yields one token at a time.
use vstd::prelude::*;

use crate::chars::{
    chars_of, is_alphanumeric, is_ascii_digit, is_ascii_letter, is_digit_char, is_numeric,
    is_word_char, string_from_chars,
};

pub mod error;
pub mod laws;

pub use crate::token::{Token, TokenKind, TokenType, TokenView};
pub use crate::tokenizer::error::{TokenizerError, TokenizerErrorView, TokenizerResult};

verus! {

// ---------------------------------------------------------------------------
// The automaton as mathematics
// ---------------------------------------------------------------------------

/// The scanner's position: `pos` characters of the input have been read,
/// `cur` is the character under examination (`'\0'` once the input is
/// exhausted), and `line`/`column` are the position of `cur`.
pub struct ScanState {
    pub pos: nat,
    pub cur: char,
    pub line: nat,
    pub column: nat,
}

/// The character at index `i`, or `'\0'` past either end.
pub open spec fn char_at(s: Seq<char>, i: int) -> char {
    if 0 <= i < s.len() {
        s[i]
    } else {
        '\0'
    }
}

pub open spec fn is_whitespace(c: char) -> bool {
    c == ' ' || c == '\t' || c == '\n' || c == '\r'
}

/// One step: the position moves past `cur` (a line break starts a new line
/// at column 0; `'\0'` does not move the column) and the next character is
/// read.
pub open spec fn advance_state(s: Seq<char>, st: ScanState) -> ScanState {
    let line = if st.cur == '\n' { st.line + 1 } else { st.line };
    let column = if st.cur == '\n' {
        0
    } else if st.cur != '\0' {
        st.column + 1
    } else {
        st.column
    };
    if st.pos < s.len() {
        ScanState { pos: st.pos + 1, cur: s[st.pos as int], line, column }
    } else {
        ScanState { pos: st.pos, cur: '\0', line, column }
    }
}

/// Before the first step: nothing read, line 1, column 0.
pub open spec fn initial_state() -> ScanState {
    ScanState { pos: 0, cur: '\0', line: 1, column: 0 }
}

/// The state after `k` steps from the initial state.
pub open spec fn state_at(s: Seq<char>, k: nat) -> ScanState
    decreases k,
{
    if k == 0 {
        initial_state()
    } else {
        advance_state(s, state_at(s, (k - 1) as nat))
    }
}

/// The states that the automaton can be in while it reads `s`.
pub open spec fn reachable(s: Seq<char>, st: ScanState) -> bool {
    exists|k: nat| k <= s.len() + 1 && #[trigger] state_at(s, k) == st
}

/// What remains to be done: it falls with every step that moves past a
/// character.
pub open spec fn rank(s: Seq<char>, st: ScanState) -> nat {
    if st.pos <= s.len() {
        (2 * (s.len() - st.pos) + if st.cur != '\0' {
            1int
        } else {
            0int
        }) as nat
    } else {
        0
    }
}

pub open spec fn skip_whitespace_state(s: Seq<char>, st: ScanState) -> ScanState
    decreases rank(s, st),
{
    if st.pos <= s.len() && is_whitespace(st.cur) {
        skip_whitespace_state(s, advance_state(s, st))
    } else {
        st
    }
}

/// The three runs of characters that the automaton collects.
pub enum Run {
    /// identifier and keyword characters
    Word,
    /// the digits of a numeral
    Digits,
    /// the body of a quoted string
    Quoted,
}

pub open spec fn run_keeps(run: Run, c: char) -> bool {
    match run {
        Run::Word => is_word_char(c),
        Run::Digits => is_digit_char(c),
        Run::Quoted => c != '\'' && c != '\n',
    }
}

/// Collects characters into `acc` while they belong to `run`; returns the
/// state at the first character that does not, and the collected text.
pub open spec fn scan_run(s: Seq<char>, st: ScanState, acc: Seq<char>, run: Run) -> (ScanState, Seq<char>)
    decreases rank(s, st),
{
    if st.pos <= s.len() && st.cur != '\0' && run_keeps(run, st.cur) {
        scan_run(s, advance_state(s, st), acc.push(st.cur), run)
    } else {
        (st, acc)
    }
}

/// The token kind of a word: one of the nine keywords (upper case only), or
/// an identifier.
pub open spec fn keyword_kind(w: Seq<char>) -> TokenKind {
    if w == "LOAD"@ {
        TokenKind::Load
    } else if w == "PREDICT"@ {
        TokenKind::Predict
    } else if w == "TRAIN"@ {
        TokenKind::Train
    } else if w == "INIT"@ {
        TokenKind::Init
    } else if w == "SPLIT"@ {
        TokenKind::Split
    } else if w == "ANALYZE"@ {
        TokenKind::Analyze
    } else if w == "EVALUATE"@ {
        TokenKind::Evaluate
    } else if w == "SELECT"@ {
        TokenKind::Select
    } else if w == "FROM"@ {
        TokenKind::From
    } else {
        TokenKind::Id(w)
    }
}

/// A numeral: its digits, then a point and more digits where a digit follows
/// the point.
pub open spec fn scan_number(s: Seq<char>, st: ScanState) -> (ScanState, Seq<char>) {
    let (e, digits) = scan_run(s, st, seq![], Run::Digits);
    if e.cur == '.' && is_digit_char(char_at(s, e.pos as int)) {
        scan_run(s, advance_state(s, e), digits.push('.'), Run::Digits)
    } else {
        (e, digits)
    }
}

/// A numeral that a decimal floating-point reader accepts: besides the point,
/// only the ASCII digits 0 to 9.
pub open spec fn is_decimal_numeral(t: Seq<char>) -> bool {
    forall|i: int| 0 <= i < t.len() ==> t[i] == '.' || is_ascii_digit(#[trigger] t[i])
}

/// The reason given for a numeral that is not decimal.
pub open spec fn invalid_numeral_reason() -> Seq<char> {
    "invalid float literal"@
}

pub open spec fn token_at(kind: TokenKind, st: ScanState) -> TokenView {
    TokenView { kind, column: st.column, line: st.line }
}

/// The token that starts at `st`, whose `cur` is not white space, and the
/// state after it.
pub open spec fn token_spec(s: Seq<char>, st: ScanState) -> (ScanState, Result<TokenView, TokenizerErrorView>) {
    let c = st.cur;
    if c == '\0' {
        (st, Ok(token_at(TokenKind::Eof, st)))
    } else if is_ascii_letter(c) {
        let (e, w) = scan_run(s, st, seq![], Run::Word);
        (e, Ok(token_at(keyword_kind(w), st)))
    } else if is_ascii_digit(c) {
        let (e, t) = scan_number(s, st);
        if is_decimal_numeral(t) {
            (e, Ok(token_at(TokenKind::Number(t), st)))
        } else {
            (
                e,
                Err(
                    TokenizerErrorView::InvalidNumber {
                        value: t,
                        line: st.line,
                        column: st.column,
                        reason: invalid_numeral_reason(),
                    },
                ),
            )
        }
    } else if c == '\'' {
        let (e, t) = scan_run(s, advance_state(s, st), seq![], Run::Quoted);
        if e.cur == '\'' {
            (advance_state(s, e), Ok(token_at(TokenKind::Str(t), st)))
        } else {
            (e, Err(TokenizerErrorView::UnterminatedString { line: st.line, column: st.column }))
        }
    } else if c == '{' {
        (advance_state(s, st), Ok(token_at(TokenKind::LeftBrace, st)))
    } else if c == '}' {
        (advance_state(s, st), Ok(token_at(TokenKind::RightBrace, st)))
    } else if c == ';' {
        (advance_state(s, st), Ok(token_at(TokenKind::Semicolon, st)))
    } else if c == ',' {
        (advance_state(s, st), Ok(token_at(TokenKind::Comma, st)))
    } else if c == ':' {
        (advance_state(s, st), Ok(token_at(TokenKind::Colon, st)))
    } else {
        (
            advance_state(s, st),
            Err(
                TokenizerErrorView::UnknownCharacter {
                    character: c,
                    byte: c as u8,
                    line: st.line,
                    column: st.column,
                },
            ),
        )
    }
}

/// One call of [`Tokenizer::next_token`]: white space is skipped, then a
/// token is read.
pub open spec fn next_token_spec(s: Seq<char>, st: ScanState) -> (ScanState, Result<TokenView, TokenizerErrorView>) {
    token_spec(s, skip_whitespace_state(s, st))
}

pub open spec fn result_view(r: TokenizerResult<Token>) -> Result<TokenView, TokenizerErrorView> {
    match r {
        Ok(t) => Ok(t@),
        Err(e) => Err(e@),
    }
}

pub open spec fn is_eof(r: Result<TokenView, TokenizerErrorView>) -> bool {
    r matches Ok(t) && t.kind is Eof
}

// ---------------------------------------------------------------------------
// Lemmas
// ---------------------------------------------------------------------------

pub proof fn lemma_advance_rank(s: Seq<char>, st: ScanState)
    requires
        st.pos <= s.len(),
    ensures
        advance_state(s, st).pos <= s.len(),
        rank(s, advance_state(s, st)) <= rank(s, st),
        st.cur != '\0' || st.pos < s.len() ==> rank(s, advance_state(s, st)) < rank(s, st),
{
}

pub proof fn lemma_state_at(s: Seq<char>, k: nat)
    ensures
        state_at(s, k).pos == if k <= s.len() { k } else { s.len() },
        state_at(s, k).line <= k + 1,
        state_at(s, k).column <= k,
        1 <= k <= s.len() ==> state_at(s, k).cur == s[k - 1],
        k > s.len() ==> state_at(s, k).cur == '\0',
        k == 0 ==> state_at(s, k).cur == '\0',
    decreases k,
{
    if k > 0 {
        lemma_state_at(s, (k - 1) as nat);
    }
}

pub proof fn lemma_reachable_bounds(s: Seq<char>, st: ScanState)
    requires
        reachable(s, st),
    ensures
        st.pos <= s.len(),
        st.line <= s.len() + 2,
        st.column <= s.len() + 1,
{
    let k = choose|k: nat| k <= s.len() + 1 && #[trigger] state_at(s, k) == st;
    lemma_state_at(s, k);
}

pub proof fn lemma_advance_reachable(s: Seq<char>, st: ScanState)
    requires
        reachable(s, st),
    ensures
        reachable(s, advance_state(s, st)),
{
    let k = choose|k: nat| k <= s.len() + 1 && #[trigger] state_at(s, k) == st;
    lemma_state_at(s, k);
    if k <= s.len() {
        assert(state_at(s, k + 1) == advance_state(s, st));
    } else {
        assert(advance_state(s, st) == st);
    }
}


pub proof fn lemma_skip_whitespace(s: Seq<char>, st: ScanState)
    requires
        reachable(s, st),
    ensures
        reachable(s, skip_whitespace_state(s, st)),
        rank(s, skip_whitespace_state(s, st)) <= rank(s, st),
        !is_whitespace(skip_whitespace_state(s, st).cur),
    decreases rank(s, st),
{
    lemma_reachable_bounds(s, st);
    if is_whitespace(st.cur) {
        lemma_advance_rank(s, st);
        lemma_advance_reachable(s, st);
        lemma_skip_whitespace(s, advance_state(s, st));
    }
}

pub proof fn lemma_scan_run(s: Seq<char>, st: ScanState, acc: Seq<char>, run: Run)
    requires
        reachable(s, st),
    ensures
        ({
            let (e, t) = scan_run(s, st, acc, run);
            &&& reachable(s, e)
            &&& rank(s, e) <= rank(s, st)
            &&& acc.len() <= t.len()
            &&& t.subrange(0, acc.len() as int) == acc
            &&& acc.len() < t.len() ==> rank(s, e) < rank(s, st)
            &&& !(e.cur != '\0' && run_keeps(run, e.cur))
        }),
    decreases rank(s, st),
{
    lemma_reachable_bounds(s, st);
    if st.cur != '\0' && run_keeps(run, st.cur) {
        lemma_advance_rank(s, st);
        lemma_advance_reachable(s, st);
        lemma_scan_run(s, advance_state(s, st), acc.push(st.cur), run);
        let (e, t) = scan_run(s, st, acc, run);
        assert(t.subrange(0, acc.len() as int) == t.subrange(0, acc.len() + 1int).subrange(
            0,
            acc.len() as int,
        ));
    }
}

pub proof fn lemma_token_progress(s: Seq<char>, st: ScanState)
    requires
        reachable(s, st),
        st.cur != '\0',
    ensures
        reachable(s, token_spec(s, st).0),
        rank(s, token_spec(s, st).0) < rank(s, st),
{
    lemma_reachable_bounds(s, st);
    lemma_advance_rank(s, st);
    lemma_advance_reachable(s, st);
    let c = st.cur;
    if is_ascii_letter(c) {
        lemma_scan_run(s, st, seq![], Run::Word);
    } else if is_ascii_digit(c) {
        lemma_scan_run(s, st, seq![], Run::Digits);
        let (e, digits) = scan_run(s, st, seq![], Run::Digits);
        lemma_reachable_bounds(s, e);
        lemma_advance_rank(s, e);
        lemma_advance_reachable(s, e);
        lemma_scan_run(s, advance_state(s, e), digits.push('.'), Run::Digits);
    } else if c == '\'' {
        let st1 = advance_state(s, st);
        lemma_scan_run(s, st1, seq![], Run::Quoted);
        let (e, t) = scan_run(s, st1, seq![], Run::Quoted);
        lemma_reachable_bounds(s, e);
        lemma_advance_rank(s, e);
        lemma_advance_reachable(s, e);
    }
}

/// Every call of [`Tokenizer::next_token`] either reads past at least one
/// character, or finds the end of the text; there it answers `Eof` and stays
/// where it is, so that every later call answers the same.
pub proof fn lemma_next_token_progress(s: Seq<char>, st: ScanState)
    requires
        reachable(s, st),
    ensures
        ({
            let (st2, r) = next_token_spec(s, st);
            &&& reachable(s, st2)
            &&& !is_eof(r) ==> rank(s, st2) < rank(s, st)
            &&& is_eof(r) ==> next_token_spec(s, st2) == (st2, r)
        }),
{
    lemma_skip_whitespace(s, st);
    let st1 = skip_whitespace_state(s, st);
    if st1.cur != '\0' {
        lemma_token_progress(s, st1);
    }
}

/// The number of line breaks in `t`.
pub open spec fn newline_count(t: Seq<char>) -> nat
    decreases t.len(),
{
    if t.len() == 0 {
        0
    } else {
        newline_count(t.drop_last()) + if t.last() == '\n' {
            1nat
        } else {
            0nat
        }
    }
}

/// The number of characters after the last line break of `t` (all of `t`
/// where it has none), not counting `'\0'`.
pub open spec fn chars_in_last_line(t: Seq<char>) -> nat
    decreases t.len(),
{
    if t.len() == 0 {
        0
    } else if t.last() == '\n' {
        0
    } else if t.last() == '\0' {
        chars_in_last_line(t.drop_last())
    } else {
        chars_in_last_line(t.drop_last()) + 1
    }
}

/// The line of the character that follows the text `t`: one more than the
/// line breaks in `t`.
pub open spec fn line_after(t: Seq<char>) -> nat {
    1 + newline_count(t)
}

/// The column of the character that follows the text `t`: the characters
/// since the last line break, so that columns count from 0 on every line.
pub open spec fn column_after(t: Seq<char>) -> nat {
    chars_in_last_line(t)
}

/// After `k` steps (`k >= 1`), the line and column are those of the
/// character at index `k - 1`, as the text before it determines them.
pub proof fn lemma_state_position(s: Seq<char>, k: nat)
    requires
        1 <= k <= s.len() + 1,
    ensures
        state_at(s, k).line == line_after(s.take(k - 1)),
        state_at(s, k).column == column_after(s.take(k - 1)),
    decreases k,
{
    if k == 1 {
        assert(state_at(s, 0) == initial_state());
        assert(s.take(0) =~= Seq::<char>::empty());
    } else {
        let j = (k - 1) as nat;
        lemma_state_position(s, j);
        lemma_state_at(s, j);
        let t = s.take(j - 1);
        let t2 = s.take(k - 1);
        assert(t2.drop_last() =~= t);
        assert(t2.last() == s[j - 1]);
    }
}

/// Where a result of the tokenizer is reported: the line and column that
/// it carries.
pub open spec fn result_position(r: Result<TokenView, TokenizerErrorView>) -> (nat, nat) {
    match r {
        Ok(t) => (t.line, t.column),
        Err(TokenizerErrorView::UnknownCharacter { line, column, .. }) => (line, column),
        Err(TokenizerErrorView::UnterminatedString { line, column }) => (line, column),
        Err(TokenizerErrorView::InvalidNumber { line, column, .. }) => (line, column),
        Err(TokenizerErrorView::IoError) => (0, 0),
    }
}

/// Every token, and every error, is reported at the position of its first
/// character: the first character at or after the current one that is not
/// white space, at index `i`, on line `1 +` (line breaks before `i`), in
/// column (characters since the last line break before `i`, not counting
/// `'\0'`), so that lines count from 1 and columns from 0.
pub proof fn lemma_token_position(s: Seq<char>, st: ScanState)
    requires
        reachable(s, st),
    ensures
        ({
            let first = skip_whitespace_state(s, st);
            let i = first.pos - 1;
            let (_, r) = next_token_spec(s, st);
            first.cur != '\0' ==> {
                &&& 0 <= i < s.len()
                &&& s[i] == first.cur
                &&& !is_whitespace(s[i])
                &&& forall|j: int| st.pos - 1 <= j < i ==> is_whitespace(#[trigger] s[j])
                &&& result_position(r) == (line_after(s.take(i)), column_after(s.take(i)))
            }
        }),
{
    lemma_skip_whitespace(s, st);
    lemma_skip_whitespace_text(s, st);
    let first = skip_whitespace_state(s, st);
    if first.cur != '\0' {
        let k = choose|k: nat| k <= s.len() + 1 && #[trigger] state_at(s, k) == first;
        lemma_state_at(s, k);
        lemma_state_position(s, k);
    }
}

/// From step `k`, white space up to index `i` is skipped: the state reached
/// is the one at the character at index `i`, or at the end of the text.
proof fn lemma_skip_to(s: Seq<char>, k: nat, i: int)
    requires
        1 <= k <= s.len() + 1,
        k - 1 <= i <= s.len(),
        i == s.len() || !is_whitespace(s[i]),
        forall|j: int| k - 1 <= j < i ==> is_whitespace(#[trigger] s[j]),
    ensures
        skip_whitespace_state(s, state_at(s, k)) == state_at(s, (i + 1) as nat),
    decreases i - (k - 1),
{
    lemma_state_at(s, k);
    if k - 1 < i {
        assert(is_whitespace(s[k - 1]));
        assert(state_at(s, k + 1) == advance_state(s, state_at(s, k)));
        lemma_skip_to(s, k + 1, i);
    }
}

/// The end-of-text token: where, from the current character on, only white
/// space comes before a NUL character at index `i` or before the end of the
/// text (`i` its length), the token is `Eof`, reported at the position of
/// index `i`: line `1 +` (line breaks before `i`), column (characters since
/// the last line break before `i`, not counting `'\0'`).
pub proof fn lemma_end_of_text_position(s: Seq<char>, k: nat, i: int)
    requires
        1 <= k <= s.len() + 1,
        k - 1 <= i <= s.len(),
        i == s.len() || s[i] == '\0',
        forall|j: int| k - 1 <= j < i ==> is_whitespace(#[trigger] s[j]),
    ensures
        next_token_spec(s, state_at(s, k)).1 == Ok::<TokenView, TokenizerErrorView>(
            TokenView { kind: TokenKind::Eof, line: line_after(s.take(i)), column: column_after(s.take(i)) },
        ),
{
    lemma_skip_to(s, k, i);
    lemma_state_at(s, (i + 1) as nat);
    lemma_state_position(s, (i + 1) as nat);
}

/// White space is skipped one character at a time: every character from the
/// current one up to the first that is not white space is white space.
pub proof fn lemma_skip_whitespace_text(s: Seq<char>, st: ScanState)
    requires
        reachable(s, st),
    ensures
        ({
            let first = skip_whitespace_state(s, st);
            first.cur != '\0' ==> forall|j: int| st.pos - 1 <= j < first.pos - 1 ==> is_whitespace(#[trigger] s[j])
        }),
    decreases rank(s, st),
{
    lemma_reachable_bounds(s, st);
    let first = skip_whitespace_state(s, st);
    if is_whitespace(st.cur) {
        lemma_advance_rank(s, st);
        lemma_advance_reachable(s, st);
        lemma_skip_whitespace_text(s, advance_state(s, st));
        let k = choose|k: nat| k <= s.len() + 1 && #[trigger] state_at(s, k) == st;
        lemma_state_at(s, k);
        if first.cur != '\0' {
            assert forall|j: int| st.pos - 1 <= j < first.pos - 1 implies is_whitespace(#[trigger] s[j]) by {
                if j == st.pos - 1 {
                    assert(s[j] == st.cur);
                }
            }
        }
    }
}

/// Words and numerals are read as far as their characters go: after an
/// identifier or a keyword the current character cannot continue a word,
/// and after a numeral it is not a digit.
pub proof fn lemma_tokens_are_maximal(s: Seq<char>, st: ScanState)
    requires
        reachable(s, st),
    ensures
        ({
            let (st2, r) = next_token_spec(s, st);
            let first = skip_whitespace_state(s, st);
            &&& is_ascii_letter(first.cur) ==> !(st2.cur != '\0' && is_word_char(st2.cur))
            &&& (is_ascii_digit(first.cur) && r is Ok) ==> !(st2.cur != '\0' && is_digit_char(st2.cur))
        }),
{
    lemma_skip_whitespace(s, st);
    let first = skip_whitespace_state(s, st);
    lemma_scan_run(s, first, seq![], Run::Word);
    lemma_scan_run(s, first, seq![], Run::Digits);
    let (e, digits) = scan_run(s, first, seq![], Run::Digits);
    lemma_reachable_bounds(s, e);
    lemma_advance_reachable(s, e);
    lemma_scan_run(s, advance_state(s, e), digits.push('.'), Run::Digits);
}

/// A run read from the character at index `k - 1` takes the characters of
/// the text one by one: it collects `n` of them, all kept by the run, and
/// stops at the state after `k - 1 + n` characters.
proof fn lemma_scan_run_text(s: Seq<char>, k: nat, acc: Seq<char>, run: Run)
    requires
        1 <= k <= s.len() + 1,
    ensures
        ({
            let (e, t) = scan_run(s, state_at(s, k), acc, run);
            let n = t.len() - acc.len();
            &&& acc.len() <= t.len()
            &&& k - 1 + n <= s.len()
            &&& e == state_at(s, (k + n) as nat)
            &&& t == acc + s.subrange(k - 1, k - 1 + n)
            &&& forall|m: int| k - 1 <= m < k - 1 + n ==> run_keeps(run, #[trigger] s[m]) && s[m] != '\0'
        }),
    decreases s.len() + 1 - k,
{
    lemma_state_at(s, k);
    let st = state_at(s, k);
    if st.pos <= s.len() && st.cur != '\0' && run_keeps(run, st.cur) {
        assert(k <= s.len());
        assert(state_at(s, k + 1) == advance_state(s, st));
        let acc2 = acc.push(st.cur);
        lemma_scan_run_text(s, k + 1, acc2, run);
        let (e, t) = scan_run(s, state_at(s, k), acc, run);
        let n = t.len() - acc.len();
        assert(acc2 + s.subrange(k as int, k - 1 + n) =~= acc + s.subrange(k - 1, k - 1 + n));
    } else {
        assert(acc + s.subrange(k - 1, k - 1) =~= acc);
    }
}

/// A string literal carries exactly the characters between its quotes: where
/// the token read is a string, the first character after white space, at
/// index `i`, is a quote; the closing quote stands at index `j`, `i` plus one
/// plus the length of the text; the text is the characters strictly between
/// the two, none of them a quote or a line break; and reading goes on at the
/// character after the closing quote.
pub proof fn lemma_string_literal_text(s: Seq<char>, st: ScanState)
    requires
        reachable(s, st),
    ensures
        ({
            let first = skip_whitespace_state(s, st);
            let i = first.pos - 1;
            let (st2, r) = next_token_spec(s, st);
            r matches Ok(TokenView { kind: TokenKind::Str(t), .. }) ==> {
                let j = i + 1 + t.len();
                &&& 0 <= i && j < s.len()
                &&& s[i] == '\'' && s[j] == '\''
                &&& t == s.subrange(i + 1, j)
                &&& forall|m: int| i < m < j ==> #[trigger] s[m] != '\'' && s[m] != '\n'
                &&& st2 == state_at(s, (j + 2) as nat)
            }
        }),
{
    lemma_skip_whitespace(s, st);
    let first = skip_whitespace_state(s, st);
    if first.cur == '\'' {
        let k = choose|k: nat| k <= s.len() + 1 && #[trigger] state_at(s, k) == first;
        lemma_state_at(s, k);
        assert(1 <= k <= s.len());
        assert(state_at(s, k + 1) == advance_state(s, first));
        lemma_scan_run_text(s, k + 1, seq![], Run::Quoted);
        let (e, t) = scan_run(s, state_at(s, k + 1), seq![], Run::Quoted);
        let n = t.len();
        lemma_state_at(s, (k + 1 + n) as nat);
        if e.cur == '\'' {
            assert(Seq::<char>::empty() + s.subrange(k as int, (k + n) as int) =~= s.subrange(k as int, (k + n) as int));
            assert(state_at(s, (k + 2 + n) as nat) == advance_state(s, e));
            lemma_state_at(s, (k + 2 + n) as nat);
        }
    }
}

/// All results that the tokenizer yields from `st` on, up to the end of the
/// text (the `Eof` token is not among them).
pub open spec fn tokens_spec(s: Seq<char>, st: ScanState) -> Seq<Result<TokenView, TokenizerErrorView>>
    decreases rank(s, st),
    when reachable(s, st)
{
    let (st2, r) = next_token_spec(s, st);
    if is_eof(r) {
        seq![]
    } else {
        proof {
            lemma_next_token_progress(s, st);
        }
        seq![r].add(tokens_spec(s, st2))
    }
}

/// The characters of `s` from index `i` on that are not white space.
pub open spec fn nonblank_from(s: Seq<char>, i: nat) -> nat
    decreases s.len() - i,
{
    if i >= s.len() {
        0
    } else {
        (if is_whitespace(s[i as int]) {
            0nat
        } else {
            1nat
        }) + nonblank_from(s, i + 1)
    }
}

proof fn lemma_nonblank_monotone(s: Seq<char>, i: nat, j: nat)
    requires
        i <= j,
    ensures
        nonblank_from(s, j) <= nonblank_from(s, i),
    decreases j - i,
{
    if i < j {
        lemma_nonblank_monotone(s, i + 1, j);
    }
}

proof fn lemma_nonblank_skip(s: Seq<char>, i: nat, j: nat)
    requires
        i <= j,
        forall|k: int| i <= k < j ==> is_whitespace(#[trigger] s[k]),
    ensures
        nonblank_from(s, j) == nonblank_from(s, i),
    decreases j - i,
{
    if i < j {
        if i < s.len() {
            assert(is_whitespace(s[i as int]));
        }
        lemma_nonblank_skip(s, i + 1, j);
    }
}

/// What bounds the number of results still to come from `st`: the
/// characters from the current one on that are not white space.
pub open spec fn results_bound(s: Seq<char>, st: ScanState) -> nat {
    if st.cur == '\0' {
        0
    } else {
        nonblank_from(s, (st.pos - 1) as nat)
    }
}

/// From any state, the tokenizer yields at most as many results (tokens and
/// errors) as there are characters left that are not white space.
pub proof fn lemma_results_bound(s: Seq<char>, st: ScanState)
    requires
        reachable(s, st),
    ensures
        tokens_spec(s, st).len() <= results_bound(s, st),
    decreases rank(s, st),
{
    lemma_next_token_progress(s, st);
    let (st2, r) = next_token_spec(s, st);
    if !is_eof(r) {
        lemma_results_bound(s, st2);
        lemma_skip_whitespace(s, st);
        lemma_skip_whitespace_text(s, st);
        let first = skip_whitespace_state(s, st);
        assert(first.cur != '\0');
        assert(st.cur != '\0');
        lemma_token_progress(s, first);
        let k0 = choose|k: nat| k <= s.len() + 1 && #[trigger] state_at(s, k) == st;
        lemma_state_at(s, k0);
        let k1 = choose|k: nat| k <= s.len() + 1 && #[trigger] state_at(s, k) == first;
        lemma_state_at(s, k1);
        assert(st.pos <= first.pos);
        lemma_nonblank_skip(s, (st.pos - 1) as nat, (first.pos - 1) as nat);
        assert(s[first.pos - 1] == first.cur);
        assert(nonblank_from(s, (first.pos - 1) as nat) == 1 + nonblank_from(s, first.pos));
        if st2.cur != '\0' {
            let k2 = choose|k: nat| k <= s.len() + 1 && #[trigger] state_at(s, k) == st2;
            lemma_state_at(s, k2);
            lemma_nonblank_monotone(s, first.pos, (st2.pos - 1) as nat);
        }
    }
}

/// Tokenizing a text yields at most as many results (tokens and errors) as
/// the text has characters that are not white space.
pub proof fn lemma_results_count(s: Seq<char>)
    ensures
        tokens_spec(s, state_at(s, 1)).len() <= nonblank_from(s, 0),
{
    assert(state_at(s, 0) == initial_state());
    assert(reachable(s, state_at(s, 1)));
    lemma_results_bound(s, state_at(s, 1));
}

/// The tokens of a sequence of results, or its first error.
pub open spec fn first_error_or_tokens(rs: Seq<Result<TokenView, TokenizerErrorView>>) -> Result<Seq<TokenView>, TokenizerErrorView>
    decreases rs.len(),
{
    if rs.len() == 0 {
        Ok(seq![])
    } else {
        match rs[0] {
            Err(e) => Err(e),
            Ok(t) => match first_error_or_tokens(rs.drop_first()) {
                Ok(ts) => Ok(seq![t] + ts),
                Err(e) => Err(e),
            },
        }
    }
}

// ---------------------------------------------------------------------------
// The automaton in code
// ---------------------------------------------------------------------------

/// A tokenizer over a source text; each call of [`Tokenizer::next_token`]
/// yields the next token.
pub struct Tokenizer {
    input: Vec<char>,
    current_char: char,
    peeked: Option<char>,
    line: usize,
    column: usize,
    buffer_pos: usize,
}

impl Tokenizer {
    /// The source text.
    pub closed spec fn input(&self) -> Seq<char> {
        self.input@
    }

    /// The automaton's state.
    pub closed spec fn state(&self) -> ScanState {
        ScanState {
            pos: self.buffer_pos as nat,
            cur: self.current_char,
            line: self.line as nat,
            column: self.column as nat,
        }
    }

    /// The character that [`Tokenizer::peek`] looked ahead at, kept for the
    /// next read.
    pub closed spec fn peeked_char(&self) -> Option<char> {
        self.peeked
    }

    /// The read position lies within the text, and a looked-ahead character
    /// is the one at the read position.
    pub closed spec fn buffer_ok(&self) -> bool {
        &&& self.input@.len() <= isize::MAX
        &&& self.buffer_pos <= self.input@.len()
        &&& self.peeked matches Some(c) ==> self.buffer_pos < self.input@.len() && c
            == self.input@[self.buffer_pos as int]
    }

    pub closed spec fn wf(&self) -> bool {
        &&& self.buffer_ok()
        &&& reachable(self.input(), self.state())
    }

    /// The results that [`Tokenizer::next`] will yield from here on, before
    /// it answers `None`.
    pub open spec fn remaining(&self) -> Seq<Result<TokenView, TokenizerErrorView>> {
        tokens_spec(self.input(), self.state())
    }

    /// A well-formed tokenizer is in a state that the automaton reaches on
    /// its text, so that the laws on reachable states hold of it.
    pub proof fn lemma_wf_reachable(&self)
        requires
            self.wf(),
        ensures
            reachable(self.input(), self.state()),
    {
    }

    /// A tokenizer over `source`, at its first character.
    pub fn new(source: &str) -> (res: Self)
        requires
            source@.len() <= isize::MAX,
        ensures
            res.wf(),
            res.input() == source@,
            res.state() == state_at(source@, 1),
    {
        let input = chars_of(source);
        let mut tokenizer = Tokenizer {
            input,
            current_char: '\0',
            peeked: None,
            line: 1,
            column: 0,
            buffer_pos: 0,
        };
        proof {
            assert(state_at(source@, 0) == tokenizer.state());
        }
        tokenizer.advance();
        tokenizer
    }

    /// Moves past the current character.
    pub fn advance(&mut self)
        requires
            old(self).wf(),
        ensures
            final(self).wf(),
            final(self).input() == old(self).input(),
            final(self).state() == advance_state(old(self).input(), old(self).state()),
            final(self).peeked_char() is None,
    {
        proof {
            lemma_reachable_bounds(self.input(), self.state());
            lemma_advance_reachable(self.input(), self.state());
        }
        if self.current_char == '\n' {
            self.line += 1;
            self.column = 0;
        } else if self.current_char != '\0' {
            self.column += 1;
        }
        self.current_char = self.read_next_char();
    }

    /// Reads the character at the read position (`'\0'` at the end) and
    /// moves the read position past it.
    pub fn read_next_char(&mut self) -> (res: char)
        requires
            old(self).buffer_ok(),
        ensures
            final(self).buffer_ok(),
            final(self).input() == old(self).input(),
            res == char_at(old(self).input(), old(self).state().pos as int),
            final(self).state() == (ScanState {
                pos: if old(self).state().pos < old(self).input().len() {
                    old(self).state().pos + 1
                } else {
                    old(self).state().pos
                },
                ..old(self).state()
            }),
            final(self).peeked_char() is None,
    {
        if let Some(ch) = self.peeked.take() {
            self.buffer_pos += 1;
            return ch;
        }
        if self.buffer_pos < self.input.len() {
            let ch = self.input[self.buffer_pos];
            self.buffer_pos += 1;
            ch
        } else {
            '\0'
        }
    }

    /// The character at the read position (`'\0'` at the end), without
    /// moving.
    pub fn peek(&mut self) -> (res: char)
        requires
            old(self).buffer_ok(),
        ensures
            final(self).buffer_ok(),
            old(self).wf() ==> final(self).wf(),
            final(self).input() == old(self).input(),
            final(self).state() == old(self).state(),
            res == char_at(old(self).input(), old(self).state().pos as int),
            final(self).peeked_char() == (if old(self).state().pos < old(self).input().len() {
                Some(old(self).input()[old(self).state().pos as int])
            } else {
                None
            }),
    {
        if self.peeked.is_none() {
            self.peeked = if self.buffer_pos < self.input.len() {
                Some(self.input[self.buffer_pos])
            } else {
                None
            };
        }
        self.peeked.unwrap_or('\0')
    }

    /// Moves past spaces, tabs, line breaks and carriage returns.
    pub fn skip_whitespace(&mut self)
        requires
            old(self).wf(),
        ensures
            final(self).wf(),
            final(self).input() == old(self).input(),
            final(self).state() == skip_whitespace_state(old(self).input(), old(self).state()),
            is_whitespace(old(self).state().cur) ==> final(self).peeked_char() is None,
            !is_whitespace(old(self).state().cur) ==> final(self).peeked_char() == old(
                self,
            ).peeked_char(),
    {
        let ghost s = self.input();
        let ghost goal = skip_whitespace_state(s, self.state());
        while self.current_char == ' ' || self.current_char == '\t' || self.current_char == '\n'
            || self.current_char == '\r'
            invariant
                self.wf(),
                self.input() == s,
                skip_whitespace_state(s, self.state()) == goal,
                is_whitespace(old(self).state().cur) ==> self.peeked_char() is None
                    || self.state() == old(self).state(),
                !is_whitespace(old(self).state().cur) ==> self.peeked_char() == old(
                    self,
                ).peeked_char() && self.state() == old(self).state(),
            decreases rank(s, self.state()),
        {
            proof {
                lemma_reachable_bounds(s, self.state());
                lemma_advance_rank(s, self.state());
            }
            self.advance();
        }
        proof {
            lemma_reachable_bounds(s, self.state());
        }
    }

    /// Reads the next token: white space is skipped, then the first
    /// character decides what is read. At the end of the text the token is
    /// `Eof`, and it stays so on every later call.
    pub fn next_token(&mut self) -> (res: TokenizerResult<Token>)
        requires
            old(self).wf(),
        ensures
            final(self).wf(),
            final(self).input() == old(self).input(),
            (final(self).state(), result_view(res)) == next_token_spec(
                old(self).input(),
                old(self).state(),
            ),
    {
        self.skip_whitespace();
        proof {
            lemma_reachable_bounds(self.input(), self.state());
        }
        let start_line = self.line;
        let start_col = self.column;
        let c = self.current_char;
        if c == '\0' {
            Ok(Token::new(TokenType::Eof, start_col, start_line))
        } else if ('a' <= c && c <= 'z') || ('A' <= c && c <= 'Z') {
            self.read_identifier(start_col, start_line)
        } else if '0' <= c && c <= '9' {
            self.read_number(start_col, start_line)
        } else if c == '\'' {
            self.read_string('\'', start_col, start_line)
        } else if c == '{' {
            self.advance();
            Ok(Token::new(TokenType::LeftBrace, start_col, start_line))
        } else if c == '}' {
            self.advance();
            Ok(Token::new(TokenType::RightBrace, start_col, start_line))
        } else if c == ';' {
            self.advance();
            Ok(Token::new(TokenType::Semicolon, start_col, start_line))
        } else if c == ',' {
            self.advance();
            Ok(Token::new(TokenType::Comma, start_col, start_line))
        } else if c == ':' {
            self.advance();
            Ok(Token::new(TokenType::Colon, start_col, start_line))
        } else {
            let err_char = c;
            let err_byte = c as u8;
            // Move past the unknown character, so that the next call goes on.
            self.advance();
            Err(
                TokenizerError::UnknownCharacter {
                    character: err_char,
                    byte: err_byte,
                    line: start_line,
                    column: start_col,
                },
            )
        }
    }

    /// The next token, or `None` at the end of the text. Errors are yielded
    /// as they come, and the tokenizer goes on after them.
    pub fn next(&mut self) -> (res: Option<TokenizerResult<Token>>)
        requires
            old(self).wf(),
        ensures
            final(self).wf(),
            final(self).input() == old(self).input(),
            final(self).state() == next_token_spec(old(self).input(), old(self).state()).0,
            match res {
                None => is_eof(next_token_spec(old(self).input(), old(self).state()).1),
                Some(r) => !is_eof(next_token_spec(old(self).input(), old(self).state()).1)
                    && result_view(r) == next_token_spec(old(self).input(), old(self).state()).1,
            },
            old(self).remaining() == match res {
                None => Seq::<Result<TokenView, TokenizerErrorView>>::empty(),
                Some(r) => seq![result_view(r)] + final(self).remaining(),
            },
    {
        proof {
            lemma_next_token_progress(self.input(), self.state());
        }
        match self.next_token() {
            Ok(token) => {
                if matches!(token.get_type(), TokenType::Eof) {
                    None
                } else {
                    Some(Ok(token))
                }
            },
            Err(e) => Some(Err(e)),
        }
    }

    /// Collects characters while `run` keeps them.
    fn read_run(&mut self, acc: &mut Vec<char>, run: Run)
        requires
            old(self).wf(),
        ensures
            final(self).wf(),
            final(self).input() == old(self).input(),
            (final(self).state(), final(acc)@) == scan_run(
                old(self).input(),
                old(self).state(),
                old(acc)@,
                run,
            ),
    {
        let ghost s = self.input();
        let ghost goal = scan_run(s, self.state(), acc@, run);
        loop
            invariant
                self.wf(),
                self.input() == s,
                scan_run(s, self.state(), acc@, run) == goal,
            ensures
                (self.state(), acc@) == goal,
            decreases rank(s, self.state()),
        {
            proof {
                lemma_reachable_bounds(s, self.state());
            }
            let c = self.current_char;
            let keep = match run {
                Run::Word => is_alphanumeric(c),
                Run::Digits => is_numeric(c),
                Run::Quoted => c != '\'' && c != '\0' && c != '\n',
            };
            if !keep {
                break;
            }
            proof {
                lemma_advance_rank(s, self.state());
            }
            acc.push(c);
            self.advance();
        }
    }

    fn read_identifier(&mut self, start_col: usize, start_line: usize) -> (res: TokenizerResult<Token>)
        requires
            old(self).wf(),
            is_ascii_letter(old(self).state().cur),
            start_col == old(self).state().column,
            start_line == old(self).state().line,
        ensures
            final(self).wf(),
            final(self).input() == old(self).input(),
            (final(self).state(), result_view(res)) == token_spec(
                old(self).input(),
                old(self).state(),
            ),
    {
        let mut identifier: Vec<char> = Vec::new();
        self.read_run(&mut identifier, Run::Word);
        let token_type = keyword_or_identifier(identifier);
        Ok(Token::new(token_type, start_col, start_line))
    }

    fn read_number(&mut self, start_col: usize, start_line: usize) -> (res: TokenizerResult<Token>)
        requires
            old(self).wf(),
            is_ascii_digit(old(self).state().cur),
            start_col == old(self).state().column,
            start_line == old(self).state().line,
        ensures
            final(self).wf(),
            final(self).input() == old(self).input(),
            (final(self).state(), result_view(res)) == token_spec(
                old(self).input(),
                old(self).state(),
            ),
    {
        let mut number: Vec<char> = Vec::new();
        self.read_run(&mut number, Run::Digits);
        // A point belongs to the numeral only where a digit follows it.
        if self.current_char == '.' && is_numeric(self.peek()) {
            number.push(self.current_char);
            self.advance();
            self.read_run(&mut number, Run::Digits);
        }
        if is_decimal(&number) {
            Ok(Token::new(TokenType::Number(string_from_chars(number)), start_col, start_line))
        } else {
            Err(
                TokenizerError::InvalidNumber {
                    value: string_from_chars(number),
                    line: start_line,
                    column: start_col,
                    reason: String::from_str("invalid float literal"),
                },
            )
        }
    }

    fn read_string(&mut self, quote: char, start_col: usize, start_line: usize) -> (res: TokenizerResult<Token>)
        requires
            old(self).wf(),
            quote == '\'',
            old(self).state().cur == quote,
            start_col == old(self).state().column,
            start_line == old(self).state().line,
        ensures
            final(self).wf(),
            final(self).input() == old(self).input(),
            (final(self).state(), result_view(res)) == token_spec(
                old(self).input(),
                old(self).state(),
            ),
    {
        let mut string: Vec<char> = Vec::new();
        self.advance();  // past the opening quote
        self.read_run(&mut string, Run::Quoted);
        if self.current_char == quote {
            self.advance();  // past the closing quote
            Ok(Token::new(TokenType::String(string_from_chars(string)), start_col, start_line))
        } else {
            Err(TokenizerError::UnterminatedString { line: start_line, column: start_col })
        }
    }
}

pub open spec fn tokens_result_view(r: Result<Vec<Token>, TokenizerError>) -> Result<Seq<TokenView>, TokenizerErrorView> {
    match r {
        Ok(ts) => Ok(ts@.map_values(|t: Token| t@)),
        Err(e) => Err(e@),
    }
}

pub open spec fn prepend_tokens(vs: Seq<TokenView>, r: Result<Seq<TokenView>, TokenizerErrorView>) -> Result<Seq<TokenView>, TokenizerErrorView> {
    match r {
        Ok(ts) => Ok(vs + ts),
        Err(e) => Err(e),
    }
}

/// All tokens of a text, or the first error among them.
pub fn tokens_from_input(input: &str) -> (res: Result<Vec<Token>, TokenizerError>)
    requires
        input@.len() <= isize::MAX,
    ensures
        tokens_result_view(res) == first_error_or_tokens(tokens_spec(input@, state_at(input@, 1))),
{
    let mut tokenizer = Tokenizer::new(input);
    let ghost s = input@;
    let ghost goal = first_error_or_tokens(tokens_spec(s, state_at(s, 1)));
    let mut tokens: Vec<Token> = Vec::new();
    proof {
        assert(tokens@.map_values(|t: Token| t@) =~= seq![]);
        assert(seq![] + first_error_or_tokens(tokens_spec(s, state_at(s, 1)))->Ok_0 =~= first_error_or_tokens(tokens_spec(s, state_at(s, 1)))->Ok_0);
    }
    loop
        invariant
            tokenizer.wf(),
            tokenizer.input() == s,
            s == input@,
            goal == first_error_or_tokens(tokens_spec(s, state_at(s, 1))),
            goal == prepend_tokens(
                tokens@.map_values(|t: Token| t@),
                first_error_or_tokens(tokens_spec(s, tokenizer.state())),
            ),
        decreases rank(s, tokenizer.state()),
    {
        let ghost st = tokenizer.state();
        proof {
            lemma_next_token_progress(s, st);
        }
        let ghost rest = tokens_spec(s, next_token_spec(s, st).0);
        match tokenizer.next() {
            None => {
                assert(tokens_spec(s, st) =~= seq![]);
                assert(tokens@.map_values(|t: Token| t@) + seq![] =~= tokens@.map_values(|t: Token| t@));
                return Ok(tokens);
            },
            Some(Ok(token)) => {
                let ghost tv = token@;
                assert(tokens_spec(s, st) == seq![Ok(tv)] + rest);
                assert((seq![Ok(tv)] + rest).drop_first() =~= rest);
                let ghost old_views = tokens@.map_values(|t: Token| t@);
                tokens.push(token);
                assert(tokens@.map_values(|t: Token| t@) =~= old_views.push(tv));
                proof {
                    if let Ok(ts) = first_error_or_tokens(rest) {
                        assert(old_views + (seq![tv] + ts) =~= old_views.push(tv) + ts);
                    }
                }
            },
            Some(Err(e)) => {
                assert(tokens_spec(s, st) == seq![Err(e@)] + rest);
                return Err(e);
            },
        }
    }
}

/// Whether every character of a numeral is a point or an ASCII digit.
fn is_decimal(numeral: &Vec<char>) -> (res: bool)
    ensures
        res == is_decimal_numeral(numeral@),
{
    let mut i: usize = 0;
    while i < numeral.len()
        invariant
            i <= numeral.len(),
            forall|j: int| 0 <= j < i ==> numeral@[j] == '.' || is_ascii_digit(#[trigger] numeral@[j]),
        decreases numeral.len() - i,
    {
        let c = numeral[i];
        if !(c == '.' || ('0' <= c && c <= '9')) {
            return false;
        }
        i += 1;
    }
    true
}

/// Whether a sequence of characters spells a text.
fn spells(chars: &Vec<char>, text: &str) -> (res: bool)
    ensures
        res == (chars@ == text@),
{
    let n = text.unicode_len();
    if chars.len() != n {
        return false;
    }
    let mut i: usize = 0;
    while i < n
        invariant
            n == text@.len(),
            n == chars@.len(),
            i <= n,
            forall|j: int| 0 <= j < i ==> chars@[j] == text@[j],
        decreases n - i,
    {
        if chars[i] != text.get_char(i) {
            return false;
        }
        i += 1;
    }
    assert(chars@ =~= text@);
    true
}

/// The keyword that a word spells, or else an identifier.
fn keyword_or_identifier(word: Vec<char>) -> (res: TokenType)
    ensures
        res@ == keyword_kind(word@),
{
    if spells(&word, "LOAD") {
        TokenType::Load
    } else if spells(&word, "PREDICT") {
        TokenType::Predict
    } else if spells(&word, "TRAIN") {
        TokenType::Train
    } else if spells(&word, "INIT") {
        TokenType::Init
    } else if spells(&word, "SPLIT") {
        TokenType::Split
    } else if spells(&word, "ANALYZE") {
        TokenType::Analyze
    } else if spells(&word, "EVALUATE") {
        TokenType::Evaluate
    } else if spells(&word, "SELECT") {
        TokenType::Select
    } else if spells(&word, "FROM") {
        TokenType::From
    } else {
        TokenType::Id(string_from_chars(word))
    }
}

} // verus!
