//! An unknown character is passed over like a blank: tokenizing a text gives
//! the results of tokenizing it with each reported unknown character
//! replaced by a space, and the errors for those characters besides.
use vstd::prelude::*;

use crate::chars::{is_ascii_digit, is_ascii_letter, is_digit_char};
use crate::tokenizer::{
    advance_state, char_at, is_eof, is_whitespace, lemma_advance_rank, lemma_advance_reachable,
    lemma_next_token_progress, lemma_reachable_bounds, lemma_scan_run, lemma_skip_whitespace,
    lemma_state_at, next_token_spec, rank, reachable, run_keeps, scan_run, skip_whitespace_state,
    state_at, token_spec, tokens_spec, Run, ScanState, TokenView, TokenizerErrorView,
};

verus! {

pub open spec fn is_unknown(r: Result<TokenView, TokenizerErrorView>) -> bool {
    r matches Err(TokenizerErrorView::UnknownCharacter { .. })
}

/// A character at which no token can start: the tokenizer reports it as
/// unknown where it meets it after white space.
pub open spec fn starts_no_token(c: char) -> bool {
    !(c == '\0' || is_ascii_letter(c) || is_ascii_digit(c) || c == '\'' || c == '{' || c == '}'
        || c == ';' || c == ',' || c == ':' || is_whitespace(c))
}

/// The indices of the characters that the tokenizer reports as unknown from
/// `st` on.
pub open spec fn unknown_indices(s: Seq<char>, st: ScanState) -> Set<int>
    decreases rank(s, st),
    when reachable(s, st)
{
    let (st2, r) = next_token_spec(s, st);
    if is_eof(r) {
        Set::empty()
    } else {
        proof {
            lemma_next_token_progress(s, st);
        }
        let rest = unknown_indices(s, st2);
        if is_unknown(r) {
            rest.insert(skip_whitespace_state(s, st).pos - 1)
        } else {
            rest
        }
    }
}

/// The results without the unknown-character errors.
pub open spec fn known_results(rs: Seq<Result<TokenView, TokenizerErrorView>>) -> Seq<
    Result<TokenView, TokenizerErrorView>,
>
    decreases rs.len(),
{
    if rs.len() == 0 {
        seq![]
    } else if is_unknown(rs[0]) {
        known_results(rs.drop_first())
    } else {
        seq![rs[0]] + known_results(rs.drop_first())
    }
}

/// The text with a space at each index of `q`.
pub open spec fn blanked(s: Seq<char>, q: Set<int>) -> Seq<char> {
    Seq::new(s.len(), |i: int| if q.contains(i) { ' ' } else { s[i] })
}

/// The indices of `q` hold characters at which no token starts.
pub open spec fn blankable(s: Seq<char>, q: Set<int>) -> bool {
    forall|i: int| #[trigger] q.contains(i) ==> 0 <= i < s.len() && starts_no_token(s[i])
}

/// The state of the blanked text that corresponds to `st`.
pub open spec fn blank_state(q: Set<int>, st: ScanState) -> ScanState {
    if st.pos >= 1 && q.contains(st.pos - 1) && st.cur != '\0' {
        ScanState { cur: ' ', ..st }
    } else {
        st
    }
}

proof fn lemma_blank_advance(s: Seq<char>, q: Set<int>, st: ScanState)
    requires
        reachable(s, st),
        blankable(s, q),
    ensures
        advance_state(blanked(s, q), blank_state(q, st)) == blank_state(q, advance_state(s, st)),
{
    let k = choose|k: nat| k <= s.len() + 1 && #[trigger] state_at(s, k) == st;
    lemma_state_at(s, k);
    let s2 = blanked(s, q);
    if st.pos < s.len() {
        if q.contains(st.pos as int) {
            assert(starts_no_token(s[st.pos as int]));
        }
    }
    if st.pos >= 1 && q.contains(st.pos - 1) && st.cur != '\0' {
        assert(starts_no_token(s[st.pos - 1]));
    }
}

proof fn lemma_blank_state_at(s: Seq<char>, q: Set<int>, k: nat)
    requires
        blankable(s, q),
        k <= s.len() + 1,
    ensures
        blank_state(q, state_at(s, k)) == state_at(blanked(s, q), k),
    decreases k,
{
    if k > 0 {
        lemma_blank_state_at(s, q, (k - 1) as nat);
        assert(reachable(s, state_at(s, (k - 1) as nat)));
        lemma_blank_advance(s, q, state_at(s, (k - 1) as nat));
    }
}

proof fn lemma_blank_reachable(s: Seq<char>, q: Set<int>, st: ScanState)
    requires
        reachable(s, st),
        blankable(s, q),
    ensures
        reachable(blanked(s, q), blank_state(q, st)),
{
    let k = choose|k: nat| k <= s.len() + 1 && #[trigger] state_at(s, k) == st;
    lemma_blank_state_at(s, q, k);
    assert(blanked(s, q).len() == s.len());
    assert(state_at(blanked(s, q), k) == blank_state(q, st));
}

/// Skipping white space in the blanked text from `st` ends where it ends
/// from the state at which the original text's skipping stops.
proof fn lemma_blank_skip(s: Seq<char>, q: Set<int>, st: ScanState)
    requires
        reachable(s, st),
        blankable(s, q),
    ensures
        skip_whitespace_state(blanked(s, q), blank_state(q, st)) == skip_whitespace_state(
            blanked(s, q),
            blank_state(q, skip_whitespace_state(s, st)),
        ),
    decreases rank(s, st),
{
    lemma_reachable_bounds(s, st);
    if is_whitespace(st.cur) {
        let k = choose|k: nat| k <= s.len() + 1 && #[trigger] state_at(s, k) == st;
        lemma_state_at(s, k);
        if st.pos >= 1 && q.contains(st.pos - 1) {
            assert(starts_no_token(s[st.pos - 1]));
        }
        assert(blank_state(q, st) == st);
        lemma_blank_advance(s, q, st);
        lemma_advance_rank(s, st);
        lemma_advance_reachable(s, st);
        lemma_blank_skip(s, q, advance_state(s, st));
    }
}

/// A state past which the automaton has moved lies further in the text.
proof fn lemma_rank_position(s: Seq<char>, a: ScanState, b: ScanState)
    requires
        reachable(s, a),
        reachable(s, b),
        a.cur != '\0',
        b.cur != '\0',
        rank(s, b) < rank(s, a),
    ensures
        a.pos < b.pos,
{
    lemma_reachable_bounds(s, a);
    lemma_reachable_bounds(s, b);
}

proof fn lemma_blank_scan(s: Seq<char>, q: Set<int>, x: ScanState, acc: Seq<char>, run: Run)
    requires
        reachable(s, x),
        blankable(s, q),
        forall|i: int|
            #[trigger] q.contains(i) ==> i < x.pos - 1 || (scan_run(s, x, acc, run).0.cur != '\0'
                && i >= scan_run(s, x, acc, run).0.pos - 1),
    ensures
        scan_run(blanked(s, q), blank_state(q, x), acc, run) == (
            blank_state(q, scan_run(s, x, acc, run).0),
            scan_run(s, x, acc, run).1,
        ),
    decreases rank(s, x),
{
    let s2 = blanked(s, q);
    let (e, t) = scan_run(s, x, acc, run);
    lemma_reachable_bounds(s, x);
    let k = choose|k: nat| k <= s.len() + 1 && #[trigger] state_at(s, k) == x;
    lemma_state_at(s, k);
    if x.cur != '\0' && run_keeps(run, x.cur) {
        let x2 = advance_state(s, x);
        lemma_advance_rank(s, x);
        lemma_advance_reachable(s, x);
        lemma_scan_run(s, x2, acc.push(x.cur), run);
        if x.pos >= 1 && q.contains(x.pos - 1) {
            if e.cur != '\0' {
                lemma_rank_position(s, x, e);
            }
            assert(false);
        }
        assert(blank_state(q, x) == x);
        lemma_blank_advance(s, q, x);
        lemma_blank_scan(s, q, x2, acc.push(x.cur), run);
    } else {
        if x.pos >= 1 && q.contains(x.pos - 1) && x.cur != '\0' {
            assert(starts_no_token(s[x.pos - 1]));
        }
    }
}

/// A token other than an unknown character reads the same in both texts.
proof fn lemma_blank_token(s: Seq<char>, q: Set<int>, first: ScanState)
    requires
        reachable(s, first),
        blankable(s, q),
        blank_state(q, first) == first,
        !is_unknown(token_spec(s, first).1),
        forall|i: int|
            #[trigger] q.contains(i) ==> i < first.pos - 1 || (token_spec(s, first).0.cur != '\0'
                && i >= token_spec(s, first).0.pos - 1),
    ensures
        token_spec(blanked(s, q), first) == (
            blank_state(q, token_spec(s, first).0),
            token_spec(s, first).1,
        ),
{
    let s2 = blanked(s, q);
    let c = first.cur;
    let st2 = token_spec(s, first).0;
    lemma_reachable_bounds(s, first);
    lemma_advance_rank(s, first);
    lemma_advance_reachable(s, first);
    if c == '\0' {
    } else if is_ascii_letter(c) {
        lemma_blank_scan(s, q, first, seq![], Run::Word);
    } else if is_ascii_digit(c) {
        lemma_scan_run(s, first, seq![], Run::Digits);
        let (e1, d1) = scan_run(s, first, seq![], Run::Digits);
        lemma_reachable_bounds(s, e1);
        if e1.cur != '\0' {
            lemma_rank_position(s, first, e1);
        }
        if e1.cur == '.' && is_digit_char(char_at(s, e1.pos as int)) {
            let x = advance_state(s, e1);
            lemma_advance_rank(s, e1);
            lemma_advance_reachable(s, e1);
            lemma_scan_run(s, x, d1.push('.'), Run::Digits);
            let (e3, d3) = scan_run(s, x, d1.push('.'), Run::Digits);
            assert(e1.pos < s.len());
            assert(x.cur == s[e1.pos as int]);
            assert(is_digit_char(x.cur));
            if e3.cur != '\0' {
                lemma_rank_position(s, x, e3);
            }
            assert forall|i: int| #[trigger] q.contains(i) implies i < first.pos - 1 || (e1.cur
                != '\0' && i >= e1.pos - 1) by {}
            lemma_blank_scan(s, q, first, seq![], Run::Digits);
            assert(!q.contains(e1.pos - 1));
            assert(!q.contains(e1.pos as int));
            assert(blank_state(q, e1) == e1);
            assert(char_at(s2, e1.pos as int) == char_at(s, e1.pos as int));
            lemma_blank_advance(s, q, e1);
            lemma_blank_scan(s, q, x, d1.push('.'), Run::Digits);
        } else {
            lemma_blank_scan(s, q, first, seq![], Run::Digits);
            if blank_state(q, e1) == e1 && e1.cur == '.' && e1.pos < s.len() && q.contains(
                e1.pos as int,
            ) {
                assert(s2[e1.pos as int] == ' ');
            }
            if blank_state(q, e1) == e1 && e1.cur == '.' && e1.pos < s.len() && !q.contains(
                e1.pos as int,
            ) {
                assert(s2[e1.pos as int] == s[e1.pos as int]);
            }
        }
    } else if c == '\'' {
        let x = advance_state(s, first);
        lemma_scan_run(s, x, seq![], Run::Quoted);
        let (e, t) = scan_run(s, x, seq![], Run::Quoted);
        lemma_reachable_bounds(s, e);
        let ke = choose|k: nat| k <= s.len() + 1 && #[trigger] state_at(s, k) == e;
        lemma_state_at(s, ke);
        if e.cur == '\'' {
            lemma_advance_rank(s, e);
            lemma_advance_reachable(s, e);
            let st3 = advance_state(s, e);
            if st3.cur != '\0' {
                lemma_rank_position(s, e, st3);
            }
        }
        assert forall|i: int| #[trigger] q.contains(i) implies i < x.pos - 1 || (e.cur != '\0'
            && i >= e.pos - 1) by {}
        lemma_blank_advance(s, q, first);
        lemma_blank_scan(s, q, x, seq![], Run::Quoted);
        if e.pos >= 1 && q.contains(e.pos - 1) && e.cur != '\0' {
            assert(starts_no_token(s[e.pos - 1]));
        }
        assert(blank_state(q, e) == e);
        if e.cur == '\'' {
            lemma_blank_advance(s, q, e);
        }
    } else {
        lemma_blank_advance(s, q, first);
    }
}

/// Where the unknown characters lie: each at a character at which no token
/// starts, from the current character on.
proof fn lemma_unknown_indices(s: Seq<char>, st: ScanState)
    requires
        reachable(s, st),
    ensures
        blankable(s, unknown_indices(s, st)),
        forall|i: int| #[trigger] unknown_indices(s, st).contains(i) ==> i >= st.pos - 1,
        st.cur == '\0' ==> unknown_indices(s, st) == Set::<int>::empty(),
    decreases rank(s, st),
{
    lemma_next_token_progress(s, st);
    lemma_skip_whitespace(s, st);
    let (st2, r) = next_token_spec(s, st);
    let first = skip_whitespace_state(s, st);
    if !is_eof(r) {
        lemma_unknown_indices(s, st2);
        lemma_reachable_bounds(s, st);
        assert(first.cur != '\0');
        assert(st.cur != '\0');
        let k0 = choose|k: nat| k <= s.len() + 1 && #[trigger] state_at(s, k) == st;
        lemma_state_at(s, k0);
        let k1 = choose|k: nat| k <= s.len() + 1 && #[trigger] state_at(s, k) == first;
        lemma_state_at(s, k1);
        crate::tokenizer::lemma_token_progress(s, first);
        if st2.cur != '\0' {
            lemma_rank_position(s, first, st2);
        }
        lemma_rank_position_skip(s, st);
    }
}

/// Skipping white space never moves back.
proof fn lemma_rank_position_skip(s: Seq<char>, st: ScanState)
    requires
        reachable(s, st),
        skip_whitespace_state(s, st).cur != '\0',
    ensures
        st.pos <= skip_whitespace_state(s, st).pos,
{
    lemma_skip_whitespace(s, st);
    lemma_reachable_bounds(s, st);
    lemma_reachable_bounds(s, skip_whitespace_state(s, st));
    if st.cur == '\0' {
    }
}

proof fn lemma_blank_results(s: Seq<char>, q: Set<int>, st: ScanState)
    requires
        reachable(s, st),
        blankable(s, q),
        unknown_indices(s, st).subset_of(q),
        forall|i: int|
            #[trigger] q.contains(i) && !unknown_indices(s, st).contains(i) ==> i < st.pos - 1
                || st.cur == '\0',
    ensures
        known_results(tokens_spec(s, st)) == tokens_spec(blanked(s, q), blank_state(q, st)),
    decreases rank(s, st),
{
    let s2 = blanked(s, q);
    lemma_next_token_progress(s, st);
    lemma_skip_whitespace(s, st);
    lemma_unknown_indices(s, st);
    lemma_blank_reachable(s, q, st);
    lemma_blank_skip(s, q, st);
    let (st2, r) = next_token_spec(s, st);
    let first = skip_whitespace_state(s, st);
    lemma_reachable_bounds(s, first);
    if is_eof(r) {
        assert(blank_state(q, first) == first);
        assert(tokens_spec(s, st) =~= seq![]);
    } else {
        lemma_unknown_indices(s, st2);
        lemma_blank_reachable(s, q, st2);
        assert(first.cur != '\0');
        let k1 = choose|k: nat| k <= s.len() + 1 && #[trigger] state_at(s, k) == first;
        lemma_state_at(s, k1);
        crate::tokenizer::lemma_token_progress(s, first);
        lemma_rank_position_skip(s, st);
        if st2.cur != '\0' {
            lemma_rank_position(s, first, st2);
        }
        assert(tokens_spec(s, st) == seq![r] + tokens_spec(s, st2));
        assert((seq![r] + tokens_spec(s, st2)).drop_first() =~= tokens_spec(s, st2));
        lemma_blank_results(s, q, st2);
        if is_unknown(r) {
            assert(unknown_indices(s, st).contains(first.pos - 1));
            assert(blank_state(q, first).cur == ' ');
            lemma_blank_advance(s, q, first);
            assert(skip_whitespace_state(s2, blank_state(q, first)) == skip_whitespace_state(
                s2,
                blank_state(q, st2),
            ));
            lemma_blank_skip(s, q, st2);
            assert(next_token_spec(s2, blank_state(q, st)) == next_token_spec(
                s2,
                blank_state(q, st2),
            ));
        } else {
            assert(unknown_indices(s, st) == unknown_indices(s, st2));
            assert(blank_state(q, first) == first);
            lemma_blank_token(s, q, first);
            assert(skip_whitespace_state(s2, first) == first);
            assert(next_token_spec(s2, blank_state(q, st)) == (blank_state(q, st2), r));
        }
    }
}

/// An unknown character is passed over like a blank: tokenizing a text gives,
/// besides the errors for its unknown characters, exactly the results of
/// tokenizing the text with each of those characters replaced by a space.
pub proof fn lemma_unknown_characters_are_blanks(s: Seq<char>)
    ensures
        ({
            let q = unknown_indices(s, state_at(s, 1));
            known_results(tokens_spec(s, state_at(s, 1))) == tokens_spec(
                blanked(s, q),
                state_at(blanked(s, q), 1),
            )
        }),
{
    let st = state_at(s, 1);
    assert(state_at(s, 0) == crate::tokenizer::initial_state());
    assert(reachable(s, st));
    let q = unknown_indices(s, st);
    lemma_unknown_indices(s, st);
    lemma_blank_state_at(s, q, 1);
    lemma_blank_results(s, q, st);
}

} // verus!
