//! What holds of the grammar as a whole: a program that parses is read to
//! its end, and two programs one after the other parse as the statements of
//! the first followed by those of the second. And what each part gives is
//! what its tokens carry: names, numerals and lists are taken from the
//! tokens as they stand.
use vstd::prelude::*;

use crate::parser::{
    argument_list_spec, arguments_tail_spec, at_delimiter, close_dictionary_spec, dictionary_spec,
    entries_tail_spec, entry_spec, expect_delimiter_spec, expect_identifier_spec,
    expect_number_spec, lemma_statement_advances, program_from_spec, program_spec, select_spec,
    statement_spec, step_spec, Delimiter, ParserErrorType, ParserErrorView, StatementView,
};
use crate::parser::dictionary::insert_entry;
use crate::parser::{lemma_arguments_tail, lemma_entries_tail};
use crate::token::{TokenKind, TokenView};

verus! {

/// A parse result moved `n` positions on.
pub open spec fn shifted<T>(p: (nat, Result<T, ParserErrorView>), n: nat) -> (nat, Result<T, ParserErrorView>) {
    (p.0 + n, p.1)
}

// ---------------------------------------------------------------------------
// Parsing after `ts1` is parsing `ts2`, moved by the length of `ts1`.
// ---------------------------------------------------------------------------

proof fn lemma_shift_basics(ts1: Seq<TokenView>, ts2: Seq<TokenView>, c: nat)
    requires
        ts2.len() > 0,
    ensures
        ({
            let ts = ts1 + ts2;
            let n = ts1.len();
            &&& forall|d: Delimiter| #[trigger] at_delimiter(ts, n + c, d) == at_delimiter(ts2, c, d)
            &&& forall|d: Delimiter, e: ParserErrorType|
                #[trigger] expect_delimiter_spec(ts, n + c, d, e) == shifted(
                    expect_delimiter_spec(ts2, c, d, e),
                    n,
                )
            &&& expect_identifier_spec(ts, n + c) == shifted(expect_identifier_spec(ts2, c), n)
            &&& expect_number_spec(ts, n + c) == shifted(expect_number_spec(ts2, c), n)
            &&& step_spec(ts, n + c) == step_spec(ts2, c) + n
        }),
{
    let ts = ts1 + ts2;
    let n = ts1.len();
    if c < ts2.len() {
        assert(ts[(n + c) as int] == ts2[c as int]);
    }
    assert(ts[ts.len() - 1] == ts2[ts2.len() - 1]);
}

proof fn lemma_shift_arguments_tail(ts1: Seq<TokenView>, ts2: Seq<TokenView>, c: nat, acc: Seq<Seq<char>>)
    requires
        ts2.len() > 0,
    ensures
        arguments_tail_spec(ts1 + ts2, ts1.len() + c, acc) == shifted(
            arguments_tail_spec(ts2, c, acc),
            ts1.len(),
        ),
    decreases ts2.len() - c,
{
    lemma_shift_basics(ts1, ts2, c);
    lemma_shift_basics(ts1, ts2, c + 1);
    if at_delimiter(ts2, c, Delimiter::Comma) {
        let (c2, r) = expect_identifier_spec(ts2, c + 1);
        if let Ok(id) = r {
            lemma_shift_arguments_tail(ts1, ts2, c2, acc.push(id));
            assert(ts1.len() + c + 1 + 1 == ts1.len() + c2);
        }
    }
}

proof fn lemma_shift_entry(ts1: Seq<TokenView>, ts2: Seq<TokenView>, c: nat)
    requires
        ts2.len() > 0,
    ensures
        entry_spec(ts1 + ts2, ts1.len() + c) == shifted(entry_spec(ts2, c), ts1.len()),
{
    lemma_shift_basics(ts1, ts2, c);
    lemma_shift_basics(ts1, ts2, c + 1);
    lemma_shift_basics(ts1, ts2, c + 2);
}

proof fn lemma_shift_entries_tail(
    ts1: Seq<TokenView>,
    ts2: Seq<TokenView>,
    c: nat,
    es: Seq<(Seq<char>, Seq<char>)>,
)
    requires
        ts2.len() > 0,
    ensures
        entries_tail_spec(ts1 + ts2, ts1.len() + c, es) == shifted(
            entries_tail_spec(ts2, c, es),
            ts1.len(),
        ),
    decreases ts2.len() - c,
{
    lemma_shift_basics(ts1, ts2, c);
    lemma_shift_entry(ts1, ts2, c + 1);
    if at_delimiter(ts2, c, Delimiter::Comma) {
        let (c2, r) = entry_spec(ts2, c + 1);
        if let Ok((k, v)) = r {
            lemma_shift_entries_tail(ts1, ts2, c2, insert_entry(es, k, v));
        }
    }
}

proof fn lemma_shift_dictionary(ts1: Seq<TokenView>, ts2: Seq<TokenView>, c: nat)
    requires
        ts2.len() > 0,
    ensures
        dictionary_spec(ts1 + ts2, ts1.len() + c) == shifted(dictionary_spec(ts2, c), ts1.len()),
{
    lemma_shift_basics(ts1, ts2, c);
    lemma_shift_entry(ts1, ts2, c + 1);
    let (c2, r2) = entry_spec(ts2, c + 1);
    if let Ok((k, v)) = r2 {
        lemma_shift_entries_tail(ts1, ts2, c2, insert_entry(seq![], k, v));
        let (c3, r3) = entries_tail_spec(ts2, c2, insert_entry(seq![], k, v));
        lemma_shift_basics(ts1, ts2, c3);
    }
}

proof fn lemma_shift_select(ts1: Seq<TokenView>, ts2: Seq<TokenView>, c: nat)
    requires
        1 <= c <= ts2.len(),
        ts2.len() > 0,
    ensures
        select_spec(ts1 + ts2, ts1.len() + c) == shifted(select_spec(ts2, c), ts1.len()),
{
    let ts = ts1 + ts2;
    let n = ts1.len();
    lemma_shift_basics(ts1, ts2, c);
    let c1 = step_spec(ts2, c);
    lemma_shift_basics(ts1, ts2, c1);
    if c1 <= ts2.len() {
        assert(ts[n + c1 - 1] == ts2[c1 - 1]);
    }
    let c2 = step_spec(ts2, c1);
    if c2 <= ts2.len() {
        assert(ts[n + c2 - 1] == ts2[c2 - 1]);
    }
}

proof fn lemma_shift_statement(ts1: Seq<TokenView>, ts2: Seq<TokenView>, c: nat)
    requires
        ts2.len() > 0,
        c < ts2.len(),
    ensures
        statement_spec(ts1 + ts2, ts1.len() + c) == shifted(statement_spec(ts2, c), ts1.len()),
{
    let ts = ts1 + ts2;
    let n = ts1.len();
    assert(ts[(n + c) as int] == ts2[c as int]);
    lemma_shift_basics(ts1, ts2, c + 1);
    let (a1, ra) = expect_identifier_spec(ts2, c + 1);
    if let Ok(id) = ra {
        lemma_shift_arguments_tail(ts1, ts2, a1, seq![id]);
    }
    lemma_shift_select(ts1, ts2, c + 1);
    lemma_shift_dictionary(ts1, ts2, c + 1);
}

proof fn lemma_shift_program_from(
    ts1: Seq<TokenView>,
    ts2: Seq<TokenView>,
    c: nat,
    acc: Seq<StatementView>,
)
    ensures
        program_from_spec(ts1 + ts2, ts1.len() + c, acc) == shifted(
            program_from_spec(ts2, c, acc),
            ts1.len(),
        ),
    decreases ts2.len() - c,
{
    if c < ts2.len() {
        lemma_shift_statement(ts1, ts2, c);
        lemma_statement_advances(ts2, c);
        let (c1, r1) = statement_spec(ts2, c);
        lemma_shift_basics(ts1, ts2, c1);
        if let Ok(st) = r1 {
            let (c2, r2) = expect_delimiter_spec(
                ts2,
                c1,
                Delimiter::Semicolon,
                ParserErrorType::ExpectedSemicolon,
            );
            if r2 is Ok {
                lemma_shift_program_from(ts1, ts2, c2, acc.push(st));
            }
        }
    }
}

// ---------------------------------------------------------------------------
// What parses within `ts1`, and ends before its end, parses the same way
// with more tokens after it.
// ---------------------------------------------------------------------------

proof fn lemma_prefix_basics(ts1: Seq<TokenView>, ts2: Seq<TokenView>, c: nat)
    requires
        c < ts1.len(),
    ensures
        ({
            let ts = ts1 + ts2;
            &&& forall|d: Delimiter| #[trigger] at_delimiter(ts, c, d) == at_delimiter(ts1, c, d)
            &&& forall|d: Delimiter, e: ParserErrorType|
                #[trigger] expect_delimiter_spec(ts, c, d, e) == expect_delimiter_spec(ts1, c, d, e)
            &&& expect_identifier_spec(ts, c) == expect_identifier_spec(ts1, c)
            &&& expect_number_spec(ts, c) == expect_number_spec(ts1, c)
            &&& step_spec(ts, c) == step_spec(ts1, c)
        }),
{
    assert((ts1 + ts2)[c as int] == ts1[c as int]);
}

proof fn lemma_prefix_arguments_tail(ts1: Seq<TokenView>, ts2: Seq<TokenView>, c: nat, acc: Seq<Seq<char>>)
    requires
        arguments_tail_spec(ts1, c, acc).1 is Ok,
        arguments_tail_spec(ts1, c, acc).0 < ts1.len(),
    ensures
        arguments_tail_spec(ts1 + ts2, c, acc) == arguments_tail_spec(ts1, c, acc),
    decreases ts1.len() - c,
{
    lemma_prefix_basics(ts1, ts2, c);
    if at_delimiter(ts1, c, Delimiter::Comma) {
        lemma_prefix_basics(ts1, ts2, c + 1);
        let (c2, r) = expect_identifier_spec(ts1, c + 1);
        if let Ok(id) = r {
            lemma_prefix_arguments_tail(ts1, ts2, c2, acc.push(id));
        }
    }
}

proof fn lemma_prefix_entry(ts1: Seq<TokenView>, ts2: Seq<TokenView>, c: nat)
    requires
        entry_spec(ts1, c).1 is Ok,
    ensures
        entry_spec(ts1 + ts2, c) == entry_spec(ts1, c),
        entry_spec(ts1, c).0 == c + 3,
        c + 3 <= ts1.len(),
{
    lemma_prefix_basics(ts1, ts2, c);
    lemma_prefix_basics(ts1, ts2, c + 1);
    lemma_prefix_basics(ts1, ts2, c + 2);
}

proof fn lemma_prefix_entries_tail(
    ts1: Seq<TokenView>,
    ts2: Seq<TokenView>,
    c: nat,
    es: Seq<(Seq<char>, Seq<char>)>,
)
    requires
        entries_tail_spec(ts1, c, es).1 is Ok,
        entries_tail_spec(ts1, c, es).0 < ts1.len(),
    ensures
        entries_tail_spec(ts1 + ts2, c, es) == entries_tail_spec(ts1, c, es),
    decreases ts1.len() - c,
{
    lemma_prefix_basics(ts1, ts2, c);
    if at_delimiter(ts1, c, Delimiter::Comma) {
        lemma_prefix_entry(ts1, ts2, c + 1);
        let (c2, r) = entry_spec(ts1, c + 1);
        if let Ok((k, v)) = r {
            lemma_prefix_entries_tail(ts1, ts2, c2, insert_entry(es, k, v));
        }
    }
}

proof fn lemma_prefix_statement(ts1: Seq<TokenView>, ts2: Seq<TokenView>, c: nat)
    requires
        c < ts1.len(),
        statement_spec(ts1, c).1 is Ok,
        statement_spec(ts1, c).0 < ts1.len(),
    ensures
        statement_spec(ts1 + ts2, c) == statement_spec(ts1, c),
{
    let ts = ts1 + ts2;
    lemma_prefix_basics(ts1, ts2, c);
    assert(ts[c as int] == ts1[c as int]);
    let c1 = c + 1;
    if c1 < ts1.len() {
        lemma_prefix_basics(ts1, ts2, c1);
    }
    match ts1[c as int].kind {
        crate::token::TokenKind::Analyze | crate::token::TokenKind::Evaluate => {
            let (a1, ra) = expect_identifier_spec(ts1, c1);
            if let Ok(id) = ra {
                lemma_prefix_arguments_tail(ts1, ts2, a1, seq![id]);
            }
        },
        crate::token::TokenKind::Init | crate::token::TokenKind::Split => {
            let (d2, rd2) = entry_spec(ts1, c1 + 1);
            lemma_prefix_entry(ts1, ts2, c1 + 1);
            if let Ok((k, v)) = rd2 {
                let m = insert_entry(seq![], k, v);
                let (d3, rd3) = entries_tail_spec(ts1, d2, m);
                if rd3 is Ok && d3 < ts1.len() {
                    lemma_prefix_entries_tail(ts1, ts2, d2, m);
                    lemma_prefix_basics(ts1, ts2, d3);
                }
            }
        },
        crate::token::TokenKind::Select => {
            let c2 = step_spec(ts1, c1);
            if c2 <= ts1.len() && c2 >= 1 {
                assert(ts[c2 - 1] == ts1[c2 - 1]);
            }
            if c2 < ts1.len() {
                lemma_prefix_basics(ts1, ts2, c2);
            }
            assert(ts[c1 - 1] == ts1[c1 - 1]);
        },
        _ => {},
    }
}

proof fn lemma_prefix_program_from(
    ts1: Seq<TokenView>,
    ts2: Seq<TokenView>,
    c: nat,
    acc: Seq<StatementView>,
)
    requires
        c <= ts1.len(),
        program_from_spec(ts1, c, acc).1 is Ok,
    ensures
        program_from_spec(ts1 + ts2, c, acc) == program_from_spec(
            ts1 + ts2,
            ts1.len(),
            program_from_spec(ts1, c, acc).1->Ok_0,
        ),
    decreases ts1.len() - c,
{
    if c < ts1.len() {
        lemma_statement_advances(ts1, c);
        let (c1, r1) = statement_spec(ts1, c);
        if let Ok(st) = r1 {
            let (c2, r2) = expect_delimiter_spec(
                ts1,
                c1,
                Delimiter::Semicolon,
                ParserErrorType::ExpectedSemicolon,
            );
            if r2 is Ok {
                lemma_prefix_statement(ts1, ts2, c);
                lemma_prefix_basics(ts1, ts2, c1);
                lemma_prefix_program_from(ts1, ts2, c2, acc.push(st));
            }
        }
    }
}

/// Starting with statements `acc` already parsed only puts them in front.
proof fn lemma_program_from_acc(ts: Seq<TokenView>, c: nat, acc: Seq<StatementView>)
    ensures
        program_from_spec(ts, c, acc) == (program_from_spec(ts, c, seq![]).0, match program_from_spec(
            ts,
            c,
            seq![],
        ).1 {
            Ok(b) => Ok(acc + b),
            Err(h) => Err(h),
        }),
    decreases ts.len() - c,
{
    if c >= ts.len() {
        assert(acc + seq![] =~= acc);
    } else {
        lemma_statement_advances(ts, c);
        let (c1, r1) = statement_spec(ts, c);
        if let Ok(st) = r1 {
            let (c2, r2) = expect_delimiter_spec(
                ts,
                c1,
                Delimiter::Semicolon,
                ParserErrorType::ExpectedSemicolon,
            );
            if r2 is Ok {
                lemma_program_from_acc(ts, c2, acc.push(st));
                lemma_program_from_acc(ts, c2, seq![st]);
                if let Ok(b) = program_from_spec(ts, c2, seq![]).1 {
                    assert(acc.push(st) + b =~= acc + (seq![st] + b));
                    assert(seq![].push(st) =~= seq![st]);
                }
                assert(seq![].push(st) =~= seq![st]);
            }
        }
    }
}

/// A program that parses is read to the end of its tokens.
pub proof fn lemma_program_reaches_end(ts: Seq<TokenView>, c: nat)
    requires
        c <= ts.len(),
        program_spec(ts, c).1 is Ok,
    ensures
        program_spec(ts, c).0 == ts.len(),
{
    lemma_program_from_reaches_end(ts, c, seq![]);
}

proof fn lemma_program_from_reaches_end(ts: Seq<TokenView>, c: nat, acc: Seq<StatementView>)
    requires
        c <= ts.len(),
        program_from_spec(ts, c, acc).1 is Ok,
    ensures
        program_from_spec(ts, c, acc).0 == ts.len(),
    decreases ts.len() - c,
{
    if c < ts.len() {
        lemma_statement_advances(ts, c);
        let (c1, r1) = statement_spec(ts, c);
        if let Ok(st) = r1 {
            let (c2, r2) = expect_delimiter_spec(
                ts,
                c1,
                Delimiter::Semicolon,
                ParserErrorType::ExpectedSemicolon,
            );
            if r2 is Ok {
                lemma_program_from_reaches_end(ts, c2, acc.push(st));
            }
        }
    }
}

/// Two programs one after the other: where the first parses, the tokens of
/// both parse as its statements followed by what the second gives alone
/// (its statements, or the same error).
pub proof fn lemma_program_concat(ts1: Seq<TokenView>, ts2: Seq<TokenView>)
    requires
        program_spec(ts1, 0).1 is Ok,
    ensures
        ({
            let first = program_spec(ts1, 0).1->Ok_0;
            let (e2, r2) = program_spec(ts2, 0);
            program_spec(ts1 + ts2, 0) == (ts1.len() + e2, match r2 {
                Ok(second) => Ok(first + second),
                Err(h) => Err(h),
            })
        }),
{
    let first = program_spec(ts1, 0).1->Ok_0;
    lemma_prefix_program_from(ts1, ts2, 0, seq![]);
    lemma_shift_program_from(ts1, ts2, 0, first);
    lemma_program_from_acc(ts2, 0, first);
    assert(ts1.len() + 0 == ts1.len());
}

/// The kinds of the tokens from `lo` up to `hi`.
pub open spec fn kinds(ts: Seq<TokenView>, lo: int, hi: int) -> Seq<TokenKind> {
    ts.subrange(lo, hi).map_values(|t: TokenView| t.kind)
}

/// A comma and an identifier for each of `args`, in order.
pub open spec fn comma_identifiers(args: Seq<Seq<char>>) -> Seq<TokenKind>
    decreases args.len(),
{
    if args.len() == 0 {
        seq![]
    } else {
        seq![TokenKind::Comma, TokenKind::Id(args[0])] + comma_identifiers(args.drop_first())
    }
}

/// The identifiers of `args`, in order, separated by commas.
pub open spec fn identifier_list(args: Seq<Seq<char>>) -> Seq<TokenKind> {
    if args.len() == 0 {
        seq![]
    } else {
        seq![TokenKind::Id(args[0])] + comma_identifiers(args.drop_first())
    }
}

proof fn lemma_arguments_tail_tokens(ts: Seq<TokenView>, c: nat, acc: Seq<Seq<char>>)
    requires
        c <= ts.len(),
    ensures
        arguments_tail_spec(ts, c, acc) matches (c2, Ok(args)) ==> {
            &&& acc.len() <= args.len()
            &&& args.subrange(0, acc.len() as int) == acc
            &&& c <= c2 <= ts.len()
            &&& kinds(ts, c as int, c2 as int) == comma_identifiers(
                args.subrange(acc.len() as int, args.len() as int),
            )
            &&& !at_delimiter(ts, c2, Delimiter::Comma)
        },
    decreases ts.len() - c,
{
    if at_delimiter(ts, c, Delimiter::Comma) {
        let (c2, r) = expect_identifier_spec(ts, c + 1);
        if let Ok(id) = r {
            let acc2 = acc.push(id);
            lemma_arguments_tail_tokens(ts, c2, acc2);
            match arguments_tail_spec(ts, c2, acc2) {
                (c3, Ok(args)) => {
                    let new = args.subrange(acc.len() as int, args.len() as int);
                    let rest = args.subrange(acc2.len() as int, args.len() as int);
                    assert(args.subrange(0, acc2.len() as int)[acc.len() as int] == id);
                    assert(new[0] == id);
                    assert(new.drop_first() =~= rest);
                    assert(args.subrange(0, acc.len() as int) =~= args.subrange(
                        0,
                        acc2.len() as int,
                    ).drop_last());
                    assert(acc2.drop_last() =~= acc);
                    assert(kinds(ts, c as int, c3 as int) =~= seq![TokenKind::Comma, TokenKind::Id(id)]
                        + kinds(ts, c2 as int, c3 as int));
                },
                _ => {},
            }
        }
    } else {
        assert(kinds(ts, c as int, c as int) =~= seq![]);
        assert(acc.subrange(acc.len() as int, acc.len() as int) =~= seq![]);
        assert(acc.subrange(0, acc.len() as int) =~= acc);
    }
}

/// An argument list is the identifiers that its tokens hold: where it
/// parses from `c` to `c2`, it has at least one identifier, the tokens in
/// between are exactly its identifiers in order, separated by commas, and no
/// comma follows.
pub proof fn lemma_argument_list_tokens(ts: Seq<TokenView>, c: nat)
    requires
        c <= ts.len(),
    ensures
        argument_list_spec(ts, c) matches (c2, Ok(args)) ==> {
            &&& args.len() >= 1
            &&& c < c2 <= ts.len()
            &&& kinds(ts, c as int, c2 as int) == identifier_list(args)
            &&& !at_delimiter(ts, c2, Delimiter::Comma)
        },
{
    let (c1, r) = expect_identifier_spec(ts, c);
    if let Ok(id) = r {
        lemma_arguments_tail_tokens(ts, c1, seq![id]);
        match arguments_tail_spec(ts, c1, seq![id]) {
            (c2, Ok(args)) => {
                assert(args.subrange(0, 1)[0] == id);
                assert(args.subrange(1, args.len() as int) =~= args.drop_first());
                assert(kinds(ts, c as int, c2 as int) =~= seq![TokenKind::Id(id)] + kinds(
                    ts,
                    c1 as int,
                    c2 as int,
                ));
            },
            _ => {},
        }
    }
}

/// An entry is an identifier, a colon and a number: it parses from `c`
/// exactly when these three tokens stand there, and then it is the
/// identifier's text with the number's numeral, as the tokens carry them,
/// and parsing goes on after the number.
pub proof fn lemma_entry_tokens(ts: Seq<TokenView>, c: nat, k: Seq<char>, v: Seq<char>)
    ensures
        entry_spec(ts, c).1 is Ok ==> entry_spec(ts, c).0 == c + 3,
        entry_spec(ts, c) == (c + 3, Ok::<(Seq<char>, Seq<char>), ParserErrorView>((k, v))) <==> (
        c + 3 <= ts.len() && kinds(ts, c as int, (c + 3) as int) == seq![
            TokenKind::Id(k),
            TokenKind::Colon,
            TokenKind::Number(v),
        ]),
{
    if c + 3 <= ts.len() {
        assert(kinds(ts, c as int, (c + 3) as int) =~= seq![
            ts[c as int].kind,
            ts[(c + 1) as int].kind,
            ts[(c + 2) as int].kind,
        ]);
    }
}

/// An identifier, a colon and a number at `p`, `p + 1` and `p + 2`, carrying
/// the key and the value of the entry `e`.
pub open spec fn entry_at(ts: Seq<TokenView>, p: int, e: (Seq<char>, Seq<char>)) -> bool {
    &&& 0 <= p
    &&& p + 3 <= ts.len()
    &&& kinds(ts, p, p + 3) == seq![TokenKind::Id(e.0), TokenKind::Colon, TokenKind::Number(e.1)]
}

/// The entry `e` stands as an identifier, a colon and a number after `lo`
/// and before `hi`.
pub open spec fn entry_between(ts: Seq<TokenView>, lo: int, hi: int, e: (Seq<char>, Seq<char>)) -> bool {
    exists|p: int| lo < p && p + 3 <= hi && #[trigger] entry_at(ts, p, e)
}

proof fn lemma_insert_entry_elements(es: Seq<(Seq<char>, Seq<char>)>, k: Seq<char>, v: Seq<char>)
    ensures
        forall|i: int|
            0 <= i < insert_entry(es, k, v).len() ==> #[trigger] insert_entry(es, k, v)[i] == (k, v)
                || (i < es.len() && insert_entry(es, k, v)[i] == es[i]),
{
}

proof fn lemma_entries_tail_from_tokens(
    ts: Seq<TokenView>,
    c0: int,
    c: nat,
    es: Seq<(Seq<char>, Seq<char>)>,
)
    requires
        c0 < c <= ts.len(),
        forall|i: int| 0 <= i < es.len() ==> entry_between(ts, c0, c as int, #[trigger] es[i]),
    ensures
        entries_tail_spec(ts, c, es) matches (c2, Ok(es2)) ==> {
            &&& c <= c2 <= ts.len()
            &&& forall|i: int| 0 <= i < es2.len() ==> entry_between(ts, c0, c2 as int, #[trigger] es2[i])
        },
    decreases ts.len() - c,
{
    lemma_entries_tail(ts, c, es);
    if at_delimiter(ts, c, Delimiter::Comma) {
        let (c2, r) = entry_spec(ts, c + 1);
        if let Ok((k, v)) = r {
            lemma_entry_tokens(ts, c + 1, k, v);
            assert(entry_at(ts, (c + 1) as int, (k, v)));
            let es2 = insert_entry(es, k, v);
            lemma_insert_entry_elements(es, k, v);
            assert forall|i: int| 0 <= i < es2.len() implies entry_between(ts, c0, c2 as int, #[trigger] es2[i]) by {
                if es2[i] == (k, v) {
                    assert(entry_at(ts, (c + 1) as int, es2[i]));
                } else {
                    assert(entry_between(ts, c0, c as int, es[i]));
                    let p = choose|p: int| c0 < p && p + 3 <= c && #[trigger] entry_at(ts, p, es[i]);
                    assert(entry_at(ts, p, es2[i]));
                }
            }
            lemma_entries_tail_from_tokens(ts, c0, c2, es2);
        }
    }
}

/// A dictionary holds only what its tokens say: where it parses from `c` to
/// `c2`, it opens with a brace at `c` and closes with one at `c2 - 1`, and
/// every entry in it, key and value alike, stands between the braces as an
/// identifier, a colon and a number that carry that key and that value.
pub proof fn lemma_dictionary_from_tokens(ts: Seq<TokenView>, c: nat)
    ensures
        dictionary_spec(ts, c) matches (c2, Ok(es)) ==> {
            &&& c + 1 < c2 <= ts.len()
            &&& ts[c as int].kind == TokenKind::LeftBrace
            &&& ts[c2 - 1].kind == TokenKind::RightBrace
            &&& forall|i: int| 0 <= i < es.len() ==> entry_between(ts, c as int, c2 - 1, #[trigger] es[i])
        },
{
    let (c1, r1) = expect_delimiter_spec(ts, c, Delimiter::LeftBrace, ParserErrorType::NotADictionary);
    if r1 is Ok {
        let (c2, r2) = entry_spec(ts, c1);
        if let Ok((k, v)) = r2 {
            lemma_entry_tokens(ts, c1, k, v);
            assert(entry_at(ts, c1 as int, (k, v)));
            let es0 = insert_entry(seq![], k, v);
            lemma_insert_entry_elements(seq![], k, v);
            assert forall|i: int| 0 <= i < es0.len() implies entry_between(ts, c as int, c2 as int, #[trigger] es0[i]) by {
                assert(entry_at(ts, c1 as int, es0[i]));
            }
            lemma_entries_tail_from_tokens(ts, c as int, c2, es0);
        }
    }
}

/// `LOAD` and `PREDICT` name exactly the identifier that follows them: from
/// such a keyword at `c`, the statement parses exactly when an identifier
/// follows, and then it is that keyword's statement with that identifier's
/// text, and parsing goes on after the identifier.
pub proof fn lemma_load_predict_tokens(ts: Seq<TokenView>, c: nat, x: Seq<char>)
    requires
        c < ts.len(),
    ensures
        ts[c as int].kind is Load ==> (statement_spec(ts, c) == (
            c + 2,
            Ok::<StatementView, ParserErrorView>(StatementView::Load(x)),
        ) <==> c + 1 < ts.len() && ts[(c + 1) as int].kind == TokenKind::Id(x)),
        ts[c as int].kind is Predict ==> (statement_spec(ts, c) == (
            c + 2,
            Ok::<StatementView, ParserErrorView>(StatementView::Predict(x)),
        ) <==> c + 1 < ts.len() && ts[(c + 1) as int].kind == TokenKind::Id(x)),
        ts[c as int].kind is Load || ts[c as int].kind is Predict ==> (statement_spec(ts, c).1 is Ok
            <==> c + 1 < ts.len() && ts[(c + 1) as int].kind is Id),
{
}

} // verus!
