//! Syntax analysis: a recursive-descent parser from tokens to statements.
//!
//! ```text
//! program        → statement* EOF
//! statement      → loadStmt | predictStmt | analyzeStmt | evaluateStmt
//!                  | trainStmt | selectStmt | splitStmt | initStmt
//! loadStmt       → "LOAD" identifier ";"
//! predictStmt    → "PREDICT" identifier ";"
//! analyzeStmt    → "ANALYZE" argumentList ";"
//! evaluateStmt   → "EVALUATE" argumentList ";"
//! trainStmt      → "TRAIN" ";"
//! selectStmt     → "SELECT" (identifier | "FROM" string) ";"
//! splitStmt      → "SPLIT" dictionary ";"
//! initStmt       → "INIT" dictionary ";"
//! argumentList   → identifier ("," identifier)*
//! dictionary     → "{" identifier ":" number ("," identifier ":" number)* "}"
//! ```
use vstd::prelude::*;

use crate::chars::string_from_chars;
use crate::parser::dictionary::insert_entry;
use crate::token::{Token, TokenKind, TokenType, TokenView};

pub mod dictionary;
pub mod laws;
mod error;
mod statement;

pub use crate::parser::dictionary::Dictionary;
pub use crate::parser::error::{ParserError, ParserErrorType, ParserErrorView, ParserResult};
pub use crate::parser::statement::{Select, SelectView, Statement, StatementView};

verus! {

// ---------------------------------------------------------------------------
// The grammar as mathematics: each function takes the tokens and the
// position of the next token, and gives the position after it and what was
// parsed.
// ---------------------------------------------------------------------------

pub open spec fn fail(t: TokenView, error_type: ParserErrorType) -> ParserErrorView {
    ParserErrorView { token: t, error_type }
}

/// The token that an error at position `c` names: the token there, or, where
/// the tokens have run out, the last one.
pub open spec fn offending_token(ts: Seq<TokenView>, c: nat) -> TokenView {
    if c < ts.len() {
        ts[c as int]
    } else {
        ts[ts.len() - 1]
    }
}

/// The punctuation tokens that the grammar asks for.
pub enum Delimiter {
    Semicolon,
    Colon,
    Comma,
    LeftBrace,
    RightBrace,
}

pub open spec fn delimiter_kind(d: Delimiter) -> TokenKind {
    match d {
        Delimiter::Semicolon => TokenKind::Semicolon,
        Delimiter::Colon => TokenKind::Colon,
        Delimiter::Comma => TokenKind::Comma,
        Delimiter::LeftBrace => TokenKind::LeftBrace,
        Delimiter::RightBrace => TokenKind::RightBrace,
    }
}

/// Whether the token at `c` is the delimiter `d`.
pub open spec fn at_delimiter(ts: Seq<TokenView>, c: nat, d: Delimiter) -> bool {
    c < ts.len() && ts[c as int].kind == delimiter_kind(d)
}

/// The delimiter `d`; another token, or none, is the error `error_type`.
pub open spec fn expect_delimiter_spec(
    ts: Seq<TokenView>,
    c: nat,
    d: Delimiter,
    error_type: ParserErrorType,
) -> (nat, Result<(), ParserErrorView>) {
    if at_delimiter(ts, c, d) {
        (c + 1, Ok(()))
    } else {
        (c, Err(fail(offending_token(ts, c), error_type)))
    }
}

pub open spec fn expect_identifier_spec(ts: Seq<TokenView>, c: nat) -> (nat, Result<Seq<char>, ParserErrorView>) {
    if c < ts.len() {
        match ts[c as int].kind {
            TokenKind::Id(id) => (c + 1, Ok(id)),
            _ => (c, Err(fail(ts[c as int], ParserErrorType::ExpectedId))),
        }
    } else {
        (c, Err(fail(offending_token(ts, c), ParserErrorType::ExpectedId)))
    }
}

pub open spec fn expect_number_spec(ts: Seq<TokenView>, c: nat) -> (nat, Result<Seq<char>, ParserErrorView>) {
    if c < ts.len() {
        match ts[c as int].kind {
            TokenKind::Number(n) => (c + 1, Ok(n)),
            _ => (c, Err(fail(ts[c as int], ParserErrorType::ExpectedNumber))),
        }
    } else {
        (c, Err(fail(offending_token(ts, c), ParserErrorType::ExpectedNumber)))
    }
}

/// `("," identifier)*`, appended to `acc`.
pub open spec fn arguments_tail_spec(ts: Seq<TokenView>, c: nat, acc: Seq<Seq<char>>) -> (
    nat,
    Result<Seq<Seq<char>>, ParserErrorView>,
)
    decreases ts.len() - c,
{
    if at_delimiter(ts, c, Delimiter::Comma) {
        let (c2, r) = expect_identifier_spec(ts, c + 1);
        match r {
            Ok(id) => arguments_tail_spec(ts, c2, acc.push(id)),
            Err(h) => (c2, Err(h)),
        }
    } else {
        (c, Ok(acc))
    }
}

/// `identifier ("," identifier)*`
pub open spec fn argument_list_spec(ts: Seq<TokenView>, c: nat) -> (nat, Result<Seq<Seq<char>>, ParserErrorView>) {
    let (c1, r) = expect_identifier_spec(ts, c);
    match r {
        Ok(id) => arguments_tail_spec(ts, c1, seq![id]),
        Err(h) => (c1, Err(h)),
    }
}

/// `identifier ":" number`
pub open spec fn entry_spec(ts: Seq<TokenView>, c: nat) -> (nat, Result<(Seq<char>, Seq<char>), ParserErrorView>) {
    let (c1, r1) = expect_identifier_spec(ts, c);
    match r1 {
        Err(h) => (c1, Err(h)),
        Ok(key) => {
            let (c2, r2) = expect_delimiter_spec(ts, c1, Delimiter::Colon, ParserErrorType::ExpectedColon);
            match r2 {
                Err(h) => (c2, Err(h)),
                Ok(_) => {
                    let (c3, r3) = expect_number_spec(ts, c2);
                    match r3 {
                        Err(h) => (c3, Err(h)),
                        Ok(value) => (c3, Ok((key, value))),
                    }
                },
            }
        },
    }
}

/// `("," identifier ":" number)*`, each entry written into `es` in order.
pub open spec fn entries_tail_spec(ts: Seq<TokenView>, c: nat, es: Seq<(Seq<char>, Seq<char>)>) -> (
    nat,
    Result<Seq<(Seq<char>, Seq<char>)>, ParserErrorView>,
)
    decreases ts.len() - c,
{
    if at_delimiter(ts, c, Delimiter::Comma) {
        let (c2, r) = entry_spec(ts, c + 1);
        match r {
            Ok((k, v)) => entries_tail_spec(ts, c2, insert_entry(es, k, v)),
            Err(h) => (c2, Err(h)),
        }
    } else {
        (c, Ok(es))
    }
}

/// The closing brace after the entries of a dictionary.
pub open spec fn close_dictionary_spec(ts: Seq<TokenView>, entries: (nat, Result<Seq<(Seq<char>, Seq<char>)>, ParserErrorView>)) -> (
    nat,
    Result<Seq<(Seq<char>, Seq<char>)>, ParserErrorView>,
) {
    match entries {
        (c3, Err(h)) => (c3, Err(h)),
        (c3, Ok(es)) => match expect_delimiter_spec(
            ts,
            c3,
            Delimiter::RightBrace,
            ParserErrorType::NonTerminatedDictionary,
        ) {
            (c4, Err(h)) => (c4, Err(h)),
            (c4, Ok(_)) => (c4, Ok(es)),
        },
    }
}

/// `"{" identifier ":" number ("," identifier ":" number)* "}"`: the entries
/// with distinct keys, in the order in which each key first appears, each
/// with the value written last for it.
pub open spec fn dictionary_spec(ts: Seq<TokenView>, c: nat) -> (nat, Result<Seq<(Seq<char>, Seq<char>)>, ParserErrorView>) {
    let (c1, r1) = expect_delimiter_spec(ts, c, Delimiter::LeftBrace, ParserErrorType::NotADictionary);
    match r1 {
        Err(h) => (c1, Err(h)),
        Ok(_) => {
            let (c2, r2) = entry_spec(ts, c1);
            match r2 {
                Err(h) => (c2, Err(h)),
                Ok((k, v)) => close_dictionary_spec(ts, entries_tail_spec(ts, c2, insert_entry(seq![], k, v))),
            }
        },
    }
}

/// One step forward, unless at the end.
pub open spec fn step_spec(ts: Seq<TokenView>, c: nat) -> nat {
    if c < ts.len() {
        c + 1
    } else {
        c
    }
}

/// After `SELECT` (at position `c >= 1`): the next token is an identifier, or
/// `FROM` and a string. A missing token counts as the one before it.
pub open spec fn select_spec(ts: Seq<TokenView>, c: nat) -> (nat, Result<SelectView, ParserErrorView>) {
    let c1 = step_spec(ts, c);
    let t1 = ts[c1 - 1];
    match t1.kind {
        TokenKind::Id(id) => (c1, Ok(SelectView::Identifier(id))),
        TokenKind::From => {
            let c2 = step_spec(ts, c1);
            let t2 = ts[c2 - 1];
            match t2.kind {
                TokenKind::Str(s) => (c2, Ok(SelectView::From(s))),
                _ => (c2, Err(fail(t2, ParserErrorType::NoStringAfterFrom))),
            }
        },
        _ => (c1, Err(fail(t1, ParserErrorType::InvalidSelect))),
    }
}

pub open spec fn load_spec(ts: Seq<TokenView>, c: nat) -> (nat, Result<StatementView, ParserErrorView>) {
    match expect_identifier_spec(ts, c) {
        (c1, Ok(id)) => (c1, Ok(StatementView::Load(id))),
        (c1, Err(h)) => (c1, Err(h)),
    }
}

pub open spec fn predict_spec(ts: Seq<TokenView>, c: nat) -> (nat, Result<StatementView, ParserErrorView>) {
    match expect_identifier_spec(ts, c) {
        (c1, Ok(id)) => (c1, Ok(StatementView::Predict(id))),
        (c1, Err(h)) => (c1, Err(h)),
    }
}

pub open spec fn analyze_spec(ts: Seq<TokenView>, c: nat) -> (nat, Result<StatementView, ParserErrorView>) {
    match argument_list_spec(ts, c) {
        (c1, Ok(args)) => (c1, Ok(StatementView::Analyze(args))),
        (c1, Err(h)) => (c1, Err(h)),
    }
}

pub open spec fn evaluate_spec(ts: Seq<TokenView>, c: nat) -> (nat, Result<StatementView, ParserErrorView>) {
    match argument_list_spec(ts, c) {
        (c1, Ok(args)) => (c1, Ok(StatementView::Evaluate(args))),
        (c1, Err(h)) => (c1, Err(h)),
    }
}

pub open spec fn select_statement_spec(ts: Seq<TokenView>, c: nat) -> (nat, Result<StatementView, ParserErrorView>) {
    match select_spec(ts, c) {
        (c1, Ok(sel)) => (c1, Ok(StatementView::Select(sel))),
        (c1, Err(h)) => (c1, Err(h)),
    }
}

pub open spec fn init_spec(ts: Seq<TokenView>, c: nat) -> (nat, Result<StatementView, ParserErrorView>) {
    match dictionary_spec(ts, c) {
        (c1, Ok(es)) => (c1, Ok(StatementView::Init(es))),
        (c1, Err(h)) => (c1, Err(h)),
    }
}

pub open spec fn split_spec(ts: Seq<TokenView>, c: nat) -> (nat, Result<StatementView, ParserErrorView>) {
    match dictionary_spec(ts, c) {
        (c1, Ok(es)) => (c1, Ok(StatementView::Split(es))),
        (c1, Err(h)) => (c1, Err(h)),
    }
}

/// One statement, starting at the token at `c` (which exists).
pub open spec fn statement_spec(ts: Seq<TokenView>, c: nat) -> (nat, Result<StatementView, ParserErrorView>) {
    let c1 = c + 1;
    match ts[c as int].kind {
        TokenKind::Load => load_spec(ts, c1),
        TokenKind::Predict => predict_spec(ts, c1),
        TokenKind::Analyze => analyze_spec(ts, c1),
        TokenKind::Evaluate => evaluate_spec(ts, c1),
        TokenKind::Train => (c1, Ok(StatementView::Train)),
        TokenKind::Select => select_statement_spec(ts, c1),
        TokenKind::Init => init_spec(ts, c1),
        TokenKind::Split => split_spec(ts, c1),
        _ => (c, Err(fail(ts[c as int], ParserErrorType::InvalidStatement))),
    }
}

/// `statement ";"`, repeated to the end of the tokens; the statements are
/// appended to `acc`.
pub open spec fn program_from_spec(ts: Seq<TokenView>, c: nat, acc: Seq<StatementView>) -> (
    nat,
    Result<Seq<StatementView>, ParserErrorView>,
)
    decreases ts.len() - c,
{
    if c >= ts.len() {
        (c, Ok(acc))
    } else {
        let (c1, r1) = statement_spec(ts, c);
        match r1 {
            Err(h) => (c1, Err(h)),
            Ok(st) => {
                let (c2, r2) = expect_delimiter_spec(
                    ts,
                    c1,
                    Delimiter::Semicolon,
                    ParserErrorType::ExpectedSemicolon,
                );
                match r2 {
                    Err(h) => (c2, Err(h)),
                    Ok(_) => {
                        proof {
                            lemma_statement_advances(ts, c);
                        }
                        program_from_spec(ts, c2, acc.push(st))
                    },
                }
            },
        }
    }
}

pub proof fn lemma_arguments_tail(ts: Seq<TokenView>, c: nat, acc: Seq<Seq<char>>)
    ensures
        arguments_tail_spec(ts, c, acc).0 >= c,
        c <= ts.len() ==> arguments_tail_spec(ts, c, acc).0 <= ts.len(),
    decreases ts.len() - c,
{
    if at_delimiter(ts, c, Delimiter::Comma) {
        let (c2, r) = expect_identifier_spec(ts, c + 1);
        if let Ok(id) = r {
            lemma_arguments_tail(ts, c2, acc.push(id));
        }
    }
}

pub proof fn lemma_entries_tail(ts: Seq<TokenView>, c: nat, es: Seq<(Seq<char>, Seq<char>)>)
    ensures
        entries_tail_spec(ts, c, es).0 >= c,
        c <= ts.len() ==> entries_tail_spec(ts, c, es).0 <= ts.len(),
    decreases ts.len() - c,
{
    if at_delimiter(ts, c, Delimiter::Comma) {
        let (c2, r) = entry_spec(ts, c + 1);
        if let Ok((k, v)) = r {
            lemma_entries_tail(ts, c2, insert_entry(es, k, v));
        }
    }
}

/// A statement that parses moves past at least its keyword, and never past
/// the end of the tokens.
pub proof fn lemma_statement_advances(ts: Seq<TokenView>, c: nat)
    requires
        c < ts.len(),
    ensures
        statement_spec(ts, c).0 <= ts.len(),
        statement_spec(ts, c).1 is Ok ==> statement_spec(ts, c).0 > c,
{
    let c1 = c + 1;
    let (a1, ra) = expect_identifier_spec(ts, c1);
    if let Ok(id) = ra {
        lemma_arguments_tail(ts, a1, seq![id]);
    }
    let (d1, rd1) = expect_delimiter_spec(ts, c1, Delimiter::LeftBrace, ParserErrorType::NotADictionary);
    let (d2, rd2) = entry_spec(ts, d1);
    if let Ok((k, v)) = rd2 {
        lemma_entries_tail(ts, d2, insert_entry(seq![], k, v));
    }
}

/// A whole program from position `c` on.
pub open spec fn program_spec(ts: Seq<TokenView>, c: nat) -> (nat, Result<Seq<StatementView>, ParserErrorView>) {
    program_from_spec(ts, c, seq![])
}

// ---------------------------------------------------------------------------
// The parser in code
// ---------------------------------------------------------------------------

pub open spec fn unit_outcome<T>(r: ParserResult<T>) -> Result<(), ParserErrorView> {
    match r {
        Ok(_) => Ok(()),
        Err(e) => Err(e@),
    }
}

pub open spec fn outcome<T: View>(r: ParserResult<T>) -> Result<T::V, ParserErrorView> {
    match r {
        Ok(t) => Ok(t@),
        Err(e) => Err(e@),
    }
}

pub open spec fn entries_outcome(r: ParserResult<Dictionary>) -> Result<Seq<(Seq<char>, Seq<char>)>, ParserErrorView> {
    match r {
        Ok(d) => Ok(d.entries_view()),
        Err(e) => Err(e@),
    }
}

pub open spec fn list_outcome(r: ParserResult<Vec<String>>) -> Result<Seq<Seq<char>>, ParserErrorView> {
    match r {
        Ok(v) => Ok(v.deep_view()),
        Err(e) => Err(e@),
    }
}

/// A parser over a sequence of tokens, with the position of the next token.
pub struct Parser {
    tokens: Vec<Token>,
    current: usize,
}

impl Parser {
    /// The tokens.
    pub closed spec fn tokens(&self) -> Seq<TokenView> {
        self.tokens@.map_values(|t: Token| t@)
    }

    /// The position of the next token.
    pub closed spec fn current(&self) -> nat {
        self.current as nat
    }

    /// A parser at the first of `tokens`.
    pub fn new(tokens: Vec<Token>) -> (res: Self)
        ensures
            res.tokens() == tokens@.map_values(|t: Token| t@),
            res.current() == 0,
    {
        Self { current: 0, tokens }
    }

    /// Parses statements, each followed by a semicolon, up to the end of the
    /// tokens, and stops at the first error. Where the tokens run out in the
    /// middle of a statement, the error is the one that the missing token
    /// would have given, at the last token.
    pub fn program(&mut self) -> (res: ParserResult<Vec<Statement>>)
        ensures
            final(self).tokens() == old(self).tokens(),
            final(self).current() == program_spec(old(self).tokens(), old(self).current()).0,
            match res {
                Ok(statements) => program_spec(old(self).tokens(), old(self).current()).1
                    == Ok::<Seq<StatementView>, ParserErrorView>(statements@.map_values(|s: Statement| s@))
                    && forall|i: int| 0 <= i < statements@.len() ==> (#[trigger] statements@[i]).wf(),
                Err(e) => program_spec(old(self).tokens(), old(self).current()).1
                    == Err::<Seq<StatementView>, ParserErrorView>(e@),
            },
    {
        let ghost ts = self.tokens();
        let ghost c0 = self.current();
        let mut statements: Vec<Statement> = Vec::new();
        proof {
            assert(statements@.map_values(|s: Statement| s@) =~= Seq::<StatementView>::empty());
        }
        while !self.is_at_end()
            invariant
                self.tokens() == ts,
                ts == old(self).tokens(),
                c0 == old(self).current(),
                program_from_spec(ts, self.current(), statements@.map_values(|s: Statement| s@))
                    == program_from_spec(ts, c0, seq![]),
                forall|i: int| 0 <= i < statements@.len() ==> (#[trigger] statements@[i]).wf(),
            decreases ts.len() - self.current(),
        {
            let ghost c = self.current();
            let ghost acc = statements@.map_values(|s: Statement| s@);
            proof {
                lemma_statement_advances(ts, c);
            }
            let statement = match self.statement() {
                Ok(st) => st,
                Err(stop) => {
                    return Err(stop);
                },
            };
            self.expect_delimiter(Delimiter::Semicolon, ParserErrorType::ExpectedSemicolon)?;
            let ghost sv = statement@;
            statements.push(statement);
            proof {
                assert(statements@.map_values(|s: Statement| s@) =~= acc.push(sv));
            }
        }
        proof {
            assert(program_from_spec(ts, self.current(), statements@.map_values(|s: Statement| s@))
                == (self.current(), Ok::<Seq<StatementView>, ParserErrorView>(
                statements@.map_values(|s: Statement| s@),
            )));
        }
        Ok(statements)
    }

    fn statement(&mut self) -> (res: ParserResult<Statement>)
        requires
            old(self).current() < old(self).tokens().len(),
        ensures
            final(self).tokens() == old(self).tokens(),
            final(self).current() == statement_spec(old(self).tokens(), old(self).current()).0,
            outcome(res) == statement_spec(old(self).tokens(), old(self).current()).1,
            res matches Ok(s) ==> s.wf(),
    {
        match self.peek().unwrap().get_type() {
            TokenType::Load => {
                self.advance();
                self.parse_load()
            },
            TokenType::Predict => {
                self.advance();
                self.parse_predict()
            },
            TokenType::Analyze => {
                self.advance();
                self.parse_analyze()
            },
            TokenType::Evaluate => {
                self.advance();
                self.parse_evaluate()
            },
            TokenType::Train => {
                self.advance();
                self.parse_train()
            },
            TokenType::Select => {
                self.advance();
                self.parse_select()
            },
            TokenType::Init => {
                self.advance();
                self.parse_init()
            },
            TokenType::Split => {
                self.advance();
                self.parse_split()
            },
            _ => Err(
                ParserError::new(self.peek().unwrap().clone(), ParserErrorType::InvalidStatement),
            ),
        }
    }

    /// Moves to the next token, unless at the end; returns the token before
    /// the new position.
    fn advance(&mut self) -> (res: Option<&Token>)
        ensures
            final(self).tokens() == old(self).tokens(),
            final(self).current() == step_spec(old(self).tokens(), old(self).current()),
            match res {
                Some(t) => 0 < final(self).current() <= final(self).tokens().len() && t@
                    == final(self).tokens()[final(self).current() - 1],
                None => final(self).current() == 0 || final(self).current() > final(self).tokens().len(),
            },
    {
        if !self.is_at_end() {
            self.current += 1;
        }
        self.previous()
    }

    /// The next token, if there is one.
    fn peek(&self) -> (res: Option<&Token>)
        ensures
            match res {
                Some(t) => self.current() < self.tokens().len() && t@ == self.tokens()[self.current() as int],
                None => self.current() >= self.tokens().len(),
            },
    {
        if self.current < self.tokens.len() {
            Some(&self.tokens[self.current])
        } else {
            None
        }
    }

    /// The token before the next one, if there is one.
    fn previous(&self) -> (res: Option<&Token>)
        ensures
            match res {
                Some(t) => 0 < self.current() <= self.tokens().len() && t@ == self.tokens()[self.current() - 1],
                None => self.current() == 0 || self.current() > self.tokens().len(),
            },
    {
        if self.current == 0 {
            None
        } else if self.current - 1 < self.tokens.len() {
            Some(&self.tokens[self.current - 1])
        } else {
            None
        }
    }

    fn is_at_end(&self) -> (res: bool)
        ensures
            res == (self.current() >= self.tokens().len()),
            self.tokens().len() <= usize::MAX,
    {
        self.current >= self.tokens.len()
    }

    /// The token that an error here names: the next one, or the last one
    /// where the tokens have run out.
    fn offending_token(&self) -> (res: Token)
        requires
            self.tokens().len() > 0,
        ensures
            res@ == offending_token(self.tokens(), self.current()),
    {
        match self.peek() {
            Some(token) => token.clone(),
            None => self.tokens[self.tokens.len() - 1].clone(),
        }
    }

    /// Moves past the next token where it is the delimiter `d`.
    fn match_token(&mut self, d: Delimiter) -> (res: bool)
        ensures
            final(self).tokens() == old(self).tokens(),
            res == at_delimiter(old(self).tokens(), old(self).current(), d),
            final(self).current() == if res { old(self).current() + 1 } else { old(self).current() },
    {
        match self.peek() {
            Some(next_token) => {
                if is_delimiter(next_token.get_type(), d) {
                    self.advance();
                    true
                } else {
                    false
                }
            },
            None => false,
        }
    }

    /// The delimiter `d`; another token, or none, is the error `error_type`.
    fn expect_delimiter(&mut self, d: Delimiter, error_type: ParserErrorType) -> (res: ParserResult<()>)
        requires
            old(self).tokens().len() > 0,
        ensures
            final(self).tokens() == old(self).tokens(),
            final(self).current() == expect_delimiter_spec(old(self).tokens(), old(self).current(), d, error_type).0,
            unit_outcome(res) == expect_delimiter_spec(old(self).tokens(), old(self).current(), d, error_type).1,
    {
        if !self.match_token(d) {
            return Err(ParserError::new(self.offending_token(), error_type));
        }
        Ok(())
    }

    fn expect_identifier(&mut self) -> (res: ParserResult<String>)
        requires
            old(self).tokens().len() > 0,
        ensures
            final(self).tokens() == old(self).tokens(),
            final(self).current() == expect_identifier_spec(old(self).tokens(), old(self).current()).0,
            outcome(res) == expect_identifier_spec(old(self).tokens(), old(self).current()).1,
    {
        match self.peek() {
            Some(next_token) => match next_token.get_type() {
                TokenType::Id(id) => {
                    let id = id.clone();
                    self.advance();
                    Ok(id)
                },
                _ => Err(
                    ParserError::new(next_token.clone(), ParserErrorType::ExpectedId),
                ),
            },
            None => Err(ParserError::new(self.offending_token(), ParserErrorType::ExpectedId)),
        }
    }

    fn expect_number(&mut self) -> (res: ParserResult<String>)
        requires
            old(self).tokens().len() > 0,
        ensures
            final(self).tokens() == old(self).tokens(),
            final(self).current() == expect_number_spec(old(self).tokens(), old(self).current()).0,
            outcome(res) == expect_number_spec(old(self).tokens(), old(self).current()).1,
    {
        match self.peek() {
            Some(next_token) => match next_token.get_type() {
                TokenType::Number(num) => {
                    let num = num.clone();
                    self.advance();
                    Ok(num)
                },
                _ => Err(
                    ParserError::new(next_token.clone(), ParserErrorType::ExpectedNumber),
                ),
            },
            None => Err(ParserError::new(self.offending_token(), ParserErrorType::ExpectedNumber)),
        }
    }

    fn parse_load(&mut self) -> (res: ParserResult<Statement>)
        requires
            old(self).tokens().len() > 0,
        ensures
            final(self).tokens() == old(self).tokens(),
            final(self).current() == load_spec(old(self).tokens(), old(self).current()).0,
            outcome(res) == load_spec(old(self).tokens(), old(self).current()).1,
            res matches Ok(s) ==> s.wf(),
    {
        let identifier = self.expect_identifier()?;
        Ok(Statement::Load(identifier))
    }

    fn parse_predict(&mut self) -> (res: ParserResult<Statement>)
        requires
            old(self).tokens().len() > 0,
        ensures
            final(self).tokens() == old(self).tokens(),
            final(self).current() == predict_spec(old(self).tokens(), old(self).current()).0,
            outcome(res) == predict_spec(old(self).tokens(), old(self).current()).1,
            res matches Ok(s) ==> s.wf(),
    {
        let identifier = self.expect_identifier()?;
        Ok(Statement::Predict(identifier))
    }

    fn parse_analyze(&mut self) -> (res: ParserResult<Statement>)
        requires
            old(self).tokens().len() > 0,
        ensures
            final(self).tokens() == old(self).tokens(),
            final(self).current() == analyze_spec(old(self).tokens(), old(self).current()).0,
            outcome(res) == analyze_spec(old(self).tokens(), old(self).current()).1,
            res matches Ok(s) ==> s.wf(),
    {
        let arg_list = self.parse_argument_list()?;
        Ok(Statement::Analyze(arg_list))
    }

    fn parse_evaluate(&mut self) -> (res: ParserResult<Statement>)
        requires
            old(self).tokens().len() > 0,
        ensures
            final(self).tokens() == old(self).tokens(),
            final(self).current() == evaluate_spec(old(self).tokens(), old(self).current()).0,
            outcome(res) == evaluate_spec(old(self).tokens(), old(self).current()).1,
            res matches Ok(s) ==> s.wf(),
    {
        let arg_list = self.parse_argument_list()?;
        Ok(Statement::Evaluate(arg_list))
    }

    fn parse_split(&mut self) -> (res: ParserResult<Statement>)
        requires
            old(self).tokens().len() > 0,
        ensures
            final(self).tokens() == old(self).tokens(),
            final(self).current() == split_spec(old(self).tokens(), old(self).current()).0,
            outcome(res) == split_spec(old(self).tokens(), old(self).current()).1,
            res matches Ok(s) ==> s.wf(),
    {
        let dictionary = self.parse_dictionary()?;
        Ok(Statement::Split(dictionary))
    }

    fn parse_init(&mut self) -> (res: ParserResult<Statement>)
        requires
            old(self).tokens().len() > 0,
        ensures
            final(self).tokens() == old(self).tokens(),
            final(self).current() == init_spec(old(self).tokens(), old(self).current()).0,
            outcome(res) == init_spec(old(self).tokens(), old(self).current()).1,
            res matches Ok(s) ==> s.wf(),
    {
        let dictionary = self.parse_dictionary()?;
        Ok(Statement::Init(dictionary))
    }

    fn parse_train(&mut self) -> (res: ParserResult<Statement>)
        ensures
            final(self).tokens() == old(self).tokens(),
            final(self).current() == old(self).current(),
            outcome(res) == Ok::<StatementView, ParserErrorView>(StatementView::Train),
            res matches Ok(s) ==> s.wf(),
    {
        Ok(Statement::Train)
    }

    fn parse_select(&mut self) -> (res: ParserResult<Statement>)
        requires
            0 < old(self).current() <= old(self).tokens().len(),
        ensures
            final(self).tokens() == old(self).tokens(),
            final(self).current() == select_statement_spec(old(self).tokens(), old(self).current()).0,
            outcome(res) == select_statement_spec(old(self).tokens(), old(self).current()).1,
            res matches Ok(s) ==> s.wf(),
    {
        match self.advance().unwrap().get_type() {
            TokenType::Id(id) => Ok(Statement::Select(Select::Identifier(id.clone()))),
            TokenType::From => match self.advance().unwrap().get_type() {
                TokenType::String(str) => Ok(Statement::Select(Select::From(str.clone()))),
                _ => Err(
                    ParserError::new(
                            self.previous().unwrap().clone(),
                            ParserErrorType::NoStringAfterFrom,
                        ),
                ),
            },
            _ => Err(
                ParserError::new(self.previous().unwrap().clone(), ParserErrorType::InvalidSelect),
            ),
        }
    }

    /// `identifier ("," identifier)*`
    fn parse_argument_list(&mut self) -> (res: ParserResult<Vec<String>>)
        requires
            old(self).tokens().len() > 0,
        ensures
            final(self).tokens() == old(self).tokens(),
            final(self).current() == argument_list_spec(old(self).tokens(), old(self).current()).0,
            list_outcome(res) == argument_list_spec(old(self).tokens(), old(self).current()).1,
    {
        let ghost ts = self.tokens();
        let mut arguments: Vec<String> = Vec::new();
        let first = self.expect_identifier()?;
        arguments.push(first);
        proof {
            assert(arguments.deep_view() =~= seq![first@]);
        }
        let ghost goal = arguments_tail_spec(ts, self.current(), arguments.deep_view());
        assert(goal == argument_list_spec(ts, old(self).current()));
        while self.match_token(Delimiter::Comma)
            invariant
                self.tokens() == ts,
                ts == old(self).tokens(),
                goal == argument_list_spec(ts, old(self).current()),
                goal == arguments_tail_spec(ts, self.current(), arguments.deep_view()),
            decreases ts.len() - self.current(),
        {
            let ghost before = arguments.deep_view();
            let ident = self.expect_identifier()?;
            arguments.push(ident);
            proof {
                assert(arguments.deep_view() =~= before.push(ident@));
            }
        }
        Ok(arguments)
    }

    /// `identifier ":" number`
    fn parse_entry(&mut self) -> (res: ParserResult<(String, String)>)
        requires
            old(self).tokens().len() > 0,
        ensures
            final(self).tokens() == old(self).tokens(),
            final(self).current() == entry_spec(old(self).tokens(), old(self).current()).0,
            entry_spec(old(self).tokens(), old(self).current()).1 == match res {
                Ok((k, v)) => Ok::<(Seq<char>, Seq<char>), ParserErrorView>((k@, v@)),
                Err(e) => Err(e@),
            },
    {
        let id = self.expect_identifier()?;
        self.expect_delimiter(Delimiter::Colon, ParserErrorType::ExpectedColon)?;
        let num = self.expect_number()?;
        Ok((id, num))
    }

    /// `"{" identifier ":" number ("," identifier ":" number)* "}"`
    fn parse_dictionary(&mut self) -> (res: ParserResult<Dictionary>)
        requires
            old(self).tokens().len() > 0,
        ensures
            final(self).tokens() == old(self).tokens(),
            final(self).current() == dictionary_spec(old(self).tokens(), old(self).current()).0,
            entries_outcome(res) == dictionary_spec(old(self).tokens(), old(self).current()).1,
            res matches Ok(d) ==> d.wf(),
    {
        let ghost ts = self.tokens();
        let mut result_map = Dictionary::new();
        self.expect_delimiter(Delimiter::LeftBrace, ParserErrorType::NotADictionary)?;
        let (id, num) = self.parse_entry()?;
        result_map.insert(id, num);
        let ghost goal = entries_tail_spec(ts, self.current(), result_map.entries_view());
        assert(dictionary_spec(ts, old(self).current()) == close_dictionary_spec(ts, goal));
        while self.match_token(Delimiter::Comma)
            invariant
                self.tokens() == ts,
                ts == old(self).tokens(),
                result_map.wf(),
                dictionary_spec(ts, old(self).current()) == close_dictionary_spec(ts, goal),
                goal == entries_tail_spec(ts, self.current(), result_map.entries_view()),
            decreases ts.len() - self.current(),
        {
            let (id, num) = self.parse_entry()?;
            result_map.insert(id, num);
        }
        self.expect_delimiter(Delimiter::RightBrace, ParserErrorType::NonTerminatedDictionary)?;
        Ok(result_map)
    }
}

/// Whether a token type is the delimiter `d`.
fn is_delimiter(t: &TokenType, d: Delimiter) -> (res: bool)
    ensures
        res == (t@ == delimiter_kind(d)),
{
    match (t, d) {
        (TokenType::Semicolon, Delimiter::Semicolon) => true,
        (TokenType::Colon, Delimiter::Colon) => true,
        (TokenType::Comma, Delimiter::Comma) => true,
        (TokenType::LeftBrace, Delimiter::LeftBrace) => true,
        (TokenType::RightBrace, Delimiter::RightBrace) => true,
        _ => false,
    }
}

} // verus!
