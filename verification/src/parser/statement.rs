use vstd::prelude::*;

use crate::parser::dictionary::Dictionary;

verus! {

/// A statement of a Candle program.
#[derive(Debug)]
pub enum Statement {
    Load(String),
    Predict(String),
    Analyze(Vec<String>),
    Select(Select),
    Train,
    Evaluate(Vec<String>),
    Split(Dictionary),
    Init(Dictionary),
}

/// The two forms of `SELECT`.
#[derive(Debug)]
pub enum Select {
    From(String),
    Identifier(String),
}

/// Mathematical model of [`Select`].
pub enum SelectView {
    From(Seq<char>),
    Identifier(Seq<char>),
}

/// Mathematical model of [`Statement`]: a dictionary becomes its entries,
/// `(key, numeral)` pairs in order.
pub enum StatementView {
    Load(Seq<char>),
    Predict(Seq<char>),
    Analyze(Seq<Seq<char>>),
    Select(SelectView),
    Train,
    Evaluate(Seq<Seq<char>>),
    Split(Seq<(Seq<char>, Seq<char>)>),
    Init(Seq<(Seq<char>, Seq<char>)>),
}

impl View for Select {
    type V = SelectView;

    open spec fn view(&self) -> SelectView {
        match self {
            Select::From(s) => SelectView::From(s@),
            Select::Identifier(s) => SelectView::Identifier(s@),
        }
    }
}

impl View for Statement {
    type V = StatementView;

    open spec fn view(&self) -> StatementView {
        match self {
            Statement::Load(s) => StatementView::Load(s@),
            Statement::Predict(s) => StatementView::Predict(s@),
            Statement::Analyze(args) => StatementView::Analyze(args.deep_view()),
            Statement::Select(sel) => StatementView::Select(sel@),
            Statement::Train => StatementView::Train,
            Statement::Evaluate(args) => StatementView::Evaluate(args.deep_view()),
            Statement::Split(d) => StatementView::Split(d.entries_view()),
            Statement::Init(d) => StatementView::Init(d.entries_view()),
        }
    }
}

impl Statement {
    /// The dictionaries of a statement keep each key once.
    pub open spec fn wf(&self) -> bool {
        match self {
            Statement::Split(d) => d.wf(),
            Statement::Init(d) => d.wf(),
            _ => true,
        }
    }
}

} // verus!
