//! The printed form of a parsed program: one line per statement, and one
//! line, indented with dashes, per argument or entry.
//!
//! ```text
//! PROGRAM
//! |(stmt LOAD)
//! |---(id oxfordpets)
//! |(stmt SPLIT)
//! |---(entry key(train), value(80))
//! ```
use vstd::prelude::*;

use crate::parser::{Select, Statement};

verus! {

pub open spec fn header_line(kind: Seq<char>, name: Seq<char>) -> Seq<char> {
    "|("@ + kind + " "@ + name + ")"@
}

/// `k` times `---`.
pub open spec fn dashes(k: nat) -> Seq<char>
    decreases k,
{
    if k == 0 {
        seq![]
    } else {
        dashes((k - 1) as nat) + "---"@
    }
}

pub open spec fn child_line(indent_level: nat, child: (Seq<char>, Seq<char>)) -> Seq<char> {
    "|"@ + dashes(indent_level + 1) + "("@ + child.0 + " "@ + child.1 + ")"@
}

/// A node's line, then one line per child, indented by one more level.
pub open spec fn node_lines_spec(
    kind: Seq<char>,
    name: Seq<char>,
    children: Seq<(Seq<char>, Seq<char>)>,
    indent_level: nat,
) -> Seq<Seq<char>> {
    seq![header_line(kind, name)] + children.map_values(
        |c: (Seq<char>, Seq<char>)| child_line(indent_level, c),
    )
}

pub open spec fn pair_view(p: (String, String)) -> (Seq<char>, Seq<char>) {
    (p.0@, p.1@)
}

/// The lines of a node with the given children.
pub fn node_lines(kind: &str, name: &str, children: &Vec<(String, String)>, indent_level: usize) -> (res: Vec<String>)
    requires
        indent_level < usize::MAX,
    ensures
        res@.map_values(|s: String| s@) == node_lines_spec(
            kind@,
            name@,
            children@.map_values(|p: (String, String)| pair_view(p)),
            indent_level as nat,
        ),
{
    let ghost kids = children@.map_values(|p: (String, String)| pair_view(p));
    let mut lines: Vec<String> = Vec::new();
    let mut header = String::from_str("|(");
    header.append(kind);
    header.append(" ");
    header.append(name);
    header.append(")");
    lines.push(header);
    let mut i: usize = 0;
    while i < children.len()
        invariant
            i <= children@.len(),
            indent_level < usize::MAX,
            kids == children@.map_values(|p: (String, String)| pair_view(p)),
            lines@.map_values(|s: String| s@) == seq![header_line(kind@, name@)]
                + kids.take(i as int).map_values(
                |c: (Seq<char>, Seq<char>)| child_line(indent_level as nat, c),
            ),
        decreases children@.len() - i,
    {
        let mut line = String::from_str("|");
        let mut j: usize = 0;
        while j < indent_level + 1
            invariant
                j <= indent_level + 1,
                indent_level < usize::MAX,
                line@ == "|"@ + dashes(j as nat),
            decreases indent_level + 1 - j,
        {
            line.append("---");
            j += 1;
        }
        line.append("(");
        line.append(children[i].0.as_str());
        line.append(" ");
        line.append(children[i].1.as_str());
        line.append(")");
        let ghost before = lines@.map_values(|s: String| s@);
        lines.push(line);
        proof {
            assert(kids[i as int] == pair_view(children@[i as int]));
            assert(kids.take(i + 1).map_values(
                |c: (Seq<char>, Seq<char>)| child_line(indent_level as nat, c),
            ) =~= kids.take(i as int).map_values(
                |c: (Seq<char>, Seq<char>)| child_line(indent_level as nat, c),
            ).push(child_line(indent_level as nat, kids[i as int])));
            assert(lines@.map_values(|s: String| s@) =~= before.push(
                child_line(indent_level as nat, kids[i as int]),
            ));
        }
        i += 1;
    }
    proof {
        assert(kids.take(children@.len() as int) =~= kids);
    }
    lines
}

pub open spec fn entry_text(key: Seq<char>, value: Seq<char>) -> Seq<char> {
    "key("@ + key + "), value("@ + value + ")"@
}

/// One `id` child per argument.
pub open spec fn id_children(args: Seq<Seq<char>>) -> Seq<(Seq<char>, Seq<char>)> {
    args.map_values(|a: Seq<char>| ("id"@, a))
}

/// One `entry` child per dictionary entry; `values` holds the printed
/// values, in the order of the entries.
pub open spec fn entry_children(es: Seq<(Seq<char>, Seq<char>)>, values: Seq<Seq<char>>) -> Seq<
    (Seq<char>, Seq<char>),
> {
    Seq::new(es.len(), |i: int| ("entry"@, entry_text(es[i].0, values[i])))
}

/// The number of printed values that a statement needs: one per entry of
/// its dictionary.
pub open spec fn value_count(s: Statement) -> nat {
    match s {
        Statement::Split(d) => d.entries_view().len(),
        Statement::Init(d) => d.entries_view().len(),
        _ => 0,
    }
}

/// A statement's node: its keyword, and its children.
pub open spec fn statement_node_spec(s: Statement, values: Seq<Seq<char>>) -> (
    Seq<char>,
    Seq<(Seq<char>, Seq<char>)>,
) {
    match s {
        Statement::Load(n) => ("LOAD"@, seq![("id"@, n@)]),
        Statement::Predict(n) => ("PREDICT"@, seq![("id"@, n@)]),
        Statement::Analyze(args) => ("ANALYZE"@, id_children(args.deep_view())),
        Statement::Evaluate(args) => ("EVALUATE"@, id_children(args.deep_view())),
        Statement::Select(Select::Identifier(id)) => ("SELECT"@, seq![("id"@, id@)]),
        Statement::Select(Select::From(path)) => ("SELECT"@, seq![("FROM"@, path@)]),
        Statement::Train => ("TRAIN"@, seq![]),
        Statement::Init(d) => ("INIT"@, entry_children(d.entries_view(), values)),
        Statement::Split(d) => ("SPLIT"@, entry_children(d.entries_view(), values)),
    }
}

pub open spec fn statement_lines_spec(s: Statement, values: Seq<Seq<char>>) -> Seq<Seq<char>> {
    let (name, children) = statement_node_spec(s, values);
    node_lines_spec("stmt"@, name, children, 0)
}

/// The lines of the statements, one after the other.
pub open spec fn statements_lines_spec(stmts: Seq<Statement>, values: Seq<Seq<Seq<char>>>) -> Seq<Seq<char>>
    decreases stmts.len(),
{
    if stmts.len() == 0 {
        seq![]
    } else {
        statements_lines_spec(stmts.drop_last(), values.drop_last()) + statement_lines_spec(
            stmts.last(),
            values.last(),
        )
    }
}

/// `PROGRAM`, then the lines of the statements.
pub open spec fn program_lines_spec(stmts: Seq<Statement>, values: Seq<Seq<Seq<char>>>) -> Seq<Seq<char>> {
    seq!["PROGRAM"@] + statements_lines_spec(stmts, values)
}

/// Each statement is printed as a header that names its own keyword, then
/// one line per argument or entry, indented by one level: `id` lines for
/// names and arguments, a `FROM` line for a path, and `entry` lines with each
/// key and its printed value, in the order of the entries.
pub proof fn lemma_statement_lines(st: Statement, values: Seq<Seq<char>>)
    ensures
        ({
            let lines = statement_lines_spec(st, values);
            match st {
                Statement::Load(n) => lines == seq!["|(stmt LOAD)"@, "|---(id "@ + n@ + ")"@],
                Statement::Predict(n) => lines == seq!["|(stmt PREDICT)"@, "|---(id "@ + n@ + ")"@],
                Statement::Analyze(args) => {
                    &&& lines.len() == args@.len() + 1
                    &&& lines[0] == "|(stmt ANALYZE)"@
                    &&& forall|i: int| 0 <= i < args@.len() ==> lines[i + 1] == "|---(id "@ + (#[trigger] args@[i])@ + ")"@
                },
                Statement::Evaluate(args) => {
                    &&& lines.len() == args@.len() + 1
                    &&& lines[0] == "|(stmt EVALUATE)"@
                    &&& forall|i: int| 0 <= i < args@.len() ==> lines[i + 1] == "|---(id "@ + (#[trigger] args@[i])@ + ")"@
                },
                Statement::Select(Select::Identifier(id)) => lines == seq![
                    "|(stmt SELECT)"@,
                    "|---(id "@ + id@ + ")"@,
                ],
                Statement::Select(Select::From(path)) => lines == seq![
                    "|(stmt SELECT)"@,
                    "|---(FROM "@ + path@ + ")"@,
                ],
                Statement::Train => lines == seq!["|(stmt TRAIN)"@],
                Statement::Init(d) => {
                    &&& lines.len() == d.entries_view().len() + 1
                    &&& lines[0] == "|(stmt INIT)"@
                    &&& forall|i: int| 0 <= i < d.entries_view().len() ==> lines[i + 1] == "|---(entry key("@
                        + (#[trigger] d.entries_view()[i]).0 + "), value("@ + values[i] + "))"@
                },
                Statement::Split(d) => {
                    &&& lines.len() == d.entries_view().len() + 1
                    &&& lines[0] == "|(stmt SPLIT)"@
                    &&& forall|i: int| 0 <= i < d.entries_view().len() ==> lines[i + 1] == "|---(entry key("@
                        + (#[trigger] d.entries_view()[i]).0 + "), value("@ + values[i] + "))"@
                },
            }
        }),
{
    reveal_strlit("|(");
    reveal_strlit("stmt");
    reveal_strlit(" ");
    reveal_strlit(")");
    reveal_strlit("|");
    reveal_strlit("---");
    reveal_strlit("(");
    reveal_strlit("id");
    reveal_strlit("FROM");
    reveal_strlit("entry");
    reveal_strlit("key(");
    reveal_strlit("), value(");
    reveal_strlit("|---(id ");
    reveal_strlit("|---(FROM ");
    reveal_strlit("|---(entry key(");
    reveal_strlit("))");
    assert(dashes(0) == Seq::<char>::empty());
    assert(dashes(1) == Seq::<char>::empty() + "---"@);
    assert(dashes(1) =~= "---"@);
    let lines = statement_lines_spec(st, values);
    match st {
        Statement::Load(n) => {
            reveal_strlit("LOAD");
            reveal_strlit("|(stmt LOAD)");
            assert(lines[0] =~= "|(stmt LOAD)"@);
            assert(lines[1] =~= "|---(id "@ + n@ + ")"@);
            assert(lines =~= seq!["|(stmt LOAD)"@, "|---(id "@ + n@ + ")"@]);
        },
        Statement::Predict(n) => {
            reveal_strlit("PREDICT");
            reveal_strlit("|(stmt PREDICT)");
            assert(lines[0] =~= "|(stmt PREDICT)"@);
            assert(lines[1] =~= "|---(id "@ + n@ + ")"@);
            assert(lines =~= seq!["|(stmt PREDICT)"@, "|---(id "@ + n@ + ")"@]);
        },
        Statement::Analyze(args) => {
            reveal_strlit("ANALYZE");
            reveal_strlit("|(stmt ANALYZE)");
            assert(lines[0] =~= "|(stmt ANALYZE)"@);
            assert forall|i: int| 0 <= i < args@.len() implies lines[i + 1] == "|---(id "@ + (#[trigger] args@[i])@ + ")"@ by {
                assert(args.deep_view()[i] == args@[i]@);
                assert(lines[i + 1] =~= "|---(id "@ + args@[i]@ + ")"@);
            }
        },
        Statement::Evaluate(args) => {
            reveal_strlit("EVALUATE");
            reveal_strlit("|(stmt EVALUATE)");
            assert(lines[0] =~= "|(stmt EVALUATE)"@);
            assert forall|i: int| 0 <= i < args@.len() implies lines[i + 1] == "|---(id "@ + (#[trigger] args@[i])@ + ")"@ by {
                assert(args.deep_view()[i] == args@[i]@);
                assert(lines[i + 1] =~= "|---(id "@ + args@[i]@ + ")"@);
            }
        },
        Statement::Select(Select::Identifier(id)) => {
            reveal_strlit("SELECT");
            reveal_strlit("|(stmt SELECT)");
            assert(lines[0] =~= "|(stmt SELECT)"@);
            assert(lines[1] =~= "|---(id "@ + id@ + ")"@);
            assert(lines =~= seq!["|(stmt SELECT)"@, "|---(id "@ + id@ + ")"@]);
        },
        Statement::Select(Select::From(path)) => {
            reveal_strlit("SELECT");
            reveal_strlit("|(stmt SELECT)");
            assert(lines[0] =~= "|(stmt SELECT)"@);
            assert(lines[1] =~= "|---(FROM "@ + path@ + ")"@);
            assert(lines =~= seq!["|(stmt SELECT)"@, "|---(FROM "@ + path@ + ")"@]);
        },
        Statement::Train => {
            reveal_strlit("TRAIN");
            reveal_strlit("|(stmt TRAIN)");
            assert(lines[0] =~= "|(stmt TRAIN)"@);
            assert(lines =~= seq!["|(stmt TRAIN)"@]);
        },
        Statement::Init(d) => {
            reveal_strlit("INIT");
            reveal_strlit("|(stmt INIT)");
            assert(lines[0] =~= "|(stmt INIT)"@);
            let es = d.entries_view();
            assert forall|i: int| 0 <= i < es.len() implies lines[i + 1] == "|---(entry key("@
                + (#[trigger] es[i]).0 + "), value("@ + values[i] + "))"@ by {
                assert(lines[i + 1] =~= "|---(entry key("@ + es[i].0 + "), value("@ + values[i] + "))"@);
            }
        },
        Statement::Split(d) => {
            reveal_strlit("SPLIT");
            reveal_strlit("|(stmt SPLIT)");
            assert(lines[0] =~= "|(stmt SPLIT)"@);
            let es = d.entries_view();
            assert forall|i: int| 0 <= i < es.len() implies lines[i + 1] == "|---(entry key("@
                + (#[trigger] es[i]).0 + "), value("@ + values[i] + "))"@ by {
                assert(lines[i + 1] =~= "|---(entry key("@ + es[i].0 + "), value("@ + values[i] + "))"@);
            }
        },
    }
}

/// A program is printed as `PROGRAM`, then the lines of its statements one
/// after the other: one more statement adds its lines at the end.
pub proof fn lemma_program_lines(
    stmts: Seq<Statement>,
    values: Seq<Seq<Seq<char>>>,
    st: Statement,
    v: Seq<Seq<char>>,
)
    requires
        stmts.len() == values.len(),
    ensures
        program_lines_spec(seq![], seq![]) == seq!["PROGRAM"@],
        program_lines_spec(stmts.push(st), values.push(v)) == program_lines_spec(stmts, values)
            + statement_lines_spec(st, v),
{
    assert(stmts.push(st).drop_last() =~= stmts);
    assert(values.push(v).drop_last() =~= values);
    assert(seq!["PROGRAM"@] + Seq::<Seq<char>>::empty() =~= seq!["PROGRAM"@]);
    assert(program_lines_spec(stmts.push(st), values.push(v)) =~= program_lines_spec(stmts, values)
        + statement_lines_spec(st, v));
}

fn id_child(id: &String) -> (res: (String, String))
    ensures
        pair_view(res) == ("id"@, id@),
{
    (String::from_str("id"), id.clone())
}

fn id_children_of(args: &Vec<String>) -> (res: Vec<(String, String)>)
    ensures
        res@.map_values(|p: (String, String)| pair_view(p)) == id_children(args.deep_view()),
{
    let mut res: Vec<(String, String)> = Vec::new();
    let mut i: usize = 0;
    while i < args.len()
        invariant
            i <= args@.len(),
            res@.map_values(|p: (String, String)| pair_view(p)) == id_children(
                args.deep_view().take(i as int),
            ),
        decreases args@.len() - i,
    {
        let child = id_child(&args[i]);
        let ghost before = res@.map_values(|p: (String, String)| pair_view(p));
        res.push(child);
        proof {
            assert(args.deep_view()[i as int] == args@[i as int]@);
            assert(res@.map_values(|p: (String, String)| pair_view(p)) =~= before.push(
                pair_view(child),
            ));
            assert(id_children(args.deep_view().take(i + 1)) =~= id_children(
                args.deep_view().take(i as int),
            ).push(("id"@, args@[i as int]@)));
        }
        i += 1;
    }
    proof {
        assert(args.deep_view().take(args@.len() as int) =~= args.deep_view());
    }
    res
}

fn entry_children_of(d: &crate::parser::Dictionary, values: &Vec<String>) -> (res: Vec<(String, String)>)
    requires
        values@.len() == d.entries_view().len(),
    ensures
        res@.map_values(|p: (String, String)| pair_view(p)) == entry_children(
            d.entries_view(),
            values.deep_view(),
        ),
{
    let entries = d.entries();
    let ghost es = d.entries_view();
    let mut res: Vec<(String, String)> = Vec::new();
    let mut i: usize = 0;
    while i < entries.len()
        invariant
            i <= entries@.len(),
            entries@.len() == es.len(),
            values@.len() == es.len(),
            es == entries@.map_values(|e: (String, String)| crate::parser::dictionary::entry_view(e)),
            res@.map_values(|p: (String, String)| pair_view(p)) == entry_children(
                es,
                values.deep_view(),
            ).take(i as int),
        decreases entries@.len() - i,
    {
        let mut text = String::from_str("key(");
        text.append(entries[i].0.as_str());
        text.append("), value(");
        text.append(values[i].as_str());
        text.append(")");
        let child = (String::from_str("entry"), text);
        let ghost before = res@.map_values(|p: (String, String)| pair_view(p));
        res.push(child);
        proof {
            assert(es[i as int] == crate::parser::dictionary::entry_view(entries@[i as int]));
            assert(values.deep_view()[i as int] == values@[i as int]@);
            assert(res@.map_values(|p: (String, String)| pair_view(p)) =~= before.push(
                pair_view(child),
            ));
            assert(entry_children(es, values.deep_view()).take(i + 1) =~= entry_children(
                es,
                values.deep_view(),
            ).take(i as int).push(pair_view(child)));
        }
        i += 1;
    }
    proof {
        assert(entry_children(es, values.deep_view()).take(es.len() as int) =~= entry_children(
            es,
            values.deep_view(),
        ));
    }
    res
}

/// The keyword and the children of a statement's node.
fn statement_node(stmt: &Statement, values: &Vec<String>) -> (res: (&'static str, Vec<(String, String)>))
    requires
        values@.len() == value_count(*stmt),
    ensures
        (res.0@, res.1@.map_values(|p: (String, String)| pair_view(p))) == statement_node_spec(
            *stmt,
            values.deep_view(),
        ),
{
    match stmt {
        Statement::Load(name) => {
            let mut v = Vec::new();
            v.push(id_child(name));
            proof {
                assert(v@.map_values(|p: (String, String)| pair_view(p)) =~= seq![("id"@, name@)]);
            }
            ("LOAD", v)
        },
        Statement::Predict(name) => {
            let mut v = Vec::new();
            v.push(id_child(name));
            proof {
                assert(v@.map_values(|p: (String, String)| pair_view(p)) =~= seq![("id"@, name@)]);
            }
            ("PREDICT", v)
        },
        Statement::Analyze(args) => ("ANALYZE", id_children_of(args)),
        Statement::Evaluate(args) => ("EVALUATE", id_children_of(args)),
        Statement::Select(sel) => match sel {
            Select::Identifier(id) => {
                let mut v = Vec::new();
                v.push(id_child(id));
                proof {
                    assert(v@.map_values(|p: (String, String)| pair_view(p)) =~= seq![("id"@, id@)]);
                }
                ("SELECT", v)
            },
            Select::From(path) => {
                let mut v = Vec::new();
                v.push((String::from_str("FROM"), path.clone()));
                proof {
                    assert(v@.map_values(|p: (String, String)| pair_view(p)) =~= seq![("FROM"@, path@)]);
                }
                ("SELECT", v)
            },
        },
        Statement::Train => {
            let v: Vec<(String, String)> = Vec::new();
            proof {
                assert(v@.map_values(|p: (String, String)| pair_view(p)) =~= Seq::<(Seq<char>, Seq<char>)>::empty());
            }
            ("TRAIN", v)
        },
        Statement::Init(d) => ("INIT", entry_children_of(d, values)),
        Statement::Split(d) => ("SPLIT", entry_children_of(d, values)),
    }
}

/// The printed form of a program. `values` holds, for each statement, the
/// printed values of its dictionary's entries, in the order of the entries
/// (none for a statement without a dictionary).
pub fn program_lines(statements: &Vec<Statement>, values: &Vec<Vec<String>>) -> (res: Vec<String>)
    requires
        values@.len() == statements@.len(),
        forall|i: int| 0 <= i < statements@.len() ==> #[trigger] values@[i]@.len() == value_count(statements@[i]),
    ensures
        res@.map_values(|s: String| s@) == program_lines_spec(statements@, values.deep_view()),
{
    let mut lines: Vec<String> = Vec::new();
    lines.push(String::from_str("PROGRAM"));
    proof {
        assert(lines@.map_values(|s: String| s@) =~= seq!["PROGRAM"@] + statements_lines_spec(
            statements@.take(0),
            values.deep_view().take(0),
        ));
    }
    let mut i: usize = 0;
    while i < statements.len()
        invariant
            i <= statements@.len(),
            values@.len() == statements@.len(),
            forall|j: int| 0 <= j < statements@.len() ==> #[trigger] values@[j]@.len() == value_count(statements@[j]),
            lines@.map_values(|s: String| s@) == seq!["PROGRAM"@] + statements_lines_spec(
                statements@.take(i as int),
                values.deep_view().take(i as int),
            ),
        decreases statements@.len() - i,
    {
        let (name, children) = statement_node(&statements[i], &values[i]);
        let mut node = node_lines("stmt", name, &children, 0);
        let ghost before = lines@.map_values(|s: String| s@);
        let ghost added = node@.map_values(|s: String| s@);
        lines.append(&mut node);
        proof {
            assert(lines@.map_values(|s: String| s@) =~= before + added);
            assert(statements@.take(i + 1).drop_last() =~= statements@.take(i as int));
            assert(values.deep_view().take(i + 1).drop_last() =~= values.deep_view().take(i as int));
            assert(values.deep_view()[i as int] == values@[i as int].deep_view());
        }
        i += 1;
    }
    proof {
        assert(statements@.take(statements@.len() as int) =~= statements@);
        assert(values.deep_view().take(statements@.len() as int) =~= values.deep_view());
    }
    lines
}

} // verus!
