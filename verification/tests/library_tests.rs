use candle_lang::ast::{node_lines, program_lines};
use candle_lang::chars::chars_of;
use candle_lang::parser::dictionary::Dictionary;
use candle_lang::parser::{Parser, ParserErrorType, Select, Statement};
use candle_lang::text::decimal_string;
use candle_lang::tokenizer::{tokens_from_input, Token, TokenType, Tokenizer, TokenizerError, TokenizerResult};

fn results_of(input: &str) -> Vec<TokenizerResult<Token>> {
    let mut tokenizer = Tokenizer::new(input);
    let mut results = Vec::new();
    while let Some(result) = tokenizer.next() {
        results.push(result);
    }
    results
}

fn tokens_of(input: &str) -> Vec<Token> {
    tokens_from_input(input).unwrap()
}

fn parse_error(input: &str) -> (ParserErrorType, usize, usize) {
    let mut parser = Parser::new(tokens_of(input));
    match parser.program() {
        Err(e) => (e.error_type, e.token.get_line(), e.token.get_column()),
        Ok(_) => panic!("expected an error for {input:?}"),
    }
}

// ----- the tokenizer -----

#[test]
fn eof_is_stable() {
    let mut tokenizer = Tokenizer::new("LOAD");
    let first = tokenizer.next_token().unwrap();
    assert!(matches!(first.get_type(), TokenType::Load));
    for _ in 0..3 {
        let eof = tokenizer.next_token().unwrap();
        assert!(matches!(eof.get_type(), TokenType::Eof));
        assert_eq!((eof.get_line(), eof.get_column()), (1, 4));
    }
    assert!(tokenizer.next().is_none());
}

#[test]
fn columns_count_from_zero_on_every_line() {
    let tokens = tokens_of("LOAD\n  data;\n;");
    let positions: Vec<(usize, usize)> =
        tokens.iter().map(|t| (t.get_line(), t.get_column())).collect();
    assert_eq!(positions, vec![(1, 0), (2, 2), (2, 6), (3, 0)]);
    let tokens = tokens_of("LOAD\ndata\n;");
    let positions: Vec<(usize, usize)> =
        tokens.iter().map(|t| (t.get_line(), t.get_column())).collect();
    assert_eq!(positions, vec![(1, 0), (2, 0), (3, 0)]);
}

#[test]
fn columns_count_characters() {
    let tokens = tokens_of("'ñandú' x");
    assert_eq!(tokens[1].get_column(), 8);
}

#[test]
fn unknown_character_is_skipped() {
    let results = results_of("LOAD @ data");
    assert_eq!(results.len(), 3);
    match &results[1] {
        Err(TokenizerError::UnknownCharacter { character, byte, line, column }) => {
            assert_eq!((*character, *byte, *line, *column), ('@', 64, 1, 5));
        }
        other => panic!("unexpected {other:?}"),
    }
    assert_eq!(
        results[1].as_ref().unwrap_err().message(),
        "Unknown character '@' (byte 64) at line 1, column 5"
    );
    assert!(matches!(results[2].as_ref().unwrap().get_type(), TokenType::Id(name) if name == "data"));
}

#[test]
fn unknown_characters_read_as_blanks() {
    let known = |input: &str| -> Vec<String> {
        results_of(input)
            .iter()
            .filter(|r| !matches!(r, Err(TokenizerError::UnknownCharacter { .. })))
            .map(|r| format!("{r:?}"))
            .collect()
    };
    assert_eq!(known("LOAD @ data;"), known("LOAD   data;"));
    assert_eq!(known("SPLIT x {a: 1,$ b: 2};"), known("SPLIT x {a: 1,  b: 2};"));
    assert_eq!(known("@\n#LOAD"), known(" \n LOAD"));
}

#[test]
fn results_are_bounded_by_nonblank_characters() {
    for input in ["", "  \n\t\r", "LOAD data;", "@@@", "'abc' 12.5 x", "1.2.3 ;;", "'open"] {
        let nonblank = input.chars().filter(|c| !matches!(c, ' ' | '\t' | '\n' | '\r')).count();
        assert!(results_of(input).len() <= nonblank, "{input:?}");
    }
    assert_eq!(results_of("@@@").len(), 3);
}

#[test]
fn unknown_character_outside_ascii() {
    let results = results_of("é");
    assert_eq!(results.len(), 1);
    assert_eq!(
        results[0].as_ref().unwrap_err().message(),
        "Unknown character (byte 233) at line 1, column 0"
    );
}

#[test]
fn unterminated_string_error() {
    let results = results_of("'hello\nLOAD");
    assert_eq!(results.len(), 2);
    let error = results[0].as_ref().unwrap_err();
    assert!(matches!(error, TokenizerError::UnterminatedString { line: 1, column: 0 }));
    assert_eq!(error.message(), "Unterminated string starting at line 1, column 0");
    assert!(matches!(results[1].as_ref().unwrap().get_type(), TokenType::Load));
}

#[test]
fn invalid_number_error() {
    let results = results_of("1² x");
    assert_eq!(results.len(), 2);
    let expected_reason = "1²".parse::<f64>().unwrap_err().to_string();
    match results[0].as_ref().unwrap_err() {
        TokenizerError::InvalidNumber { value, line, column, reason } => {
            assert_eq!(value, "1²");
            assert_eq!((*line, *column), (1, 0));
            assert_eq!(reason, &expected_reason);
        }
        other => panic!("unexpected {other:?}"),
    }
    assert_eq!(
        results[0].as_ref().unwrap_err().message(),
        format!("Invalid number '1²' at line 1, column 0: {expected_reason}")
    );
}

#[test]
fn io_error_message() {
    let error = TokenizerError::from(std::io::Error::new(std::io::ErrorKind::Other, "disk gone"));
    assert!(matches!(error, TokenizerError::IoError(_)));
    assert_eq!(error.message(), "I/O error: disk gone");
}

#[test]
fn identifiers_may_hold_other_letters() {
    let tokens = tokens_of("café2 x");
    assert!(matches!(tokens[0].get_type(), TokenType::Id(name) if name == "café2"));
    assert_eq!(tokens[1].get_column(), 6);
}

#[test]
fn numbers_keep_their_numeral() {
    let tokens = tokens_of("007.50 1.2");
    let texts: Vec<String> = tokens
        .iter()
        .map(|t| match t.get_type() {
            TokenType::Number(n) => n.clone(),
            other => format!("{other:?}"),
        })
        .collect();
    assert_eq!(texts, vec!["007.50", "1.2"]);
    let results = results_of("1.2.3");
    assert_eq!(results.len(), 3);
    assert!(results[1].is_err());
    assert!(matches!(results[2].as_ref().unwrap().get_type(), TokenType::Number(n) if n == "3"));
}

#[test]
fn nul_ends_the_text() {
    let results = results_of("LOAD\0TRAIN");
    assert_eq!(results.len(), 1);
}

#[test]
fn tokens_from_input_stops_at_first_error() {
    assert_eq!(tokens_of("LOAD data;").len(), 3);
    match tokens_from_input("LOAD # data @") {
        Err(TokenizerError::UnknownCharacter { character, column, .. }) => {
            assert_eq!((character, column), ('#', 5));
        }
        other => panic!("unexpected {other:?}"),
    }
}

#[test]
fn reading_characters_one_by_one() {
    let mut tokenizer = Tokenizer::new("ab c");
    assert_eq!(tokenizer.peek(), 'b');
    assert_eq!(tokenizer.read_next_char(), 'b');
    assert_eq!(tokenizer.read_next_char(), ' ');
    assert_eq!(tokenizer.read_next_char(), 'c');
    assert_eq!(tokenizer.read_next_char(), '\0');
    let mut tokenizer = Tokenizer::new("  \t\nx");
    tokenizer.skip_whitespace();
    let token = tokenizer.next_token().unwrap();
    assert_eq!((token.get_line(), token.get_column()), (2, 0));
    let mut tokenizer = Tokenizer::new("xy");
    tokenizer.advance();
    let token = tokenizer.next_token().unwrap();
    assert!(matches!(token.get_type(), TokenType::Id(name) if name == "y"));
    assert_eq!(token.get_column(), 1);
}

// ----- characters and text -----

#[test]
fn character_classes() {
    // Letters and digits of any script continue a word; other numerals too.
    for (input, word) in [("a٣é7 x", "a٣é7"), ("x_y", "x"), ("Z²", "Z²")] {
        let tokens = results_of(input);
        assert!(matches!(tokens[0].as_ref().unwrap().get_type(), TokenType::Id(name) if name == word), "{input}");
    }
    // Digits of any script continue a numeral, but only ASCII digits make it a decimal one.
    assert!(matches!(results_of("7٣")[0], Err(TokenizerError::InvalidNumber { .. })));
    assert!(matches!(results_of("7a")[0].as_ref().unwrap().get_type(), TokenType::Number(n) if n == "7"));
}

#[test]
fn text_conversions() {
    assert_eq!(chars_of("héllo"), vec!['h', 'é', 'l', 'l', 'o']);
    let tokens = tokens_of("'nñ'");
    assert!(matches!(tokens[0].get_type(), TokenType::String(s) if s == "nñ"));
    assert_eq!(decimal_string(0), "0");
    assert_eq!(decimal_string(7), "7");
    assert_eq!(decimal_string(10), "10");
    assert_eq!(decimal_string(12345), "12345");
    assert_eq!(decimal_string(usize::MAX), usize::MAX.to_string());
}

// ----- the parser -----

#[test]
fn every_parser_error() {
    assert_eq!(parse_error("LOAD 5;"), (ParserErrorType::ExpectedId, 1, 5));
    assert_eq!(parse_error("SPLIT {a 1};"), (ParserErrorType::ExpectedColon, 1, 9));
    assert_eq!(parse_error("TRAIN TRAIN;"), (ParserErrorType::ExpectedSemicolon, 1, 6));
    assert_eq!(parse_error("SPLIT a;"), (ParserErrorType::NotADictionary, 1, 6));
    assert_eq!(parse_error("SPLIT {a: b};"), (ParserErrorType::ExpectedNumber, 1, 10));
    assert_eq!(parse_error("FOO bar;"), (ParserErrorType::InvalidStatement, 1, 0));
    assert_eq!(parse_error("SPLIT {a: 1;"), (ParserErrorType::NonTerminatedDictionary, 1, 11));
    assert_eq!(parse_error("SELECT 5;"), (ParserErrorType::InvalidSelect, 1, 7));
    assert_eq!(parse_error("SELECT FROM x;"), (ParserErrorType::NoStringAfterFrom, 1, 12));
    assert_eq!(parse_error("SELECT;"), (ParserErrorType::InvalidSelect, 1, 6));
    assert_eq!(parse_error("SELECT"), (ParserErrorType::InvalidSelect, 1, 0));
    assert_eq!(parse_error("SELECT FROM"), (ParserErrorType::NoStringAfterFrom, 1, 7));
}

#[test]
fn running_out_of_tokens() {
    let cases = [
        ("LOAD", (ParserErrorType::ExpectedId, 1, 0)),
        ("LOAD data", (ParserErrorType::ExpectedSemicolon, 1, 5)),
        ("SPLIT", (ParserErrorType::NotADictionary, 1, 0)),
        ("SPLIT {a", (ParserErrorType::ExpectedColon, 1, 7)),
        ("SPLIT {a:", (ParserErrorType::ExpectedNumber, 1, 8)),
        ("SPLIT {a: 1", (ParserErrorType::NonTerminatedDictionary, 1, 10)),
        ("ANALYZE a,", (ParserErrorType::ExpectedId, 1, 9)),
    ];
    for (input, expected) in cases {
        assert_eq!(parse_error(input), expected, "{input}");
    }
    let mut parser = Parser::new(tokens_of("LOAD a; TRAIN;"));
    assert_eq!(parser.program().unwrap().len(), 2);
    let mut parser = Parser::new(Vec::new());
    assert_eq!(parser.program().unwrap().len(), 0);
}

#[test]
fn parser_error_messages() {
    let mut parser = Parser::new(tokens_of("LOAD 5;"));
    let error = parser.program().unwrap_err();
    assert_eq!(error.message("Number(5.0)"), "[line 1:5] Expected ID, but found Number(5.0) instead");
    let mut parser = Parser::new(tokens_of("\n\nSPLIT x;"));
    let error = parser.program().unwrap_err();
    assert_eq!(
        error.message("Id(\"x\")"),
        "[line 3:6] Expected dictionary, but found Id(\"x\") intead"
    );
    let mut parser = Parser::new(tokens_of("SPLIT {a: 1;"));
    let error = parser.program().unwrap_err();
    assert_eq!(
        error.message("Semicolon"),
        "[line 1:11] Dictionary has to be terminated by '}', but found Semicolon"
    );
}

#[test]
fn later_entries_override_earlier_ones() {
    let mut parser = Parser::new(tokens_of("SPLIT {a: 1, b: 2, a: 3};"));
    let program = parser.program().unwrap();
    match &program[0] {
        Statement::Split(d) => {
            assert_eq!(d.get("a").map(|s| s.as_str()), Some("3"));
            assert_eq!(d.get("b").map(|s| s.as_str()), Some("2"));
            assert_eq!(d.get("c"), None);
            let entries: Vec<(&str, &str)> =
                d.entries().iter().map(|(k, v)| (k.as_str(), v.as_str())).collect();
            assert_eq!(entries, vec![("a", "3"), ("b", "2")]);
        }
        other => panic!("unexpected {other:?}"),
    }
}

#[test]
fn dictionary_entries_keep_source_order() {
    let mut parser = Parser::new(tokens_of("SPLIT { train: 80, test: 10, val: 10 };"));
    let program = parser.program().unwrap();
    match &program[0] {
        Statement::Split(d) => {
            let keys: Vec<&str> = d.entries().iter().map(|(k, _)| k.as_str()).collect();
            assert_eq!(keys, vec!["train", "test", "val"]);
        }
        other => panic!("unexpected {other:?}"),
    }
}

#[test]
fn dictionary_reads_back_what_was_written() {
    let mut d = Dictionary::new();
    assert_eq!(d.get("k"), None);
    d.insert("k".to_string(), "1".to_string());
    d.insert("j".to_string(), "2".to_string());
    d.insert("k".to_string(), "3".to_string());
    assert_eq!(d.get("k").map(|s| s.as_str()), Some("3"));
    assert_eq!(d.get("j").map(|s| s.as_str()), Some("2"));
    assert_eq!(d.entries().len(), 2);
}

#[test]
fn programs_concatenate() {
    let mut both = tokens_of("LOAD a;");
    both.extend(tokens_of("TRAIN;"));
    let mut parser = Parser::new(both);
    let program = parser.program().unwrap();
    assert_eq!(program.len(), 2);
    assert!(matches!(&program[0], Statement::Load(a) if a == "a"));
    assert!(matches!(&program[1], Statement::Train));

    let mut both = tokens_of("LOAD a;");
    both.extend(tokens_of("FOO;"));
    let mut parser = Parser::new(both);
    let error = parser.program().unwrap_err();
    assert_eq!(error.error_type, ParserErrorType::InvalidStatement);
}

#[test]
fn select_forms() {
    let mut parser = Parser::new(tokens_of("SELECT FROM 'm.yaml'; SELECT m;"));
    let program = parser.program().unwrap();
    assert!(matches!(&program[0], Statement::Select(Select::From(p)) if p == "m.yaml"));
    assert!(matches!(&program[1], Statement::Select(Select::Identifier(m)) if m == "m"));
}

// ----- the printed form -----

#[test]
fn printed_program() {
    let source = "LOAD oxfordpets;\nSELECT FROM 'yolov8m.yaml';\n\nSPLIT {\n  train: 80, \n  test: 10, \n  val: 10\n};\nTRAIN;\n\nEVALUATE mAP, recall, precision, AP50;\n\nPREDICT predictresults;\nANALYZE health, confusionmatrix;\n";
    let mut parser = Parser::new(tokens_of(source));
    let program = parser.program().unwrap();
    let values: Vec<Vec<String>> = program
        .iter()
        .map(|s| match s {
            Statement::Split(d) | Statement::Init(d) => d
                .entries()
                .iter()
                .map(|(_, v)| v.parse::<f64>().unwrap().to_string())
                .collect(),
            _ => Vec::new(),
        })
        .collect();
    let lines = program_lines(&program, &values);
    let expected = vec![
        "PROGRAM",
        "|(stmt LOAD)",
        "|---(id oxfordpets)",
        "|(stmt SELECT)",
        "|---(FROM yolov8m.yaml)",
        "|(stmt SPLIT)",
        "|---(entry key(train), value(80))",
        "|---(entry key(test), value(10))",
        "|---(entry key(val), value(10))",
        "|(stmt TRAIN)",
        "|(stmt EVALUATE)",
        "|---(id mAP)",
        "|---(id recall)",
        "|---(id precision)",
        "|---(id AP50)",
        "|(stmt PREDICT)",
        "|---(id predictresults)",
        "|(stmt ANALYZE)",
        "|---(id health)",
        "|---(id confusionmatrix)",
    ];
    assert_eq!(lines, expected);
}

#[test]
fn printed_node_with_deeper_indent() {
    let children = vec![("id".to_string(), "x".to_string()), ("FROM".to_string(), "p".to_string())];
    assert_eq!(node_lines("stmt", "SELECT", &children, 1), vec!["|(stmt SELECT)", "|------(id x)", "|------(FROM p)"]);
    assert_eq!(node_lines("stmt", "TRAIN", &Vec::new(), 0), vec!["|(stmt TRAIN)"]);
}
