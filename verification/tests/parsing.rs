use haversine::fields::{field_by_name, parse_buffer, Field, ParseError, PointPair};
use haversine::literal::is_float_literal;
use haversine::parser::{parse, ParseState, Parser};
use haversine::render::{render_pairs, write_pair};
use haversine::split::{copy_from, split_non_empty, split_on};

fn chars(s: &str) -> Vec<char> {
    s.chars().collect()
}

fn lines(s: &str) -> Vec<String> {
    s.lines().map(String::from).collect()
}

fn pair(x0: &str, y0: &str, x1: &str, y1: &str) -> PointPair {
    PointPair { x0: chars(x0), x1: chars(x1), y0: chars(y0), y1: chars(y1) }
}

fn parse_str(s: &str) -> Result<Vec<PointPair>, ParseError> {
    parse(&lines(s))
}

#[test]
fn parses_a_compact_file_of_one_pair() {
    let got = parse_str("{\"pairs\":[{\"x0\":0,\"y0\":0,\"x1\":10,\"y1\":0}]}");
    assert_eq!(got, Ok(vec![pair("0", "0", "10", "0")]));
}

#[test]
fn parses_pairs_in_file_order() {
    let got = parse_str(
        "{\"pairs\": [{\"x0\":1, \"y0\":2, \"x1\":3, \"y1\":4},\n{\"x0\":-5.5, \"y0\":6e2, \"x1\":.7, \"y1\":8.},\n{\"x0\":9, \"y0\":10, \"x1\":11, \"y1\":12},\n]}",
    );
    assert_eq!(
        got,
        Ok(vec![
            pair("1", "2", "3", "4"),
            pair("-5.5", "6e2", ".7", "8."),
            pair("9", "10", "11", "12"),
        ])
    );
}

#[test]
fn pretty_and_compact_parse_the_same() {
    let compact = "{\"pairs\":[{\"x0\":1.5,\"y0\":-2,\"x1\":3,\"y1\":4},{\"x0\":5,\"y0\":6,\"x1\":7,\"y1\":8}]}";
    let pretty = "{\n  \"pairs\": [\n    {\n      \"x0\": 1.5,\n      \"y0\": -2,\n      \"x1\": 3,\n      \"y1\": 4\n    },\n    {\n      \"x0\": 5,\n      \"y0\": 6,\n      \"x1\": 7,\n      \"y1\": 8\n    }\n  ]\n}\n";
    let expected = vec![pair("1.5", "-2", "3", "4"), pair("5", "6", "7", "8")];
    assert_eq!(parse_str(compact), Ok(expected.clone()));
    assert_eq!(parse_str(pretty), Ok(expected));
}

#[test]
fn blanks_inside_a_token_do_not_count() {
    let got = parse_str("[{\"x 0\": 1 2 . 5, \"y0\":3}]");
    assert_eq!(got, Ok(vec![pair("12.5", "3", "0", "0")]));
}

#[test]
fn line_breaks_may_fall_anywhere() {
    let text = vec![
        String::from("{\"pai"),
        String::from("rs\": [{\"x"),
        String::from("0\":1"),
        String::from("2,\"y0\":3,\"x1\":4,\"y1\":5"),
        String::from("}"),
        String::new(),
        String::from("]}"),
    ];
    assert_eq!(parse(&text), Ok(vec![pair("12", "3", "4", "5")]));
}

#[test]
fn text_before_the_array_is_ignored() {
    let got = parse_str("}{ ]] junk \"x0\":oops, {\"pairs\": [{\"x0\":1,\"y0\":2,\"x1\":3,\"y1\":4}]}");
    assert_eq!(got, Ok(vec![pair("1", "2", "3", "4")]));
}

#[test]
fn text_behind_the_array_is_ignored() {
    let got = parse_str("[{\"x0\":1,\"y0\":2,\"x1\":3,\"y1\":4}] ][ {\"x0\":bad} [{ ]]}}");
    assert_eq!(got, Ok(vec![pair("1", "2", "3", "4")]));
}

#[test]
fn an_empty_array_holds_no_pair() {
    assert_eq!(parse_str("{\"pairs\": []}"), Ok(vec![]));
    assert_eq!(parse_str("[]"), Ok(vec![]));
}

#[test]
fn a_text_without_an_array_holds_no_pair() {
    assert_eq!(parse_str(""), Ok(vec![]));
    assert_eq!(parse_str("{\"pairs\": 12}"), Ok(vec![]));
    assert_eq!(parse(&Vec::new()), Ok(vec![]));
}

#[test]
fn text_between_objects_is_ignored() {
    let got = parse_str("[ ;; [ } \"x\" {\"x0\":1} , , junk {\"y1\":2} trailing ]");
    assert_eq!(got, Ok(vec![pair("1", "0", "0", "0"), pair("0", "0", "0", "2")]));
}

#[test]
fn a_missing_coordinate_is_zero() {
    assert_eq!(parse_str("[{\"y0\":7.25}]"), Ok(vec![pair("0", "7.25", "0", "0")]));
}

#[test]
fn the_last_of_a_repeated_key_wins() {
    let got = parse_str("[{\"x0\":1,\"x0\":2,\"y1\":3,\"x0\":4,\"y1\":5}]");
    assert_eq!(got, Ok(vec![pair("4", "0", "0", "5")]));
}

#[test]
fn unknown_keys_are_ignored() {
    let got = parse_str("[{\"x0\":1,\"z9\":77,\"X1\":5,\"x01\":6,\"y1\":2}]");
    assert_eq!(got, Ok(vec![pair("1", "0", "0", "2")]));
}

#[test]
fn an_unknown_key_still_needs_a_number() {
    assert_eq!(parse_str("[{\"x0\":1,\"name\":\"abc\"}]"), Err(ParseError::InvalidNumber));
    assert_eq!(parse_str("[{\"x0\":1,\"name\":abc}]"), Err(ParseError::InvalidNumber));
}

#[test]
fn an_empty_object_is_malformed() {
    assert_eq!(parse_str("[{}]"), Err(ParseError::MalformedField));
}

#[test]
fn a_trailing_comma_in_an_object_is_malformed() {
    assert_eq!(parse_str("[{\"x0\":1,}]"), Err(ParseError::MalformedField));
}

#[test]
fn a_field_without_a_value_is_malformed() {
    assert_eq!(parse_str("[{\"x0\"}]"), Err(ParseError::MalformedField));
    assert_eq!(parse_str("[{x0:1}]"), Err(ParseError::MalformedField));
}

#[test]
fn a_value_that_is_no_number_is_rejected() {
    assert_eq!(parse_str("[{\"x0\":abc}]"), Err(ParseError::InvalidNumber));
    assert_eq!(parse_str("[{\"x0\":}]"), Err(ParseError::InvalidNumber));
    assert_eq!(parse_str("[{\"x0\":1.2.3}]"), Err(ParseError::InvalidNumber));
    assert_eq!(parse_str("[{\"x0\":\"1\"}]"), Err(ParseError::InvalidNumber));
    assert_eq!(parse_str("[{\"x0\":1\t}]"), Err(ParseError::InvalidNumber));
}

#[test]
fn the_first_error_is_reported() {
    assert_eq!(parse_str("[{\"x0\":1},{\"x0\":bad},{}]"), Err(ParseError::InvalidNumber));
    assert_eq!(parse_str("[{\"x0\":1},{},{\"x0\":bad}]"), Err(ParseError::MalformedField));
    assert_eq!(parse_str("[{\"x0\":1,\"y0\",\"x1\":bad}]"), Err(ParseError::MalformedField));
    assert_eq!(parse_str("[{\"x0\":bad,\"y0\"}]"), Err(ParseError::InvalidNumber));
}

#[test]
fn an_error_is_not_undone_by_what_follows() {
    assert_eq!(parse_str("[{\"x0\":bad},{\"x0\":1}]"), Err(ParseError::InvalidNumber));
    assert_eq!(parse_str("[{\"x0\":bad}"), Err(ParseError::InvalidNumber));
}

#[test]
fn an_object_left_open_is_rejected() {
    assert_eq!(parse_str("[{\"x0\":1"), Err(ParseError::UnterminatedObject));
    assert_eq!(parse_str("[{\"x0\":1},{"), Err(ParseError::UnterminatedObject));
}

#[test]
fn an_array_left_open_is_rejected() {
    assert_eq!(parse_str("["), Err(ParseError::UnterminatedArray));
    assert_eq!(parse_str("{\"pairs\": [{\"x0\":1}"), Err(ParseError::UnterminatedArray));
    assert_eq!(parse_str("[{\"x0\":1},"), Err(ParseError::UnterminatedArray));
}

#[test]
fn a_bracket_inside_an_object_is_part_of_its_text() {
    assert_eq!(parse_str("[{\"x0\":1]}]"), Err(ParseError::InvalidNumber));
    assert_eq!(parse_str("[{\"a]b\":1}]"), Ok(vec![pair("0", "0", "0", "0")]));
    assert_eq!(parse_str("[{\"x0\":1]"), Err(ParseError::UnterminatedObject));
}

#[test]
fn only_spaces_and_line_feeds_are_blanks() {
    assert_eq!(parse_str("[{\"x0\":\t1}]"), Err(ParseError::InvalidNumber));
    let mut parser = Parser::new();
    for c in "[{\"x0\":1\n , \"y0\" : 2 }\n]".chars() {
        parser.feed(c);
    }
    assert_eq!(parser.finish(), Ok(vec![pair("1", "2", "0", "0")]));
}

#[test]
fn the_parser_moves_through_its_states() {
    let mut parser = Parser::new();
    assert_eq!(parser.state(), ParseState::Searching);
    parser.feed_line("{\"pairs\": ");
    assert_eq!(parser.state(), ParseState::Searching);
    parser.feed('[');
    assert_eq!(parser.state(), ParseState::InArray);
    parser.feed(',');
    assert_eq!(parser.state(), ParseState::InArray);
    parser.feed('{');
    assert_eq!(parser.state(), ParseState::InObject);
    parser.feed_line("\"x0\": 1.5");
    assert_eq!(parser.state(), ParseState::InObject);
    parser.feed('}');
    assert_eq!(parser.state(), ParseState::BetweenObjects);
    parser.feed(',');
    assert_eq!(parser.state(), ParseState::BetweenObjects);
    parser.feed('{');
    assert_eq!(parser.state(), ParseState::InObject);
    parser.feed_line("\"y1\":2}");
    assert_eq!(parser.state(), ParseState::BetweenObjects);
    parser.feed(']');
    assert_eq!(parser.state(), ParseState::Done);
    parser.feed_line("}[{");
    assert_eq!(parser.state(), ParseState::Done);
    assert_eq!(parser.finish(), Ok(vec![pair("1.5", "0", "0", "0"), pair("0", "0", "0", "2")]));
}

#[test]
fn a_failed_parser_stays_where_it_failed() {
    let mut parser = Parser::new();
    parser.feed_line("[{\"x0\":nope}");
    assert_eq!(parser.state(), ParseState::InObject);
    parser.feed_line(",{\"x0\":1}]");
    assert_eq!(parser.state(), ParseState::InObject);
    assert_eq!(parser.finish(), Err(ParseError::InvalidNumber));
}

#[test]
fn parse_buffer_reads_the_four_fields() {
    let got = parse_buffer(chars("\"x0\":-1.5,\"y0\":2e-3,\"x1\":+30,\"y1\":4.25E+2"));
    assert_eq!(got, Ok(pair("-1.5", "2e-3", "+30", "4.25E+2")));
}

#[test]
fn parse_buffer_takes_the_fields_in_any_order() {
    let got = parse_buffer(chars("\"y1\":4,\"x1\":3,\"y0\":2,\"x0\":1"));
    assert_eq!(got, Ok(pair("1", "2", "3", "4")));
}

#[test]
fn parse_buffer_starts_from_zero() {
    assert_eq!(parse_buffer(chars("\"q\":1")), Ok(PointPair::zero()));
    assert_eq!(PointPair::zero(), pair("0", "0", "0", "0"));
}

#[test]
fn parse_buffer_drops_one_character_before_the_value() {
    assert_eq!(parse_buffer(chars("\"x0\":7")), Ok(pair("7", "0", "0", "0")));
    assert_eq!(parse_buffer(chars("\"x0\"=7")), Ok(pair("7", "0", "0", "0")));
    assert_eq!(parse_buffer(chars("\"x0\"17")), Ok(pair("7", "0", "0", "0")));
    assert_eq!(parse_buffer(chars("\"x0\"::7")), Err(ParseError::InvalidNumber));
    assert_eq!(parse_buffer(chars("\"x0\"7")), Err(ParseError::InvalidNumber));
}

#[test]
fn parse_buffer_wants_a_separator_of_one_byte() {
    assert_eq!(parse_buffer(chars("\"x0\"\u{e9}7")), Err(ParseError::MalformedField));
    assert_eq!(parse_buffer(chars("\"x0\"\u{7f}7")), Ok(pair("7", "0", "0", "0")));
    assert_eq!(parse_buffer(chars("\"x0\"\u{80}7")), Err(ParseError::MalformedField));
}

#[test]
fn parse_buffer_looks_at_the_first_two_parts_of_a_field() {
    assert_eq!(parse_buffer(chars("\"x0\":7\"more\"and more")), Ok(pair("7", "0", "0", "0")));
    assert_eq!(parse_buffer(chars("\"\"\"x0\"\"\":7\"\"")), Ok(pair("7", "0", "0", "0")));
    assert_eq!(parse_buffer(chars("x0\":7")), Ok(pair("7", "0", "0", "0")));
}

#[test]
fn parse_buffer_rejects_what_is_no_field() {
    assert_eq!(parse_buffer(chars("")), Err(ParseError::MalformedField));
    assert_eq!(parse_buffer(chars("\"\"")), Err(ParseError::MalformedField));
    assert_eq!(parse_buffer(chars("\"x0\"")), Err(ParseError::MalformedField));
    assert_eq!(parse_buffer(chars("\"x0\":1,,\"y0\":2")), Err(ParseError::MalformedField));
    assert_eq!(parse_buffer(chars("\"x0\":x")), Err(ParseError::InvalidNumber));
}

#[test]
fn keys_name_coordinates() {
    assert_eq!(field_by_name(&chars("x0")), Some(Field::X0));
    assert_eq!(field_by_name(&chars("y0")), Some(Field::Y0));
    assert_eq!(field_by_name(&chars("x1")), Some(Field::X1));
    assert_eq!(field_by_name(&chars("y1")), Some(Field::Y1));
    assert_eq!(field_by_name(&chars("x2")), None);
    assert_eq!(field_by_name(&chars("z0")), None);
    assert_eq!(field_by_name(&chars("x")), None);
    assert_eq!(field_by_name(&chars("")), None);
    assert_eq!(field_by_name(&chars("x00")), None);
    assert_eq!(field_by_name(&chars("X0")), None);
}

#[test]
fn set_replaces_one_coordinate() {
    let mut p = PointPair::zero();
    p.set(Field::X1, chars("3.5"));
    assert_eq!(p, pair("0", "0", "3.5", "0"));
    p.set(Field::Y0, chars("-1"));
    assert_eq!(p, pair("0", "-1", "3.5", "0"));
    p.set(Field::X0, chars("8"));
    p.set(Field::Y1, chars("9"));
    p.set(Field::X1, chars("7"));
    assert_eq!(p, pair("8", "-1", "7", "9"));
}

#[test]
fn literals_are_recognised() {
    for s in [
        "0", "7", "10", "007", "-1", "+1", "1.5", "-122.4194", "1.", ".5", "-.5", "+.5", "1e5",
        "1E5", "1e+5", "1e-5", "1.e5", ".5e5", "1.5e10", "-0.0", "0.000001", "123456789012345678901234567890",
        "1e0", "1e007",
    ] {
        assert!(is_float_literal(&chars(s)), "{}", s);
        assert!(s.parse::<f64>().is_ok(), "{}", s);
    }
}

#[test]
fn literals_that_are_none_are_refused() {
    for s in [
        "", "+", "-", ".", "+.", "-.", "e5", ".e5", "1e", "1e+", "1e-", "1e5.0", "1.2.3", "--1",
        "+-1", "1-", "1+1", " 1", "1 ", "1,5", "1_000", "0x10", "inf", "-inf", "nan", "NaN",
        "infinity", "1f", "1e5e5", "1..", "a", "1a", "\u{661}", "1e\u{661}",
    ] {
        assert!(!is_float_literal(&chars(s)), "{}", s);
    }
}

#[test]
fn split_on_cuts_at_every_separator() {
    assert_eq!(split_on(&chars("a,b,c"), ','), vec![chars("a"), chars("b"), chars("c")]);
    assert_eq!(split_on(&chars("abc"), ','), vec![chars("abc")]);
    assert_eq!(split_on(&chars(""), ','), vec![chars("")]);
    assert_eq!(split_on(&chars(","), ','), vec![chars(""), chars("")]);
    assert_eq!(split_on(&chars(",a,,b,"), ','), vec![chars(""), chars("a"), chars(""), chars("b"), chars("")]);
    assert_eq!(split_on(&chars("\"x0\":1"), '"'), vec![chars(""), chars("x0"), chars(":1")]);
}

#[test]
fn split_non_empty_drops_the_empty_pieces() {
    assert_eq!(split_non_empty(&chars(",a,,b,"), ','), vec![chars("a"), chars("b")]);
    assert_eq!(split_non_empty(&chars("\"x0\":1"), '"'), vec![chars("x0"), chars(":1")]);
    assert_eq!(split_non_empty(&chars(""), ','), Vec::<Vec<char>>::new());
    assert_eq!(split_non_empty(&chars(",,,"), ','), Vec::<Vec<char>>::new());
}

#[test]
fn copy_from_copies_the_tail() {
    assert_eq!(copy_from(&chars(":12"), 1), chars("12"));
    assert_eq!(copy_from(&chars(":12"), 0), chars(":12"));
    assert_eq!(copy_from(&chars(":12"), 3), chars(""));
}

#[test]
fn render_writes_the_file_format() {
    let text: String = render_pairs(&vec![pair("1", "2", "3", "4"), pair("-5.5", "6", "7e1", "8")])
        .into_iter()
        .collect();
    assert_eq!(
        text,
        "{\"pairs\": [{\"x0\":1, \"y0\":2, \"x1\":3, \"y1\":4},\n{\"x0\":-5.5, \"y0\":6, \"x1\":7e1, \"y1\":8},\n]}"
    );
}

#[test]
fn render_of_no_pair_is_an_empty_array() {
    let text: String = render_pairs(&Vec::new()).into_iter().collect();
    assert_eq!(text, "{\"pairs\": []}");
}

#[test]
fn write_pair_adds_one_object() {
    let mut out = chars("[");
    write_pair(&mut out, &pair("1", "2", "3", "4"));
    let text: String = out.into_iter().collect();
    assert_eq!(text, "[{\"x0\":1, \"y0\":2, \"x1\":3, \"y1\":4},\n");
}

#[test]
fn what_is_written_is_read_back() {
    let pairs = vec![
        pair("-179.99", "89.5", "0.000001", "-45"),
        pair("1e-7", "2E+3", ".5", "5."),
        pair("0", "0", "0", "0"),
        pair("12.25", "-0.0", "+3", "100"),
    ];
    let text: String = render_pairs(&pairs).into_iter().collect();
    assert_eq!(parse(&lines(&text)), Ok(pairs.clone()));
    assert_eq!(parse(&vec![text]), Ok(pairs));
}

#[test]
fn many_pairs_are_read_back_in_order() {
    let mut pairs = Vec::new();
    for i in 0..500 {
        pairs.push(pair(
            &format!("{}", i),
            &format!("-{}.5", i),
            &format!("{}e-2", i),
            &format!("0.{}", i),
        ));
    }
    let text: String = render_pairs(&pairs).into_iter().collect();
    let got = parse(&lines(&text)).unwrap();
    assert_eq!(got.len(), 500);
    assert_eq!(got, pairs);
}

#[test]
fn parsed_coordinates_are_literals() {
    let got = parse_str("[{\"x0\":1e5,\"q\":-.5},{\"y1\":+7.},{\"k\":1}]").unwrap();
    assert_eq!(got.len(), 3);
    for p in &got {
        for text in [&p.x0, &p.y0, &p.x1, &p.y1] {
            assert!(is_float_literal(text));
            assert!(text.iter().collect::<String>().parse::<f64>().is_ok());
        }
    }
}

#[test]
fn lines_and_the_whole_text_parse_the_same() {
    let text = "{\"pairs\": [\n{\"x0\":1, \"y0\":2,\n \"x1\":3, \"y1\":4},\n{\"x0\":5}\n]}\n";
    let by_lines = parse(&lines(text));
    let at_once = parse(&vec![String::from(text)]);
    assert_eq!(by_lines, at_once);
    assert_eq!(by_lines, Ok(vec![pair("1", "2", "3", "4"), pair("5", "0", "0", "0")]));
}
