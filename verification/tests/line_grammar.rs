use jired::grammar::encode_line;
use jired::grammar::encode_line_from_parts;
use jired::grammar::parse_line;
use jired::grammar::split_text_lines;
use jired::grammar::tokenize;
use jired::grammar::TimeEntry;
use jired::text::chars_of;
use jired::text::string_from_chars;

fn toks(line: &str) -> Option<Vec<String>> {
    let chars = chars_of(line);
    tokenize(&chars).map(|ts| ts.iter().map(|t| string_from_chars(t)).collect())
}

#[test]
fn plain_tokens_split_on_blanks() {
    assert_eq!(
        toks("proj PROJ-3 1234 1130 title").unwrap(),
        vec!["proj", "PROJ-3", "1234", "1130", "title"]
    );
}

#[test]
fn quoted_tokens_keep_their_spaces() {
    assert_eq!(
        toks("a \"b c\"  d").unwrap(),
        vec!["a".to_string(), "b c".to_string(), "d".to_string()]
    );
}

#[test]
fn escapes_inside_quotes_are_unescaped() {
    assert_eq!(toks(r#""say \"hi\" \\ now""#).unwrap(), vec![r#"say "hi" \ now"#]);
}

#[test]
fn quoted_segments_concatenate_with_plain_ones() {
    assert_eq!(toks(r#"a"b c"d"#).unwrap(), vec!["ab cd"]);
}

#[test]
fn an_unterminated_quote_is_malformed() {
    assert!(toks("a \"b c").is_none());
}

#[test]
fn a_stray_escape_inside_quotes_is_malformed() {
    assert!(toks(r#""a \n b""#).is_none());
}

#[test]
fn empty_lines_hold_no_tokens() {
    assert_eq!(toks("").unwrap(), Vec::<String>::new());
    assert_eq!(toks("   \t ").unwrap(), Vec::<String>::new());
}

#[test]
fn encoding_quotes_only_what_needs_it() {
    let line = encode_line_from_parts("proj", "T-1", "1700", "0900", "Fix bug");
    assert_eq!(line, "proj T-1 1700 0900 \"Fix bug\"");
}

#[test]
fn encoding_escapes_quotes_and_backslashes() {
    let line = encode_line_from_parts("p p", "t\"q", "1700", "0900", "a \\ b");
    assert_eq!(line, r#""p p" "t\"q" 1700 0900 "a \\ b""#);
}

#[test]
fn a_parsed_line_restores_every_field() {
    let entry = TimeEntry {
        project_code: "p p".to_string(),
        task_id: "t\"q".to_string(),
        title: "a \\ b \"c\"".to_string(),
        start: "0900".to_string(),
        end: "1700".to_string(),
    };
    let line = encode_line(&entry);
    let back = parse_line(&chars_of(line.as_str())).unwrap();
    assert_eq!(back, entry);
}

#[test]
fn a_line_with_the_wrong_arity_does_not_parse() {
    assert!(parse_line(&chars_of("a b c d")).is_none());
    assert!(parse_line(&chars_of("a b c d e f")).is_none());
    assert!(parse_line(&chars_of("")).is_none());
}

#[test]
fn lines_split_on_newlines_without_a_trailing_ghost() {
    let text = chars_of("one\ntwo\nthree\n");
    let lines: Vec<String> =
        split_text_lines(&text).iter().map(|l| string_from_chars(l)).collect();
    assert_eq!(lines, vec!["one", "two", "three"]);
    let unterminated = chars_of("one\ntwo");
    let lines2: Vec<String> =
        split_text_lines(&unterminated).iter().map(|l| string_from_chars(l)).collect();
    assert_eq!(lines2, vec!["one", "two"]);
    assert!(split_text_lines(&chars_of("")).is_empty());
}
