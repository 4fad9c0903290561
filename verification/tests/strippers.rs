use grammar_transpiler::errors::GrammarError;
use grammar_transpiler::strip::remove_first_semantic_action;
use grammar_transpiler::strip::remove_semantic_actions;
use grammar_transpiler::strip::strip_comments;
use grammar_transpiler::strip::strip_directives;
use grammar_transpiler::text::section_rules;
use grammar_transpiler::text::trim_chars;

fn chars(s: &str) -> Vec<char> {
    s.chars().collect()
}

fn text(v: &Vec<char>) -> String {
    v.iter().collect()
}

#[test]
fn nested_actions_removed_whole() {
    let input = chars("a { x { y } z } b { } c");
    let out = remove_semantic_actions(&input).unwrap();
    assert_eq!(text(&out), "a  b  c");
}

#[test]
fn balanced_input_leaves_no_braces() {
    let input = chars("start { one { two { three } } } mid {} end");
    let out = remove_semantic_actions(&input).unwrap();
    let s = text(&out);
    assert!(!s.contains('{'));
    assert!(!s.contains('}'));
    assert_eq!(s, "start  mid  end");
}

#[test]
fn more_opens_than_closes_is_fatal() {
    let input = chars("foo { bar { baz }");
    let err = remove_semantic_actions(&input).unwrap_err();
    assert_eq!(err, GrammarError::UnbalancedBraces);
}

#[test]
fn stray_close_is_ordinary_text() {
    let input = chars("a } b { c } d");
    let out = remove_semantic_actions(&input).unwrap();
    assert_eq!(text(&out), "a } b  d");
}

#[test]
fn first_action_only_is_removed() {
    let input = chars("a { b { c } d } e { f } g");
    let out = remove_first_semantic_action(&input).unwrap().unwrap();
    assert_eq!(text(&out), "a  e { f } g");
}

#[test]
fn no_brace_means_no_action() {
    let input = chars("plain rule text");
    assert!(remove_first_semantic_action(&input).unwrap().is_none());
}

#[test]
fn unclosed_first_action_is_fatal() {
    let input = chars("x { never closed");
    let err = remove_first_semantic_action(&input).unwrap_err();
    assert_eq!(err, GrammarError::UnbalancedBraces);
}

#[test]
fn iterated_removal_matches_full_pass() {
    let input = chars("a { x } b { y { z } } c");
    let mut cur = input.clone();
    loop {
        match remove_first_semantic_action(&cur).unwrap() {
            Some(next) => cur = next,
            None => break,
        }
    }
    let full = remove_semantic_actions(&input).unwrap();
    assert_eq!(text(&cur), text(&full));
}

#[test]
fn line_comments_removed_to_end_of_line() {
    let input = chars("a // gone\nb");
    assert_eq!(text(&strip_comments(&input)), "a b");
}

#[test]
fn block_comments_removed_non_greedy() {
    let input = chars("a /* one */ b /* two */ c");
    assert_eq!(text(&strip_comments(&input)), "a  b  c");
}

#[test]
fn directives_removed_whole() {
    let input = chars("a\n%token X Y;\nb\n%nterm Z;\nc");
    assert_eq!(text(&strip_directives(&input)), "a\nb\nc");
}

#[test]
fn sectioning_takes_text_between_markers() {
    let input = chars("header %%  rules here  %% trailer");
    let out = section_rules(&input).unwrap();
    assert_eq!(text(&out), "rules here");
}

#[test]
fn sectioning_consumes_the_markers() {
    let input = chars("%% a %%");
    let once = section_rules(&input).unwrap();
    assert_eq!(text(&once), "a");
    assert_eq!(
        section_rules(&once).unwrap_err(),
        GrammarError::MissingStartMarker
    );
    let resupplied = chars("%%a%%");
    let again = section_rules(&resupplied).unwrap();
    assert_eq!(text(&again), "a");
}

#[test]
fn one_marker_is_not_enough() {
    let input = chars("before %% after");
    assert_eq!(
        section_rules(&input).unwrap_err(),
        GrammarError::MissingEndMarker
    );
}

#[test]
fn no_marker_fails_at_the_start() {
    let input = chars("no markers at all");
    assert_eq!(
        section_rules(&input).unwrap_err(),
        GrammarError::MissingStartMarker
    );
}

#[test]
fn trim_removes_surrounding_whitespace() {
    let input = chars(" \t\n hello world \r\n");
    assert_eq!(text(&trim_chars(&input)), "hello world");
}
