use grammar_transpiler::errors::GrammarError;
use grammar_transpiler::model::optional_names;
use grammar_transpiler::model::parse_rules;
use grammar_transpiler::model::post_process;
use grammar_transpiler::pipeline::transpile;
use grammar_transpiler::render::from_many_branches_rule;
use grammar_transpiler::render::from_one_branch_rule;
use grammar_transpiler::render::get_token;
use grammar_transpiler::render::make_header;
use grammar_transpiler::render::process_branch;
use grammar_transpiler::render::render_grammar;
use grammar_transpiler::split::split_once_outside_quotes;
use grammar_transpiler::split::split_outside_quotes;
use grammar_transpiler::split::tokenize;

fn chars(s: &str) -> Vec<char> {
    s.chars().collect()
}

fn text(v: &Vec<char>) -> String {
    v.iter().collect()
}

const PREFIX: &str = "module.exports = grammar({\nname: 'ALANG',\nrules: {\n";
const SUFFIX: &str = "}\n});";

#[test]
fn single_literal_rule_renders_verbatim() {
    let input = chars("%%\nfoo : 'a' ;\n%%");
    let out = transpile(&input).unwrap();
    let expected = format!("{}foo: $ => 'a',\n{}", PREFIX, SUFFIX);
    assert_eq!(text(&out), expected);
}

#[test]
fn round_trip_optional_rule() {
    let input = chars("%%\nfoo : 'a' 'b' | ;\nbar : foo 'c' ;\n%%");
    let out = transpile(&input).unwrap();
    let expected = format!(
        "{}foo: $ => seq('a', 'b'),\nbar: $ => seq(optional($.foo), 'c'),\n{}",
        PREFIX, SUFFIX
    );
    assert_eq!(text(&out), expected);
}

#[test]
fn nested_action_stripped_from_rule() {
    let input = chars("%%\nfoo : 'a' { if (x) { y(); } } ;\n%%");
    let out = transpile(&input).unwrap();
    let expected = format!("{}foo: $ => 'a',\n{}", PREFIX, SUFFIX);
    assert_eq!(text(&out), expected);
}

#[test]
fn missing_markers_give_fatal_error() {
    let input = chars("foo : 'a' ;");
    assert_eq!(
        transpile(&input).unwrap_err(),
        GrammarError::MissingStartMarker
    );
}

#[test]
fn rule_without_separator_is_fatal() {
    let input = chars("%%\nfoo\n%%");
    assert_eq!(
        transpile(&input).unwrap_err(),
        GrammarError::MissingRuleSeparator
    );
}

#[test]
fn unbalanced_action_in_grammar_is_fatal() {
    let input = chars("%%\nfoo : 'a' { oops ;\n%%");
    assert_eq!(
        transpile(&input).unwrap_err(),
        GrammarError::UnbalancedBraces
    );
}

#[test]
fn choice_wraps_several_alternatives() {
    let input = chars("%%\nfoo : 'a' | bar 'b' ;\n%%");
    let out = transpile(&input).unwrap();
    let expected = format!(
        "{}foo: $ => choice('a', seq($.bar, 'b')),\n{}",
        PREFIX, SUFFIX
    );
    assert_eq!(text(&out), expected);
}

#[test]
fn only_empty_alternative_renders_epsilon() {
    let input = chars("%%\nfoo : ;\nbar : foo 'x' ;\n%%");
    let out = transpile(&input).unwrap();
    let expected = format!(
        "{}foo: $ => seq(),\nbar: $ => seq(optional($.foo), 'x'),\n{}",
        PREFIX, SUFFIX
    );
    assert_eq!(text(&out), expected);
}

#[test]
fn comments_and_directives_ignored() {
    let input = chars("%%\n// intro\nfoo : 'a' ; /* note */\n%token X Y;\nbar : 'b' ;\n%%");
    let out = transpile(&input).unwrap();
    let expected = format!("{}foo: $ => 'a',\nbar: $ => 'b',\n{}", PREFIX, SUFFIX);
    assert_eq!(text(&out), expected);
}

#[test]
fn quoted_semicolon_stays_inside_rule() {
    let input = chars("%%\nend : ';' ;\n%%");
    let out = transpile(&input).unwrap();
    let expected = format!("{}end: $ => ';',\n{}", PREFIX, SUFFIX);
    assert_eq!(text(&out), expected);
}

#[test]
fn empty_section_renders_empty_grammar() {
    let input = chars("%%%%");
    let out = transpile(&input).unwrap();
    assert_eq!(text(&out), format!("{}{}", PREFIX, SUFFIX));
}

#[test]
fn post_process_is_idempotent() {
    let cleaned = chars("foo : 'a' 'b' | ;\nbar : foo 'c' ;");
    let prods = parse_rules(&cleaned).unwrap();
    let opts = optional_names(&prods);
    assert_eq!(opts.len(), 1);
    assert_eq!(text(&opts[0]), "foo");
    let once = post_process(&prods, &opts);
    let twice = post_process(&once, &opts);
    assert_eq!(text(&render_grammar(&once)), text(&render_grammar(&twice)));
    assert!(text(&render_grammar(&once)).contains("optional($.foo)"));
    assert!(!text(&render_grammar(&once)).contains("optional(optional"));
}

#[test]
fn quoted_token_is_kept_verbatim() {
    assert_eq!(text(&get_token(&chars("'ab'"))), "'ab'");
}

#[test]
fn bare_token_becomes_reference() {
    assert_eq!(text(&get_token(&chars("expr"))), "$.expr");
}

#[test]
fn header_names_the_rule() {
    assert_eq!(text(&make_header(&chars("foo"))), "foo: $ => ");
}

#[test]
fn single_element_branch_has_no_wrapper() {
    let cleaned = chars("foo : 'a' ;");
    let prods = parse_rules(&cleaned).unwrap();
    let branch = &prods[0].alternatives[0];
    assert_eq!(text(&process_branch(branch)), "'a'");
}

#[test]
fn multi_element_branch_becomes_sequence() {
    let cleaned = chars("foo : 'a' b 'c' ;");
    let prods = parse_rules(&cleaned).unwrap();
    let branch = &prods[0].alternatives[0];
    assert_eq!(text(&process_branch(branch)), "seq('a', $.b, 'c')");
}

#[test]
fn one_branch_rule_entry() {
    let cleaned = chars("foo : 'a' b ;");
    let prods = parse_rules(&cleaned).unwrap();
    let entry = from_one_branch_rule(&prods[0].name, &prods[0].alternatives[0]);
    assert_eq!(text(&entry), "foo: $ => seq('a', $.b),\n");
}

#[test]
fn many_branches_rule_entry() {
    let cleaned = chars("foo : 'a' | 'b' ;");
    let prods = parse_rules(&cleaned).unwrap();
    let entry = from_many_branches_rule(&prods[0].name, &prods[0].alternatives);
    assert_eq!(text(&entry), "foo: $ => choice('a', 'b'),\n");
}

#[test]
fn split_respects_quoted_separators() {
    let pieces = split_outside_quotes(&chars("a ';' b ; c"), ';');
    assert_eq!(pieces.len(), 2);
    assert_eq!(text(&pieces[0]), "a ';' b ");
    assert_eq!(text(&pieces[1]), " c");
}

#[test]
fn split_once_finds_first_separator() {
    let (pre, post) = split_once_outside_quotes(&chars("name : a : b"), ':').unwrap();
    assert_eq!(text(&pre), "name ");
    assert_eq!(text(&post), " a : b");
}

#[test]
fn split_once_none_without_separator() {
    assert!(split_once_outside_quotes(&chars("no colon here"), ':').is_none());
}

#[test]
fn tokenize_collapses_whitespace() {
    let toks = tokenize(&chars("  'a'   b\t c  "));
    let words: Vec<String> = toks.iter().map(|t| t.iter().collect()).collect();
    assert_eq!(words, vec!["'a'", "b", "c"]);
}

#[test]
fn error_messages_name_the_condition() {
    assert!(GrammarError::MissingStartMarker.message().contains("start"));
    assert!(GrammarError::MissingEndMarker.message().contains("end"));
    assert!(GrammarError::UnbalancedBraces.message().contains("brace"));
    assert!(GrammarError::MissingRuleSeparator.message().contains("separator"));
}
