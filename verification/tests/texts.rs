use autocontain::parser::trimmed;
use autocontain::repo::{add_tag, apply_tag, format_tags, parse_tags, remove_tag};
use autocontain::text::{
    classify_attributes, find_char, format_attribute, from_chars, holds_text, join_texts,
    same_text, split_top_level_ranges, strip_brackets, to_chars, trim_range, CharSet,
};

fn pieces(text: &str) -> Vec<String> {
    let chars = to_chars(text);
    split_top_level_ranges(&chars, 0, chars.len())
        .into_iter()
        .map(|(a, b)| from_chars(&chars, a, b))
        .collect()
}

fn attribute(text: &str) -> String {
    let chars = to_chars(text);
    format_attribute(&chars, 0, chars.len())
}

#[test]
fn characters_round_trip() {
    let chars = to_chars("añb");
    assert_eq!(chars, vec!['a', 'ñ', 'b']);
    assert_eq!(from_chars(&chars, 0, 3), "añb");
    assert_eq!(from_chars(&chars, 1, 2), "ñ");
    assert_eq!(from_chars(&chars, 2, 2), "");
}

#[test]
fn commas_inside_brackets_do_not_split() {
    assert_eq!(pieces("a, b"), vec!["a", " b"]);
    assert_eq!(pieces("self, items: list=[1,2,3]"), vec!["self", " items: list=[1,2,3]"]);
    assert_eq!(pieces("a=(1, 2), b={3, 4}, c=[5, (6, 7)]"), vec!["a=(1, 2)", " b={3, 4}", " c=[5, (6, 7)]"]);
    assert_eq!(pieces(""), vec![""]);
    assert_eq!(pieces(","), vec!["", ""]);
    assert_eq!(pieces("a,"), vec!["a", ""]);
    assert_eq!(pieces("a), b"), vec!["a)", " b"]);
    assert_eq!(pieces("f(a, b"), vec!["f(a, b"]);
}

#[test]
fn attribute_is_name_and_type() {
    assert_eq!(attribute(" x: int"), "x: int");
    assert_eq!(attribute("x"), "x: unknown");
    assert_eq!(attribute("  y :  str  "), "y: str");
    assert_eq!(attribute("items: list=[1,2,3]"), "items: list=[1,2,3]");
    assert_eq!(attribute("x: int)"), "x: int)");
    assert_eq!(attribute("x: int ) "), "x: int )");
    assert_eq!(attribute("d: Dict[str, int] = {1: 2}"), "d: Dict[str, int] = {1: 2}");
    assert_eq!(attribute("n: int = g()"), "n: int = g()");
    assert_eq!(attribute(""), ": unknown");
    assert_eq!(attribute("x:"), "x: ");
}

#[test]
fn first_parameter_is_dropped() {
    assert_eq!(classify_attributes("self"), Vec::<String>::new());
    assert_eq!(classify_attributes(""), Vec::<String>::new());
    assert_eq!(classify_attributes("a, b"), vec!["b: unknown"]);
    assert_eq!(
        classify_attributes("self, x: int = 3, *args, **kwargs"),
        vec!["x: int = 3", "*args: unknown", "**kwargs: unknown"]
    );
    assert_eq!(
        classify_attributes("self, pair: Tuple[int, int] = (1, 2), flag=True"),
        vec!["pair: Tuple[int, int] = (1, 2)", "flag=True: unknown"]
    );
}

#[test]
fn trimming_strips_both_ends() {
    assert_eq!(trimmed("  a b \t\n", CharSet::Space), "a b");
    assert_eq!(trimmed("\u{a0}\u{2003}x\u{3000}", CharSet::Space), "x");
    assert_eq!(trimmed("\"\"\"Doc \"quoted\".\"\"\"", CharSet::Quote), "Doc \"quoted\".");
    assert_eq!(trimmed("//a/b//", CharSet::Slash), "a/b");
    assert_eq!(strip_brackets("(a, (b))"), "a, (b)");
    assert_eq!(strip_brackets("(a, b=g())"), "a, b=g()");
    assert_eq!(strip_brackets("()"), "");
    assert_eq!(strip_brackets("(("), "(");
    assert_eq!(strip_brackets("("), "");
    assert_eq!(strip_brackets(")"), "");
    assert_eq!(strip_brackets(""), "");
    assert_eq!(strip_brackets("a)"), "a");
    assert_eq!(strip_brackets("(a"), "a");
    assert_eq!(strip_brackets("a, b"), "a, b");
    assert_eq!(trimmed("", CharSet::Space), "");
    let chars = to_chars("..  ab  ..");
    assert_eq!(trim_range(&chars, 2, 8, CharSet::Space), (4, 6));
    assert!(CharSet::Space.has(' '));
    assert!(CharSet::Space.has('\u{85}'));
    assert!(!CharSet::Space.has('\u{200b}'));
    assert!(!CharSet::Space.has('a'));
}

#[test]
fn searching_and_comparing() {
    let chars = to_chars("a:b:c");
    assert_eq!(find_char(&chars, 0, 5, ':'), 1);
    assert_eq!(find_char(&chars, 2, 5, ':'), 3);
    assert_eq!(find_char(&chars, 4, 5, ':'), 5);
    assert_eq!(find_char(&chars, 0, 1, ':'), 1);
    assert!(same_text("abc", "abc"));
    assert!(!same_text("abc", "abd"));
    assert!(!same_text("abc", "ab"));
    assert!(same_text("", ""));
    let list = vec!["a".to_string(), "b".to_string()];
    assert!(holds_text(&list, "b"));
    assert!(!holds_text(&list, "c"));
}

#[test]
fn joining_puts_the_separator_between() {
    assert_eq!(join_texts(&vec![], ", "), "");
    assert_eq!(join_texts(&vec!["a".to_string()], ", "), "a");
    assert_eq!(join_texts(&vec!["a".to_string(), "b".to_string(), "c".to_string()], ", "), "a, b, c");
}

#[test]
fn tags_are_a_set_in_order() {
    let mut tags = vec!["a".to_string(), "b".to_string()];
    add_tag("c", &mut tags);
    assert_eq!(tags, vec!["a", "b", "c"]);
    add_tag("a", &mut tags);
    assert_eq!(tags, vec!["a", "b", "c"]);
    remove_tag("b", &mut tags);
    assert_eq!(tags, vec!["a", "c"]);
    remove_tag("zzz", &mut tags);
    assert_eq!(tags, vec!["a", "c"]);
    let mut twice = vec!["x".to_string(), "y".to_string(), "x".to_string()];
    remove_tag("x", &mut twice);
    assert_eq!(twice, vec!["y"]);
}

#[test]
fn tags_file_is_one_tag_per_line() {
    assert_eq!(parse_tags(""), Vec::<String>::new());
    assert_eq!(parse_tags("a\nb\n"), vec!["a", "b"]);
    assert_eq!(parse_tags("a\r\nb"), vec!["a", "b"]);
    assert_eq!(parse_tags("a\nb\na\n"), vec!["a", "b"]);
    assert_eq!(parse_tags("a\n\nb\n"), vec!["a", "", "b"]);
    assert_eq!(parse_tags("\n"), vec![""]);
    assert_eq!(format_tags(&vec!["a".to_string(), "b".to_string()]), "a\nb\n");
    assert_eq!(format_tags(&vec![]), "");
}

#[test]
fn applying_a_tag_rewrites_the_file() {
    assert_eq!(apply_tag("repo", ""), "repo\n");
    assert_eq!(apply_tag("repo", "other\n"), "other\nrepo\n");
    assert_eq!(apply_tag("repo", "other\nrepo\n"), "other\nrepo\n");
    assert_eq!(apply_tag("repo", "repo\nrepo\nx"), "repo\nx\n");
}
