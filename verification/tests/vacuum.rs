use sol_vacuum::analyze_file;
use sol_vacuum::classify::select_unused;
use sol_vacuum::classify::should_ignore_function;
use sol_vacuum::count::count_function_occurrences;
use sol_vacuum::count::count_occurrences;
use sol_vacuum::engine::remove_unused_functions;
use sol_vacuum::scan::extract_functions;
use sol_vacuum::span::find_removal_span;

fn names_of(v: &[Vec<u8>]) -> Vec<String> {
    v.iter().map(|n| String::from_utf8(n.clone()).unwrap()).collect()
}

fn strings(v: &[&str]) -> Vec<String> {
    v.iter().map(|s| s.to_string()).collect()
}

#[test]
fn matcher_finds_names_in_order_with_duplicates() {
    let src = b"function foo() { return 1; }\nfunction bar(uint x) {}\nfunction foo() {}\n";
    let names = extract_functions(src);
    assert_eq!(names_of(&names), vec!["foo", "bar", "foo"]);
}

#[test]
fn matcher_requires_keyword_boundary_and_whitespace() {
    assert_eq!(extract_functions(b"functionfoo()").len(), 0);
    assert_eq!(extract_functions(b"myfunction foo()").len(), 0);
    assert_eq!(extract_functions(b"function ()").len(), 0);
    let names = extract_functions(b"function\n\t spread  () {}");
    assert_eq!(names_of(&names), vec!["spread"]);
}

#[test]
fn matcher_accepts_prototype_declarations() {
    let names = extract_functions(b"function proto(uint x) external;\n");
    assert_eq!(names_of(&names), vec!["proto"]);
}

#[test]
fn occurrences_are_non_overlapping() {
    assert_eq!(count_occurrences(b"aaa", b"aa"), 1);
    assert_eq!(count_occurrences(b"aaaa", b"aa"), 2);
    assert_eq!(count_occurrences(b"none here", b"zz"), 0);
}

#[test]
fn single_declaration_counts_one() {
    let file = b"function solo() {}\n".to_vec();
    let files = vec![file];
    let names = vec![b"solo".to_vec()];
    let counts = count_function_occurrences(&files, &names);
    assert_eq!(counts, vec![1]);
}

#[test]
fn declaration_plus_call_flags_only_the_unreferenced() {
    let a = b"function foo() { return 1; }\nfunction bar() { foo(); }\n".to_vec();
    let files = vec![a.clone()];
    let names = extract_functions(&a);
    assert_eq!(names_of(&names), vec!["foo", "bar"]);
    let counts = count_function_occurrences(&files, &names);
    assert_eq!(counts, vec![2, 1]);
    let unused = select_unused(&names, &counts, &strings(&["^test"]));
    assert_eq!(names_of(&unused), vec!["bar"]);
}

#[test]
fn ignore_pattern_always_keeps() {
    let patterns = strings(&["^test"]);
    assert!(should_ignore_function(b"testHelper", &patterns));
    assert!(!should_ignore_function(b"helper", &patterns));
    let names = vec![b"testHelper".to_vec()];
    let counts = vec![0usize];
    let unused = select_unused(&names, &counts, &patterns);
    assert_eq!(unused.len(), 0);
}

#[test]
fn overriding_patterns_replaces_the_default() {
    let patterns = strings(&["^internal_"]);
    assert!(!should_ignore_function(b"testHelper", &patterns));
    assert!(should_ignore_function(b"internal_only", &patterns));
}

#[test]
fn invalid_pattern_is_skipped() {
    let patterns = strings(&["(", "^test"]);
    assert!(should_ignore_function(b"testFoo", &patterns));
    assert!(!should_ignore_function(b"anything", &strings(&["("])));
}

#[test]
fn nested_braces_removed_as_one_unit() {
    let src = b"function top() {\n  if (x) { y(); }\n  z();\n}\nfunction keep() {}\n";
    let (out, removed) = remove_unused_functions(src, &vec![b"top".to_vec()]);
    assert_eq!(String::from_utf8(out).unwrap(), "function keep() {}\n");
    assert_eq!(names_of(&removed), vec!["top"]);
}

#[test]
fn doc_block_is_absorbed() {
    let src = b"/**\n * doc\n */\nfunction gone() {}\nfunction kept() {}\n";
    let (out, removed) = remove_unused_functions(src, &vec![b"gone".to_vec()]);
    assert_eq!(String::from_utf8(out).unwrap(), "function kept() {}\n");
    assert_eq!(removed.len(), 1);
}

#[test]
fn unrelated_comment_is_not_absorbed() {
    let src = b"/** head */\nuint x;\nfunction gone() {}\n";
    let (out, _) = remove_unused_functions(src, &vec![b"gone".to_vec()]);
    assert_eq!(String::from_utf8(out).unwrap(), "/** head */\nuint x;\n");
}

#[test]
fn semicolon_declaration_removed_to_line_end() {
    let src = b"function a();\nfunction b() {\n}\n";
    let (out, _) = remove_unused_functions(src, &vec![b"a".to_vec()]);
    assert_eq!(String::from_utf8(out).unwrap(), "function b() {\n}\n");
}

#[test]
fn empty_selection_round_trips_byte_identical() {
    let src = b"function f() {}\n// trailing\n".to_vec();
    let (out, removed) = remove_unused_functions(&src, &Vec::new());
    assert_eq!(out, src);
    assert_eq!(removed.len(), 0);
}

#[test]
fn unresolved_nesting_leaves_function_untouched() {
    let src = b"function broken() { {\n";
    assert_eq!(find_removal_span(src, b"broken"), None);
    let (out, removed) = remove_unused_functions(src, &vec![b"broken".to_vec()]);
    assert_eq!(out, src.to_vec());
    assert_eq!(removed.len(), 0);
}

#[test]
fn span_is_whole_word_on_the_name() {
    let src = b"function foobar() {}\nfunction foo() {}\n";
    let span = find_removal_span(src, b"foo").unwrap();
    assert_eq!(span, (21, 39));
}

#[test]
fn missing_name_has_no_span() {
    assert_eq!(find_removal_span(b"function a() {}\n", b"b"), None);
}

#[test]
fn deletion_is_idempotent_on_remaining_functions() {
    let src = b"function lonely() {}\nfunction hub() { lonely(); }\n";
    let files = vec![src.to_vec()];
    let (_, counts, unused) = analyze_file(src, &files, &strings(&["^test"]));
    assert_eq!(counts, vec![2, 1]);
    assert_eq!(names_of(&unused), vec!["hub"]);
    let (out, removed) = remove_unused_functions(src, &unused);
    assert_eq!(names_of(&removed), vec!["hub"]);
    let after = extract_functions(&out);
    assert!(!names_of(&after).contains(&"hub".to_string()));
    assert_eq!(names_of(&after), vec!["lonely"]);
}

#[test]
fn analyze_reports_names_counts_and_selection() {
    let a = b"function used() {}\nfunction dead() {}\nfunction caller() { used(); }\n";
    let files = vec![a.to_vec()];
    let (names, counts, unused) = analyze_file(a, &files, &strings(&["^test"]));
    assert_eq!(names_of(&names), vec!["used", "dead", "caller"]);
    assert_eq!(counts, vec![2, 1, 1]);
    assert_eq!(names_of(&unused), vec!["dead", "caller"]);
}

#[test]
fn ignored_helper_never_listed_and_excluded_from_total() {
    let src = b"function testHelper() {}\nfunction real() {}\n";
    let files = vec![src.to_vec()];
    let (names, counts, unused) = analyze_file(src, &files, &strings(&["^test"]));
    assert_eq!(names_of(&names), vec!["testHelper", "real"]);
    assert_eq!(counts, vec![1, 1]);
    assert!(should_ignore_function(b"testHelper", &strings(&["^test"])));
    assert_eq!(names_of(&unused), vec!["real"]);
}

#[test]
fn counts_accumulate_across_files() {
    let a = b"function shared() {}\n".to_vec();
    let b = b"contract C { constructor() { shared(); shared(); } }\n".to_vec();
    let files = vec![a, b];
    let counts = count_function_occurrences(&files, &vec![b"shared".to_vec()]);
    assert_eq!(counts, vec![3]);
}
