use mini_regex::compiler::{
    build_group, build_patterrns, find_branch_end, find_group_end, find_or, CompileError,
};
use mini_regex::cursor::Cursor;
use mini_regex::pattern::Pattern;

fn text(s: &str) -> Vec<char> {
    s.chars().collect()
}

fn compiled(s: &str) -> Result<Vec<Pattern>, CompileError> {
    let mut ors = 0;
    build_patterrns(&text(s), &mut ors)
}

fn literals(s: &str) -> Vec<Pattern> {
    s.chars().map(Pattern::Literal).collect()
}

#[test]
fn plain_text_compiles_to_literals() {
    assert_eq!(compiled(""), Ok(vec![]));
    assert_eq!(compiled("abc"), Ok(literals("abc")));
    assert_eq!(compiled("a b"), Ok(literals("a b")));
}

#[test]
fn escapes_compile_to_classes() {
    assert_eq!(
        compiled("\\d\\w\\\\"),
        Ok(vec![Pattern::Digit, Pattern::Alphanumeric, Pattern::Literal('\\')])
    );
}

#[test]
fn anchors_and_wildcard_compile_to_their_nodes() {
    assert_eq!(
        compiled("a.$"),
        Ok(vec![Pattern::Literal('a'), Pattern::Wildcard, Pattern::End])
    );
    assert_eq!(compiled("^a"), Ok(literals("^a")));
}

#[test]
fn quantifiers_wrap_the_character_before_them() {
    assert_eq!(
        compiled("ca+t?s"),
        Ok(vec![
            Pattern::Literal('c'),
            Pattern::Plus('a'),
            Pattern::Optional('t'),
            Pattern::Literal('s'),
        ])
    );
    assert_eq!(compiled("+"), Ok(vec![Pattern::Literal('+')]));
    assert_eq!(compiled("++"), Ok(vec![Pattern::Plus('+')]));
    assert_eq!(compiled("+?"), Ok(vec![Pattern::Optional('+')]));
    assert_eq!(compiled("a+?"), Ok(vec![Pattern::Plus('a'), Pattern::Literal('?')]));
    assert_eq!(
        compiled(".+"),
        Ok(vec![Pattern::Wildcard, Pattern::Literal('+')])
    );
    assert_eq!(
        compiled("\\d?"),
        Ok(vec![Pattern::Digit, Pattern::Literal('?')])
    );
}

#[test]
fn sets_compile_to_groups() {
    assert_eq!(compiled("[abc]"), Ok(vec![Pattern::Group(true, text("abc"))]));
    assert_eq!(compiled("[^abc]"), Ok(vec![Pattern::Group(false, text("abc"))]));
    assert_eq!(compiled("[]"), Ok(vec![Pattern::Group(true, vec![])]));
    assert_eq!(compiled("[^]"), Ok(vec![Pattern::Group(false, vec![])]));
    assert_eq!(compiled("[a^]"), Ok(vec![Pattern::Group(true, text("a^"))]));
    assert_eq!(compiled("[(.$+]"), Ok(vec![Pattern::Group(true, text("(.$+"))]));
    assert_eq!(
        compiled("[a]]"),
        Ok(vec![Pattern::Group(true, text("a")), Pattern::Literal(']')])
    );
    assert_eq!(
        compiled("[a\\]b]c"),
        Ok(vec![Pattern::Group(true, text("a\\]b")), Pattern::Literal('c')])
    );
    assert_eq!(compiled("[\\\\]"), Ok(vec![Pattern::Group(true, text("\\\\"))]));
}

#[test]
fn a_set_left_open_takes_the_rest_of_the_pattern() {
    assert_eq!(compiled("[abc"), Ok(vec![Pattern::Group(true, text("abc"))]));
    assert_eq!(compiled("x[^abc"), Ok(vec![Pattern::Literal('x'), Pattern::Group(false, text("abc"))]));
    assert_eq!(compiled("["), Ok(vec![Pattern::Group(true, vec![])]));
    assert_eq!(compiled("[^"), Ok(vec![Pattern::Group(false, vec![])]));
    assert_eq!(compiled("[a\\]"), Ok(vec![Pattern::Group(true, text("a\\]"))]));
    assert_eq!(compiled("[a\\"), Ok(vec![Pattern::Group(true, text("a\\"))]));
    assert_eq!(compiled("[a(b|c)$."), Ok(vec![Pattern::Group(true, text("a(b|c)$."))]));
    assert_eq!(
        compiled("(a|[b)"),
        Ok(vec![Pattern::Or(vec![literals("a"), vec![Pattern::Group(true, text("b"))]])])
    );
}

#[test]
fn groups_compile_to_branches() {
    assert_eq!(
        compiled("(cat|dog)"),
        Ok(vec![Pattern::Or(vec![literals("cat"), literals("dog")])])
    );
    assert_eq!(compiled("()"), Ok(vec![Pattern::Or(vec![vec![]])]));
    assert_eq!(compiled("(|)"), Ok(vec![Pattern::Or(vec![vec![], vec![]])]));
    assert_eq!(
        compiled("(a|)"),
        Ok(vec![Pattern::Or(vec![literals("a"), vec![]])])
    );
    assert_eq!(
        compiled("x(a)y"),
        Ok(vec![
            Pattern::Literal('x'),
            Pattern::Or(vec![literals("a")]),
            Pattern::Literal('y'),
        ])
    );
}

#[test]
fn nested_groups_keep_their_own_bars() {
    assert_eq!(
        compiled("((a|b)c|d)"),
        Ok(vec![Pattern::Or(vec![
            vec![
                Pattern::Or(vec![literals("a"), literals("b")]),
                Pattern::Literal('c'),
            ],
            literals("d"),
        ])])
    );
}

#[test]
fn an_escaped_backslash_does_not_hide_what_follows() {
    assert_eq!(
        compiled("(a\\\\)"),
        Ok(vec![Pattern::Or(vec![vec![
            Pattern::Literal('a'),
            Pattern::Literal('\\'),
        ]])])
    );
    assert_eq!(
        compiled("(a\\\\|b)"),
        Ok(vec![Pattern::Or(vec![
            vec![Pattern::Literal('a'), Pattern::Literal('\\')],
            literals("b"),
        ])])
    );
}

#[test]
fn back_references_copy_the_branches_of_their_group() {
    let cat = vec![literals("cat")];
    assert_eq!(
        compiled("(cat)\\1"),
        Ok(vec![Pattern::Or(cat.clone()), Pattern::BackRef(cat.clone())])
    );
    let inner: Vec<Pattern> = {
        let mut v = vec![Pattern::Literal('\''), Pattern::Or(cat.clone())];
        v.extend(literals(" and "));
        v.push(Pattern::BackRef(cat.clone()));
        v.push(Pattern::Literal('\''));
        v
    };
    let mut whole = vec![Pattern::Or(vec![inner.clone()])];
    whole.extend(literals(" is the same as "));
    whole.push(Pattern::BackRef(vec![inner]));
    assert_eq!(compiled("('(cat) and \\2') is the same as \\1"), Ok(whole));
}

#[test]
fn the_count_of_open_groups_comes_back() {
    let mut ors = 0;
    assert!(build_patterrns(&text("(a(b)c)"), &mut ors).is_ok());
    assert_eq!(ors, 0);
    let mut ors = 3;
    assert!(build_patterrns(&text("a(b|c)"), &mut ors).is_ok());
    assert_eq!(ors, 3);
}

#[test]
fn groups_are_numbered_in_the_order_in_which_they_open() {
    let a = vec![literals("a")];
    let b = vec![literals("b")];
    assert_eq!(
        compiled("(a)(b)\\2"),
        Ok(vec![Pattern::Or(a.clone()), Pattern::Or(b.clone()), Pattern::BackRef(b.clone())])
    );
    assert_eq!(
        compiled("(a)(b)\\1"),
        Ok(vec![Pattern::Or(a.clone()), Pattern::Or(b.clone()), Pattern::BackRef(a.clone())])
    );
    assert_eq!(compiled("(a)(b)\\3"), Err(CompileError::InvalidBackReference));
    let outer = vec![vec![Pattern::Literal('a'), Pattern::Or(b.clone())]];
    assert_eq!(
        compiled("(a(b))\\2"),
        Ok(vec![Pattern::Or(outer.clone()), Pattern::BackRef(b.clone())])
    );
    assert_eq!(
        compiled("(a(b))\\1"),
        Ok(vec![Pattern::Or(outer.clone()), Pattern::BackRef(outer.clone())])
    );
    assert_eq!(compiled("(a(b))\\3"), Err(CompileError::InvalidBackReference));
    let c = vec![literals("c")];
    assert_eq!(
        compiled("(a(b))(c)\\3"),
        Ok(vec![Pattern::Or(outer.clone()), Pattern::Or(c.clone()), Pattern::BackRef(c.clone())])
    );
    let either = vec![vec![Pattern::Or(a.clone())], vec![Pattern::Or(b.clone())]];
    assert_eq!(
        compiled("((a)|(b))\\3"),
        Ok(vec![Pattern::Or(either.clone()), Pattern::BackRef(b.clone())])
    );
}

#[test]
fn a_back_reference_inside_a_group_counts_from_the_groups_open_around_it() {
    let a = vec![literals("a")];
    let b = vec![literals("b")];
    assert_eq!(
        compiled("((a)(b)\\3)"),
        Ok(vec![Pattern::Or(vec![vec![
            Pattern::Or(a.clone()),
            Pattern::Or(b.clone()),
            Pattern::BackRef(b.clone()),
        ]])])
    );
    assert_eq!(
        compiled("((a)\\2)"),
        Ok(vec![Pattern::Or(vec![vec![Pattern::Or(a.clone()), Pattern::BackRef(a.clone())]])])
    );
    assert_eq!(compiled("((a)\\1)"), Err(CompileError::InvalidBackReference));
    assert_eq!(compiled("((a)\\3)"), Err(CompileError::InvalidBackReference));
    assert_eq!(compiled("(x)(\\1)"), Err(CompileError::InvalidBackReference));
    assert_eq!(compiled("(x)(\\2)"), Err(CompileError::InvalidBackReference));
}

#[test]
fn compiling_leaves_the_count_of_open_groups_as_it_was() {
    for p in ["", "abc", "(a)(b)\\2", "(a(b))\\2", "((a)|(b))\\3", "(a|(b|(c)))", "[abc"] {
        for d in [0, 1, 7] {
            let mut ors = d;
            let _ = build_patterrns(&text(p), &mut ors);
            assert_eq!(ors, d);
        }
    }
    let mut ors = 0;
    assert!(build_patterrns(&text("(a)(b)\\2"), &mut ors).is_ok());
    assert_eq!(ors, 0);
}

#[test]
fn a_refused_pattern_leaves_the_count_as_it_was() {
    for p in ["\\q", "(abc", "a\\", "\\1", "(a(b|\\q))", "(a)(b)\\5", "(a(b)\\9)"] {
        let mut ors = 2;
        assert!(build_patterrns(&text(p), &mut ors).is_err());
        assert_eq!(ors, 2);
    }
}

#[test]
fn refusals() {
    assert_eq!(compiled("\\q"), Err(CompileError::UnknownEscape));
    assert_eq!(compiled("\\)"), Err(CompileError::UnknownEscape));
    assert_eq!(compiled("\\|"), Err(CompileError::UnknownEscape));
    assert_eq!(compiled("(abc"), Err(CompileError::UnterminatedGroup));
    assert_eq!(compiled("(a(b)"), Err(CompileError::UnterminatedGroup));
    assert_eq!(compiled("abc\\"), Err(CompileError::IncompleteEscape));
    assert_eq!(compiled("\\1"), Err(CompileError::InvalidBackReference));
    assert_eq!(compiled("a\\0"), Err(CompileError::InvalidBackReference));
    assert_eq!(compiled("(a)\\2"), Err(CompileError::InvalidBackReference));
    assert_eq!(compiled("(a\\(b)"), Err(CompileError::UnknownEscape));
    assert_eq!(compiled("(a\\)b)"), Err(CompileError::UnknownEscape));
}

#[test]
fn too_many_open_groups_are_refused() {
    let mut ors = u32::MAX;
    assert_eq!(build_patterrns(&text("(a)"), &mut ors), Err(CompileError::TooDeep));
    assert_eq!(ors, u32::MAX);
    let mut ors = u32::MAX;
    assert_eq!(build_patterrns(&text("abc"), &mut ors), Ok(literals("abc")));
    assert_eq!(ors, u32::MAX);
}

#[test]
fn messages() {
    assert_eq!(CompileError::IncompleteEscape.message(), "Incomplete special character");
    assert_eq!(CompileError::UnknownEscape.message(), "Unknown special character");
    assert_eq!(CompileError::InvalidBackReference.message(), "Invalid back reference");
    assert_eq!(CompileError::UnterminatedGroup.message(), "Unmatched '('");
    assert_eq!(CompileError::TooDeep.message(), "Too many open groups");
}

#[test]
fn build_group_reads_up_to_the_closing_bracket() {
    let t = text("[abc]d");
    let mut it = Cursor::new(&t, 1);
    assert_eq!(build_group(&mut it), (true, text("abc")));
    assert_eq!(it.pos, 5);
    let t = text("[^abc]d");
    let mut it = Cursor::new(&t, 1);
    assert_eq!(build_group(&mut it), (false, text("abc")));
    assert_eq!(it.pos, 6);
    let t = text("]");
    let mut it = Cursor::new(&t, 0);
    assert_eq!(build_group(&mut it), (true, vec![]));
    assert_eq!(it.pos, 1);
    let t = text("aab]a]");
    let mut it = Cursor::new(&t, 0);
    assert_eq!(build_group(&mut it), (true, text("aab")));
    assert_eq!(it.pos, 4);
    let t = text("a\\]b]");
    let mut it = Cursor::new(&t, 0);
    assert_eq!(build_group(&mut it), (true, text("a\\]b")));
    assert_eq!(it.pos, 5);
}

#[test]
fn build_group_takes_all_that_is_left_of_a_set_left_open() {
    let t = text("abc");
    let mut it = Cursor::new(&t, 0);
    assert_eq!(build_group(&mut it), (true, text("abc")));
    assert_eq!(it.pos, 3);
    assert!(it.at_end());
    let t = text("[^abc");
    let mut it = Cursor::new(&t, 1);
    assert_eq!(build_group(&mut it), (false, text("abc")));
    assert_eq!(it.pos, 5);
    let t = text("");
    let mut it = Cursor::new(&t, 0);
    assert_eq!(build_group(&mut it), (true, vec![]));
    assert_eq!(it.pos, 0);
    let t = text("^");
    let mut it = Cursor::new(&t, 0);
    assert_eq!(build_group(&mut it), (false, vec![]));
    assert_eq!(it.pos, 1);
    let t = text("ab\\");
    let mut it = Cursor::new(&t, 0);
    assert_eq!(build_group(&mut it), (true, text("ab\\")));
    assert_eq!(it.pos, 3);
    let t = text("a\\]");
    let mut it = Cursor::new(&t, 0);
    assert_eq!(build_group(&mut it), (true, text("a\\]")));
    assert_eq!(it.pos, 3);
}

#[test]
fn find_group_end_counts_the_groups_inside() {
    assert_eq!(find_group_end(&text("(abc)"), 1), 4);
    assert_eq!(find_group_end(&text("(a(b)c)d"), 1), 6);
    assert_eq!(find_group_end(&text("(a(b)c"), 1), 6);
    assert_eq!(find_group_end(&text("()"), 1), 1);
    assert_eq!(find_group_end(&text("(a\\)b)"), 1), 5);
    assert_eq!(find_group_end(&text("(a\\(b)"), 1), 5);
    assert_eq!(find_group_end(&text("(a\\\\)b)"), 1), 4);
    assert_eq!(find_group_end(&text("(ab\\"), 1), 4);
    assert_eq!(find_group_end(&text("abc"), 3), 3);
}

#[test]
fn find_branch_end_stops_at_a_bar_outside_every_group() {
    assert_eq!(find_branch_end(&text("cat|dog"), 0), 3);
    assert_eq!(find_branch_end(&text("cat|dog"), 4), 7);
    assert_eq!(find_branch_end(&text("(a|b)c|d"), 0), 6);
    assert_eq!(find_branch_end(&text("a\\|b|c"), 0), 4);
    assert_eq!(find_branch_end(&text("|"), 0), 0);
    assert_eq!(find_branch_end(&text("|"), 1), 1);
    assert_eq!(find_branch_end(&text("a)|b"), 0), 2);
    assert_eq!(find_branch_end(&text(""), 0), 0);
}

fn search(patterns: &Vec<Pattern>, n: u32, d: u32) -> (Option<Vec<Vec<Pattern>>>, u32, u32) {
    let mut back_ref = n;
    let mut ors = d;
    let found = find_or(patterns, &mut back_ref, &mut ors);
    (found, back_ref, ors)
}

#[test]
fn find_or_counts_groups_side_by_side() {
    let patterns = vec![
        Pattern::Literal('x'),
        Pattern::Or(vec![literals("a")]),
        Pattern::Or(vec![literals("b")]),
    ];
    assert_eq!(search(&patterns, 1, 0), (Some(vec![literals("a")]), 0, 0));
    assert_eq!(search(&patterns, 2, 0), (Some(vec![literals("b")]), 0, 0));
    assert_eq!(search(&patterns, 3, 0), (None, 1, 0));
    assert_eq!(search(&patterns, 9, 0), (None, 7, 0));
}

#[test]
fn find_or_counts_from_the_groups_that_are_open() {
    let patterns = vec![Pattern::Or(vec![literals("a")]), Pattern::Or(vec![literals("b")])];
    assert_eq!(search(&patterns, 2, 1), (Some(vec![literals("a")]), 1, 1));
    assert_eq!(search(&patterns, 3, 1), (Some(vec![literals("b")]), 1, 1));
    assert_eq!(search(&patterns, 4, 1), (None, 2, 1));
    assert_eq!(search(&patterns, 5, 3), (Some(vec![literals("b")]), 3, 3));
}

#[test]
fn find_or_finds_nothing_for_a_number_that_is_not_above_the_open_groups() {
    let patterns = vec![Pattern::Or(vec![literals("a")])];
    assert_eq!(search(&patterns, 0, 0), (None, 0, 0));
    assert_eq!(search(&patterns, 1, 1), (None, 1, 1));
    assert_eq!(search(&patterns, 1, 3), (None, 1, 3));
    assert_eq!(search(&literals("abc"), 0, 0), (None, 0, 0));
}

#[test]
fn find_or_counts_a_group_before_the_groups_inside_it() {
    let inner = vec![Pattern::Literal('a'), Pattern::Or(vec![literals("b")])];
    let patterns = vec![
        Pattern::Or(vec![inner.clone()]),
        Pattern::Or(vec![literals("c")]),
    ];
    assert_eq!(search(&patterns, 1, 0), (Some(vec![inner.clone()]), 0, 0));
    assert_eq!(search(&patterns, 2, 0), (Some(vec![literals("b")]), 0, 0));
    assert_eq!(search(&patterns, 3, 0), (Some(vec![literals("c")]), 0, 0));
    assert_eq!(search(&patterns, 4, 0), (None, 1, 0));
}

#[test]
fn find_or_walks_the_branches_of_a_group_in_order() {
    let patterns = vec![Pattern::Or(vec![
        vec![Pattern::Or(vec![literals("a")])],
        vec![Pattern::Literal('x')],
        vec![Pattern::Or(vec![literals("b")]), Pattern::Or(vec![literals("c")])],
    ])];
    assert_eq!(search(&patterns, 2, 0), (Some(vec![literals("a")]), 0, 0));
    assert_eq!(search(&patterns, 3, 0), (Some(vec![literals("b")]), 0, 0));
    assert_eq!(search(&patterns, 4, 0), (Some(vec![literals("c")]), 0, 0));
    assert_eq!(search(&patterns, 5, 0), (None, 1, 0));
}

#[test]
fn find_or_says_when_the_group_is_not_there() {
    assert_eq!(search(&literals("abc"), 2, 0), (None, 2, 0));
    assert_eq!(search(&vec![], 1, 0), (None, 1, 0));
    let patterns = vec![Pattern::Or(vec![vec![
        Pattern::Or(vec![vec![]]),
        Pattern::Or(vec![vec![]]),
    ]])];
    assert_eq!(search(&patterns, 9, 0), (None, 6, 0));
    assert_eq!(search(&patterns, 9, 2), (None, 6, 2));
}

#[test]
fn find_or_does_not_count_back_references() {
    let patterns = vec![
        Pattern::Or(vec![literals("a")]),
        Pattern::BackRef(vec![literals("a")]),
        Pattern::Or(vec![literals("b")]),
    ];
    assert_eq!(search(&patterns, 1, 0), (Some(vec![literals("a")]), 0, 0));
    assert_eq!(search(&patterns, 2, 0), (Some(vec![literals("b")]), 0, 0));
    assert_eq!(
        compiled("(a)\\1\\1"),
        Ok(vec![
            Pattern::Or(vec![literals("a")]),
            Pattern::BackRef(vec![literals("a")]),
            Pattern::BackRef(vec![literals("a")]),
        ])
    );
}
