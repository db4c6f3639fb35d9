//! What holds of the engine as a whole.

use vstd::prelude::*;
use crate::compiler::{CompileError, compile, compile_from, is_compilation};
use crate::engine::{is_anchored, match_result, matches_at, matches_somewhere, trim_line};
use crate::matcher::{match_node, match_nodes};
use crate::pattern::{Node, Pattern, nodes_of};
use crate::text::lemma_char_is_scalar_value;

verus! {

/// Whether `c` has a meaning of its own somewhere in a pattern.
pub open spec fn is_metachar(c: char) -> bool {
    c == '\\' || c == '[' || c == ']' || c == '^' || c == '$' || c == '.' || c == '(' || c == ')'
        || c == '|' || c == '+' || c == '?'
}

/// Whether no character of `pattern` is a metacharacter.
pub open spec fn is_plain(pattern: Seq<char>) -> bool {
    forall|i: int| 0 <= i < pattern.len() ==> !is_metachar(#[trigger] pattern[i])
}

/// The literal node of `c`.
pub open spec fn literal_of(c: char) -> Node {
    Node::Literal(c)
}

/// One literal node for each character of `text`.
pub open spec fn literals_of(text: Seq<char>) -> Seq<Node> {
    Seq::new(text.len(), |i: int| literal_of(text[i]))
}

proof fn lemma_plain_compiles_from(pattern: Seq<char>, at: int, built: Seq<Node>, ors: int)
    requires
        is_plain(pattern),
        0 <= at <= pattern.len(),
        built == literals_of(pattern.subrange(0, at)),
    ensures
        compile_from(pattern, at, built, ors) == Ok::<Seq<Node>, CompileError>(
            literals_of(pattern),
        ),
    decreases pattern.len() - at,
{
    if at < pattern.len() {
        lemma_char_is_scalar_value(pattern[at]);
        assert(!is_metachar(pattern[at]));
        if at + 1 < pattern.len() {
            assert(!is_metachar(pattern[at + 1]));
        }
        let next = built.push(Node::Literal(pattern[at]));
        assert(next =~= literals_of(pattern.subrange(0, at + 1)));
        lemma_plain_compiles_from(pattern, at + 1, next, ors);
    } else {
        assert(pattern.subrange(0, at) =~= pattern);
    }
}

/// A pattern without metacharacters compiles to one literal node for each of
/// its characters, however many groups are open around it.
pub proof fn lemma_plain_pattern_compiles_to_literals(pattern: Seq<char>, ors: int)
    requires
        is_plain(pattern),
    ensures
        compile(pattern, ors) == Ok::<Seq<Node>, CompileError>(literals_of(pattern)),
{
    assert(Seq::<Node>::empty() =~= literals_of(pattern.subrange(0, 0)));
    lemma_plain_compiles_from(pattern, 0, Seq::empty(), ors);
}

/// The literal nodes of a text match the text itself, node by node, to its
/// end.
pub proof fn lemma_literals_match_their_text(text: Seq<char>, from: int)
    requires
        0 <= from <= text.len(),
    ensures
        match_nodes(literals_of(text), from, text, from) == Some(text.len() as int),
    decreases text.len() - from,
{
    if from < text.len() {
        assert(literals_of(text)[from] == Node::Literal(text[from]));
        assert(match_node(literals_of(text)[from], text, from) == Some(from + 1));
        lemma_literals_match_their_text(text, from + 1);
    }
}

/// A line that does not end in a newline is kept whole.
pub proof fn lemma_trim_keeps_line_without_newline(line: Seq<char>)
    requires
        line.len() == 0 || line.last() != '\n',
    ensures
        trim_line(line) == line,
{
    assert(line.subrange(0, line.len() as int) =~= line);
}

/// A text without metacharacters, taken as a pattern, matches itself. The
/// line loses the newlines at its end before it is matched and the pattern
/// keeps them, so this is stated of texts that do not end in a newline.
pub proof fn lemma_plain_pattern_matches_itself(pattern: Seq<char>)
    requires
        is_plain(pattern),
        pattern.len() == 0 || pattern.last() != '\n',
    ensures
        match_result(pattern, pattern) == Ok::<bool, CompileError>(true),
{
    lemma_plain_pattern_compiles_to_literals(pattern, 0);
    lemma_trim_keeps_line_without_newline(pattern);
    lemma_literals_match_their_text(pattern, 0);
    if pattern.len() > 0 {
        assert(!is_metachar(pattern[0]));
    }
    assert(!is_anchored(pattern));
    assert(matches_at(literals_of(pattern), pattern, 0));
}

/// A text without metacharacters that is not empty, taken as a pattern, does
/// not match the empty line.
pub proof fn lemma_plain_pattern_rejects_empty_line(pattern: Seq<char>)
    requires
        is_plain(pattern),
        pattern.len() > 0,
    ensures
        match_result(Seq::empty(), pattern) == Ok::<bool, CompileError>(false),
{
    let line = Seq::<char>::empty();
    lemma_plain_pattern_compiles_to_literals(pattern, 0);
    lemma_trim_keeps_line_without_newline(line);
    assert(!is_metachar(pattern[0]));
    assert(!is_anchored(pattern));
    assert(match_node(literals_of(pattern)[0], line, 0) is None);
    assert(!matches_at(literals_of(pattern), line, 0));
    assert(!matches_somewhere(literals_of(pattern), line));
}

/// Compiling is a function of the pattern's text and of the count of open
/// groups: two compilations of one text end alike, both refused for the same
/// reason or both with the same count and with nodes that give the same
/// answer on every text from every position.
pub proof fn lemma_compiling_twice_agrees(
    pattern: Seq<char>,
    before: u32,
    first: Result<Vec<Pattern>, CompileError>,
    first_after: u32,
    second: Result<Vec<Pattern>, CompileError>,
    second_after: u32,
    text: Seq<char>,
    start: int,
)
    requires
        is_compilation(pattern, before, first, first_after),
        is_compilation(pattern, before, second, second_after),
    ensures
        first_after == second_after,
        first is Err ==> first == second,
        first is Ok ==> second is Ok && nodes_of(first->Ok_0@) == nodes_of(second->Ok_0@)
            && match_nodes(nodes_of(first->Ok_0@), 0, text, start) == match_nodes(
            nodes_of(second->Ok_0@),
            0,
            text,
            start,
        ) && matches_somewhere(nodes_of(first->Ok_0@), text) == matches_somewhere(
            nodes_of(second->Ok_0@),
            text,
        ),
{
}

} // verus!
