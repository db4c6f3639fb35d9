//! The matcher: what it means for a compiled pattern to match a text at a
//! position, and the functions that decide it.
//!
//! Matching never searches backwards. A quantifier takes all it can and keeps
//! it; a group commits to its first branch that matches, and is not asked
//! again if what follows the group then fails.

use vstd::prelude::*;
use crate::cursor::Cursor;
use crate::pattern::{Node, Pattern, nodes_of, branches_of, node_of};
use crate::text::{is_decimal_digit, is_alphanumeric_char, is_digit};

verus! {

/// How many times `c` stands in a row in `text` from `pos` on.
pub open spec fn run_length(text: Seq<char>, pos: int, c: char) -> nat
    decreases text.len() - pos,
{
    if 0 <= pos < text.len() && text[pos] == c {
        1 + run_length(text, pos + 1, c)
    } else {
        0
    }
}

/// Where `node` ends when it is matched against `text` at `pos`, or `None`
/// if it does not match there.
pub open spec fn match_node(node: Node, text: Seq<char>, pos: int) -> Option<int>
    decreases node, 0int,
{
    match node {
        Node::Literal(c) => if pos < text.len() && text[pos] == c {
            Some(pos + 1)
        } else {
            None
        },
        Node::Digit => if pos < text.len() && is_decimal_digit(text[pos]) {
            Some(pos + 1)
        } else {
            None
        },
        Node::Alphanumeric => if pos < text.len() && is_alphanumeric_char(text[pos]) {
            Some(pos + 1)
        } else {
            None
        },
        Node::Group(positive, members) => if pos < text.len() && members.contains(text[pos])
            == positive {
            Some(pos + 1)
        } else {
            None
        },
        Node::End => if pos >= text.len() {
            Some(pos)
        } else {
            None
        },
        Node::Plus(c) => if run_length(text, pos, c) > 0 {
            Some(pos + run_length(text, pos, c))
        } else {
            None
        },
        Node::Optional(c) => if pos < text.len() && text[pos] == c {
            Some(pos + 1)
        } else {
            Some(pos)
        },
        Node::Wildcard => if pos < text.len() {
            Some(pos + 1)
        } else {
            None
        },
        Node::Or(branches) => match_branches(branches, 0, text, pos),
        Node::BackRef(branches) => match_branches(branches, 0, text, pos),
    }
}

/// Where the first of `branches[from..]` that matches `text` at `pos` ends,
/// or `None` if none of them matches there.
pub open spec fn match_branches(
    branches: Seq<Seq<Node>>,
    from: int,
    text: Seq<char>,
    pos: int,
) -> Option<int>
    decreases branches, branches.len() - from,
{
    if from < 0 || from >= branches.len() {
        None
    } else {
        match match_nodes(branches[from], 0, text, pos) {
            Some(end) => Some(end),
            None => match_branches(branches, from + 1, text, pos),
        }
    }
}

/// Where `nodes[from..]`, matched one after the other against `text` from
/// `pos` on, end, or `None` if one of them fails.
pub open spec fn match_nodes(nodes: Seq<Node>, from: int, text: Seq<char>, pos: int) -> Option<int>
    decreases nodes, nodes.len() - from,
{
    if from < 0 || from >= nodes.len() {
        Some(pos)
    } else {
        match match_node(nodes[from], text, pos) {
            None => None,
            Some(next) => match_nodes(nodes, from + 1, text, next),
        }
    }
}

/// Whether `c` is one of `members`.
pub fn is_member(members: &Vec<char>, c: char) -> (b: bool)
    ensures
        b == members@.contains(c),
{
    let mut i: usize = 0;
    while i < members.len()
        invariant
            i <= members.len(),
            forall|k: int| 0 <= k < i ==> members@[k] != c,
        decreases members.len() - i,
    {
        if members[i] == c {
            return true;
        }
        i += 1;
    }
    false
}

/// Takes the next character, if one is left, and says whether it is `literal`.
pub fn match_literal(cursor: &mut Cursor, literal: char) -> (b: bool)
    requires
        old(cursor).wf(),
    ensures
        b == (old(cursor).head() == Some(literal)),
        final(cursor).text == old(cursor).text,
        final(cursor).pos == old(cursor).pos + old(cursor).step(),
{
    match cursor.next() {
        Some(c) => c == literal,
        None => false,
    }
}

/// Takes the next character, if one is left, and says whether it is a
/// decimal digit.
pub fn match_digit(cursor: &mut Cursor) -> (b: bool)
    requires
        old(cursor).wf(),
    ensures
        b == (old(cursor).head() is Some && is_decimal_digit(old(cursor).head()->0)),
        final(cursor).text == old(cursor).text,
        final(cursor).pos == old(cursor).pos + old(cursor).step(),
{
    match cursor.next() {
        Some(c) => is_digit(c),
        None => false,
    }
}

/// Takes the next character, if one is left, and says whether it is
/// alphanumeric.
pub fn match_alphanumeric(cursor: &mut Cursor) -> (b: bool)
    requires
        old(cursor).wf(),
    ensures
        b == (old(cursor).head() is Some && is_alphanumeric_char(old(cursor).head()->0)),
        final(cursor).text == old(cursor).text,
        final(cursor).pos == old(cursor).pos + old(cursor).step(),
{
    match cursor.next() {
        Some(c) => c.is_alphanumeric(),
        None => false,
    }
}

/// Takes the next character, if one is left, and says whether it is one of
/// `group`.
pub fn match_group(cursor: &mut Cursor, group: &Vec<char>) -> (b: bool)
    requires
        old(cursor).wf(),
    ensures
        b == (old(cursor).head() is Some && group@.contains(old(cursor).head()->0)),
        final(cursor).text == old(cursor).text,
        final(cursor).pos == old(cursor).pos + old(cursor).step(),
{
    match cursor.next() {
        Some(c) => is_member(group, c),
        None => false,
    }
}

/// Matches `patterns`, one node after the other, from the cursor on. When
/// all of them match, the cursor stands behind what they took; when one
/// fails, the cursor is back where it started.
pub fn match_pattern_from(cursor: &mut Cursor, patterns: &Vec<Pattern>) -> (matched: bool)
    requires
        old(cursor).wf(),
    ensures
        matched == (match_nodes(nodes_of(patterns@), 0, old(cursor).text@, old(cursor).pos as int)
            is Some),
        matched ==> final(cursor).pos as int == match_nodes(
            nodes_of(patterns@),
            0,
            old(cursor).text@,
            old(cursor).pos as int,
        )->0,
        !matched ==> final(cursor).pos == old(cursor).pos,
        final(cursor).text == old(cursor).text,
        final(cursor).wf(),
    decreases patterns,
{
    let start = *cursor;
    let ghost nodes = nodes_of(patterns@);
    let ghost text = start.text@;
    let mut i: usize = 0;
    while i < patterns.len()
        invariant
            i <= patterns.len(),
            nodes == nodes_of(patterns@),
            text == start.text@,
            start == *old(cursor),
            start.wf(),
            cursor.wf(),
            cursor.text == start.text,
            match_nodes(nodes, 0, text, start.pos as int) == match_nodes(
                nodes,
                i as int,
                text,
                cursor.pos as int,
            ),
        decreases patterns.len() - i,
    {
        let ghost here = cursor.pos as int;
        assert(nodes[i as int] == node_of(patterns@[i as int]));
        let ok = match &patterns[i] {
            Pattern::Literal(l) => match_literal(cursor, *l),
            Pattern::Digit => match_digit(cursor),
            Pattern::Alphanumeric => match_alphanumeric(cursor),
            Pattern::Group(positive, group) => {
                if cursor.at_end() {
                    false
                } else {
                    match_group(cursor, group) == *positive
                }
            },
            Pattern::End => cursor.at_end(),
            Pattern::Plus(l) => {
                let mut seen = false;
                while cursor.at(*l)
                    invariant
                        cursor.wf(),
                        cursor.text == start.text,
                        text == start.text@,
                        here <= cursor.pos,
                        seen == (cursor.pos > here),
                        run_length(text, here, *l) == (cursor.pos - here) + run_length(
                            text,
                            cursor.pos as int,
                            *l,
                        ),
                    decreases cursor.text@.len() - cursor.pos,
                {
                    cursor.next();
                    seen = true;
                }
                seen
            },
            Pattern::Optional(l) => {
                if cursor.at(*l) {
                    cursor.next();
                }
                true
            },
            Pattern::Wildcard => cursor.next().is_some(),
            Pattern::Or(sub_patterns) | Pattern::BackRef(sub_patterns) => {
                let ghost branches = branches_of(sub_patterns@);
                let mut matched = false;
                let mut j: usize = 0;
                while j < sub_patterns.len() && !matched
                    invariant
                        j <= sub_patterns.len(),
                        branches == branches_of(sub_patterns@),
                        cursor.wf(),
                        cursor.text == start.text,
                        text == start.text@,
                        !matched ==> cursor.pos == here,
                        !matched ==> match_branches(branches, 0, text, here) == match_branches(
                            branches,
                            j as int,
                            text,
                            here,
                        ),
                        matched ==> match_branches(branches, 0, text, here) == Some(
                            cursor.pos as int,
                        ),
                        decreases_to!(patterns => sub_patterns),
                    decreases sub_patterns.len() - j,
                {
                    assert(branches[j as int] == nodes_of(sub_patterns@[j as int]@));
                    if match_pattern_from(cursor, &sub_patterns[j]) {
                        matched = true;
                    }
                    j += 1;
                }
                matched
            },
        };
        assert(ok == (match_node(nodes[i as int], text, here) is Some));
        assert(ok ==> cursor.pos as int == match_node(nodes[i as int], text, here)->0);
        if !ok {
            *cursor = start;
            return false;
        }
        i += 1;
    }
    true
}

} // verus!
