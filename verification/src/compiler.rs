//! The pattern compiler: the syntax of patterns, and the functions that turn
//! pattern text into a tree of nodes.
//!
//! The syntax is `\d`, `\w`, `\\`, a back reference `\N` with one decimal
//! digit, a set `[..]` or `[^..]`, `$`, `.`, a group `(..|..)`, and a
//! character on its own or followed by `+` or `?`. A backslash makes the
//! character behind it inert where the end of a set, the end of a group or a
//! `|` between branches is looked for. A set that is never closed takes all
//! that is left of the pattern as its members. A group that is never closed
//! is refused, as is a backslash with nothing behind it.
//!
//! Groups are numbered from one, in the order in which they open. A back
//! reference `\N` written inside `d` open groups means group `N - d` of the
//! nodes compiled so far in the branch that holds it, the groups inside a
//! group counted too. It holds a copy of that group's branches, so it matches
//! what the group's pattern matches, not the text that the group took.

use vstd::prelude::*;
use crate::cursor::Cursor;
use crate::pattern::{Node, Pattern, nodes_of, branches_of, node_of, copy_branches};
use crate::pattern::{lemma_nodes_of_push, lemma_branches_of_push};
use crate::text::{is_decimal_digit, is_digit, lemma_char_is_scalar_value};
use vstd::slice::slice_subrange;

verus! {

/// Why a pattern was refused.
#[derive(Clone, Copy, Debug, PartialEq, Eq, Structural)]
pub enum CompileError {
    /// A backslash is the last character.
    IncompleteEscape,
    /// A backslash stands before a character that it cannot escape.
    UnknownEscape,
    /// A back reference names no group that can be referred to.
    InvalidBackReference,
    /// A `(` has no `)` of its own.
    UnterminatedGroup,
    /// More groups are open than can be counted.
    TooDeep,
}

impl CompileError {
    /// What is said of this refusal.
    pub open spec fn words(self) -> Seq<char> {
        match self {
            CompileError::IncompleteEscape => "Incomplete special character"@,
            CompileError::UnknownEscape => "Unknown special character"@,
            CompileError::InvalidBackReference => "Invalid back reference"@,
            CompileError::UnterminatedGroup => "Unmatched '('"@,
            CompileError::TooDeep => "Too many open groups"@,
        }
    }

    /// What is said of this refusal.
    pub fn message(&self) -> (words: &'static str)
        ensures
            words@ == self.words(),
    {
        match self {
            CompileError::IncompleteEscape => "Incomplete special character",
            CompileError::UnknownEscape => "Unknown special character",
            CompileError::InvalidBackReference => "Invalid back reference",
            CompileError::UnterminatedGroup => "Unmatched '('",
            CompileError::TooDeep => "Too many open groups",
        }
    }
}

/// The largest count of open groups.
pub open spec fn max_open() -> int {
    u32::MAX as int
}

/// The index of the `]` that closes a set whose members begin at `at`, or
/// the length of `pattern` if none does.
pub open spec fn set_end(pattern: Seq<char>, at: int) -> int
    decreases pattern.len() - at,
{
    if at < 0 || at >= pattern.len() {
        pattern.len() as int
    } else if pattern[at] == ']' {
        at
    } else if pattern[at] == '\\' && at + 1 < pattern.len() {
        set_end(pattern, at + 2)
    } else {
        set_end(pattern, at + 1)
    }
}

/// The index of the `)` that closes a group, seen from `at` inside it with
/// `depth` further groups open, or the length of `pattern` if none does.
pub open spec fn group_end(pattern: Seq<char>, at: int, depth: nat) -> int
    decreases pattern.len() - at,
{
    if at < 0 || at >= pattern.len() {
        pattern.len() as int
    } else if pattern[at] == '\\' && at + 1 < pattern.len() {
        group_end(pattern, at + 2, depth)
    } else if pattern[at] == '(' {
        group_end(pattern, at + 1, depth + 1)
    } else if pattern[at] == ')' {
        if depth == 0 {
            at
        } else {
            group_end(pattern, at + 1, (depth - 1) as nat)
        }
    } else {
        group_end(pattern, at + 1, depth)
    }
}

/// The index of the first `|` at or behind `at` that separates two branches
/// of `inner`, `depth` groups being open at `at`; the length of `inner` if
/// there is none.
pub open spec fn branch_end(inner: Seq<char>, at: int, depth: nat) -> int
    decreases inner.len() - at,
{
    if at < 0 || at >= inner.len() {
        inner.len() as int
    } else if inner[at] == '\\' && at + 1 < inner.len() {
        branch_end(inner, at + 2, depth)
    } else if inner[at] == '(' {
        branch_end(inner, at + 1, depth + 1)
    } else if inner[at] == ')' {
        branch_end(
            inner,
            at + 1,
            if depth == 0 {
                0
            } else {
                (depth - 1) as nat
            },
        )
    } else if inner[at] == '|' && depth == 0 {
        at
    } else {
        branch_end(inner, at + 1, depth)
    }
}

/// A set's end lies at or behind where its members begin.
pub proof fn lemma_set_end_bounds(pattern: Seq<char>, at: int)
    requires
        0 <= at <= pattern.len(),
    ensures
        at <= set_end(pattern, at) <= pattern.len(),
    decreases pattern.len() - at,
{
    if at < pattern.len() && pattern[at] != ']' {
        if pattern[at] == '\\' && at + 1 < pattern.len() {
            lemma_set_end_bounds(pattern, at + 2);
        } else {
            lemma_set_end_bounds(pattern, at + 1);
        }
    }
}

/// A group's end lies at or behind where it is looked for.
pub proof fn lemma_group_end_bounds(pattern: Seq<char>, at: int, depth: nat)
    requires
        0 <= at <= pattern.len(),
    ensures
        at <= group_end(pattern, at, depth) <= pattern.len(),
    decreases pattern.len() - at,
{
    if at < pattern.len() {
        if pattern[at] == '\\' && at + 1 < pattern.len() {
            lemma_group_end_bounds(pattern, at + 2, depth);
        } else if pattern[at] == '(' {
            lemma_group_end_bounds(pattern, at + 1, depth + 1);
        } else if pattern[at] == ')' {
            if depth > 0 {
                lemma_group_end_bounds(pattern, at + 1, (depth - 1) as nat);
            }
        } else {
            lemma_group_end_bounds(pattern, at + 1, depth);
        }
    }
}

/// A branch's end lies at or behind where it is looked for.
pub proof fn lemma_branch_end_bounds(inner: Seq<char>, at: int, depth: nat)
    requires
        0 <= at <= inner.len(),
    ensures
        at <= branch_end(inner, at, depth) <= inner.len(),
    decreases inner.len() - at,
{
    if at < inner.len() {
        if inner[at] == '\\' && at + 1 < inner.len() {
            lemma_branch_end_bounds(inner, at + 2, depth);
        } else if inner[at] == '(' {
            lemma_branch_end_bounds(inner, at + 1, depth + 1);
        } else if inner[at] == ')' {
            lemma_branch_end_bounds(
                inner,
                at + 1,
                if depth == 0 {
                    0
                } else {
                    (depth - 1) as nat
                },
            );
        } else if inner[at] == '|' && depth == 0 {
        } else {
            lemma_branch_end_bounds(inner, at + 1, depth);
        }
    }
}

/// Where the members of a set begin whose `[` stands just before `at`:
/// behind the `^`, if there is one.
pub open spec fn set_start(pattern: Seq<char>, at: int) -> int {
    if 0 <= at < pattern.len() && pattern[at] == '^' {
        at + 1
    } else {
        at
    }
}

/// The set whose `[` stands just before `at`: `false` if it begins with `^`
/// and `true` if not, its members, and the index behind its `]`. A set
/// without a `]` takes the rest of the pattern.
pub open spec fn set_at(pattern: Seq<char>, at: int) -> (bool, Seq<char>, int) {
    let first = set_start(pattern, at);
    let close = set_end(pattern, first);
    if close >= pattern.len() {
        (first == at, pattern.subrange(first, pattern.len() as int), pattern.len() as int)
    } else {
        (first == at, pattern.subrange(first, close), close + 1)
    }
}

/// The branches of the `k`-th group in `nodes[from..]`, each group counted
/// before its branches are entered; or how many of `k` are left when the
/// nodes run out. No group is the `k`-th for a `k` below one.
pub open spec fn nth_group(nodes: Seq<Node>, from: int, k: int) -> Result<Seq<Seq<Node>>, int>
    decreases nodes, nodes.len() - from,
{
    if k <= 0 || from < 0 || from >= nodes.len() {
        Err(k)
    } else {
        match nodes[from] {
            Node::Or(branches) => if k == 1 {
                Ok(branches)
            } else {
                match nth_group_in(branches, 0, k - 1) {
                    Ok(inside) => Ok(inside),
                    Err(left) => nth_group(nodes, from + 1, left),
                }
            },
            _ => nth_group(nodes, from + 1, k),
        }
    }
}

/// The branches of the `k`-th group in `branches[from..]`, the branches
/// walked one after the other; or how many of `k` are left behind the last.
pub open spec fn nth_group_in(branches: Seq<Seq<Node>>, from: int, k: int) -> Result<
    Seq<Seq<Node>>,
    int,
>
    decreases branches, branches.len() - from,
{
    if k <= 0 || from < 0 || from >= branches.len() {
        Err(k)
    } else {
        match nth_group(branches[from], 0, k) {
            Ok(inside) => Ok(inside),
            Err(left) => nth_group_in(branches, from + 1, left),
        }
    }
}

/// The number that the digit `c` stands for.
pub open spec fn digit_value(c: char) -> int {
    c as int - '0' as int
}

/// The nodes of `pattern[at..]`, added to `built`, `ors` groups being open
/// around them; or why the pattern is refused.
pub open spec fn compile_from(pattern: Seq<char>, at: int, built: Seq<Node>, ors: int) -> Result<
    Seq<Node>,
    CompileError,
>
    decreases pattern.len(), 0int, pattern.len() - at,
{
    if at < 0 || at >= pattern.len() {
        Ok(built)
    } else if pattern[at] == '\\' {
        if at + 1 >= pattern.len() {
            Err(CompileError::IncompleteEscape)
        } else if pattern[at + 1] == 'd' {
            compile_from(pattern, at + 2, built.push(Node::Digit), ors)
        } else if pattern[at + 1] == 'w' {
            compile_from(pattern, at + 2, built.push(Node::Alphanumeric), ors)
        } else if pattern[at + 1] == '\\' {
            compile_from(pattern, at + 2, built.push(Node::Literal('\\')), ors)
        } else if is_decimal_digit(pattern[at + 1]) {
            match nth_group(built, 0, digit_value(pattern[at + 1]) - ors) {
                Ok(branches) => compile_from(
                    pattern,
                    at + 2,
                    built.push(Node::BackRef(branches)),
                    ors,
                ),
                Err(_) => Err(CompileError::InvalidBackReference),
            }
        } else {
            Err(CompileError::UnknownEscape)
        }
    } else if pattern[at] == '[' {
        let (positive, members, next) = set_at(pattern, at + 1);
        proof {
            lemma_set_end_bounds(pattern, set_start(pattern, at + 1));
        }
        compile_from(pattern, next, built.push(Node::Group(positive, members)), ors)
    } else if pattern[at] == '$' {
        compile_from(pattern, at + 1, built.push(Node::End), ors)
    } else if pattern[at] == '.' {
        compile_from(pattern, at + 1, built.push(Node::Wildcard), ors)
    } else if pattern[at] == '(' {
        let close = group_end(pattern, at + 1, 0);
        if close >= pattern.len() {
            Err(CompileError::UnterminatedGroup)
        } else if ors + 1 > max_open() {
            Err(CompileError::TooDeep)
        } else {
            proof {
                lemma_group_end_bounds(pattern, at + 1, 0);
            }
            match compile_branches(pattern.subrange(at + 1, close), 0, Seq::empty(), ors + 1) {
                Err(e) => Err(e),
                Ok(branches) => compile_from(pattern, close + 1, built.push(Node::Or(branches)), ors),
            }
        }
    } else if at + 1 < pattern.len() && pattern[at + 1] == '+' {
        compile_from(pattern, at + 2, built.push(Node::Plus(pattern[at])), ors)
    } else if at + 1 < pattern.len() && pattern[at + 1] == '?' {
        compile_from(pattern, at + 2, built.push(Node::Optional(pattern[at])), ors)
    } else {
        compile_from(pattern, at + 1, built.push(Node::Literal(pattern[at])), ors)
    }
}

/// The branches of `inner[lo..]`, each compiled on its own and added to
/// `done`, `ors` groups being open around them.
pub open spec fn compile_branches(
    inner: Seq<char>,
    lo: int,
    done: Seq<Seq<Node>>,
    ors: int,
) -> Result<Seq<Seq<Node>>, CompileError>
    decreases inner.len(), 1int, inner.len() - lo,
{
    if lo < 0 || lo > inner.len() {
        Ok(done)
    } else {
        let cut = branch_end(inner, lo, 0);
        proof {
            lemma_branch_end_bounds(inner, lo, 0);
        }
        match compile_from(inner.subrange(lo, cut), 0, Seq::empty(), ors) {
            Err(e) => Err(e),
            Ok(nodes) => if cut >= inner.len() {
                Ok(done.push(nodes))
            } else {
                compile_branches(inner, cut + 1, done.push(nodes), ors)
            },
        }
    }
}

/// The nodes that `pattern` compiles to, `ors` groups being open around it;
/// or why `pattern` is refused.
pub open spec fn compile(pattern: Seq<char>, ors: int) -> Result<Seq<Node>, CompileError> {
    compile_from(pattern, 0, Seq::empty(), ors)
}

/// Reads a set whose `[` has just been taken: an optional `^`, then the
/// members up to the closing `]`, or to the end of the pattern if the set is
/// never closed. Gives `false` for a set with `^` and `true` for one
/// without, and the members. The cursor ends behind the `]`, or at the end.
pub fn build_group(it: &mut Cursor) -> (set: (bool, Vec<char>))
    requires
        old(it).wf(),
    ensures
        final(it).text == old(it).text,
        final(it).wf(),
        set.0 == set_at(old(it).text@, old(it).pos as int).0,
        set.1@ == set_at(old(it).text@, old(it).pos as int).1,
        final(it).pos == set_at(old(it).text@, old(it).pos as int).2,
{
    let ghost start = *it;
    let ghost text = it.text@;
    let mut group: Vec<char> = Vec::new();
    let mut positive = true;
    if it.at('^') {
        positive = false;
        it.next();
    }
    let ghost first = it.pos as int;
    proof {
        lemma_set_end_bounds(text, first);
    }
    loop
        invariant
            start == *old(it),
            text == start.text@,
            it.text == start.text,
            it.wf(),
            first == set_start(text, start.pos as int),
            first <= it.pos,
            set_end(text, first) <= text.len(),
            set_end(text, first) == set_end(text, it.pos as int),
            group@ == text.subrange(first, it.pos as int),
            positive == (first == start.pos),
        decreases text.len() - it.pos,
    {
        let ghost here = it.pos as int;
        match it.next() {
            None => {
                return (positive, group);
            },
            Some(member) => {
                if member == ']' {
                    return (positive, group);
                }
                group.push(member);
                assert(group@ =~= text.subrange(first, here + 1));
                if member == '\\' {
                    match it.next() {
                        None => {},
                        Some(escaped) => {
                            group.push(escaped);
                            assert(group@ =~= text.subrange(first, here + 2));
                        },
                    }
                }
            },
        }
    }
}

/// The index of the `)` that closes the group whose inside begins at `at`,
/// or the length of `pattern` if the group is never closed.
pub fn find_group_end(pattern: &[char], at: usize) -> (close: usize)
    requires
        at <= pattern@.len(),
    ensures
        close == group_end(pattern@, at as int, 0),
        at <= close <= pattern@.len(),
{
    let mut i: usize = at;
    let mut depth: usize = 0;
    proof {
        lemma_group_end_bounds(pattern@, at as int, 0);
    }
    while i < pattern.len()
        invariant
            at <= i <= pattern@.len(),
            depth <= i - at,
            group_end(pattern@, at as int, 0) == group_end(pattern@, i as int, depth as nat),
        decreases pattern@.len() - i,
    {
        let c = pattern[i];
        if c == '\\' && i + 1 < pattern.len() {
            i += 2;
        } else if c == '(' {
            depth += 1;
            i += 1;
        } else if c == ')' {
            if depth == 0 {
                return i;
            }
            depth -= 1;
            i += 1;
        } else {
            i += 1;
        }
    }
    i
}

/// The index of the first `|` at or behind `at` that separates two branches
/// of `inner`, or the length of `inner` if there is none.
pub fn find_branch_end(inner: &[char], at: usize) -> (cut: usize)
    requires
        at <= inner@.len(),
    ensures
        cut == branch_end(inner@, at as int, 0),
        at <= cut <= inner@.len(),
{
    let mut i: usize = at;
    let mut depth: usize = 0;
    proof {
        lemma_branch_end_bounds(inner@, at as int, 0);
    }
    while i < inner.len()
        invariant
            at <= i <= inner@.len(),
            depth <= i - at,
            branch_end(inner@, at as int, 0) == branch_end(inner@, i as int, depth as nat),
        decreases inner@.len() - i,
    {
        let c = inner[i];
        if c == '\\' && i + 1 < inner.len() {
            i += 2;
        } else if c == '(' {
            depth += 1;
            i += 1;
        } else if c == ')' {
            if depth > 0 {
                depth -= 1;
            }
            i += 1;
        } else if c == '|' && depth == 0 {
            return i;
        } else {
            i += 1;
        }
    }
    i
}

/// The model of what a search gives back.
pub open spec fn found_of(found: Option<Vec<Vec<Pattern>>>) -> Option<Seq<Seq<Node>>> {
    match found {
        Some(branches) => Some(branches_of(branches@)),
        None => None,
    }
}

/// Looks in `patterns` for the group that a back reference means:
/// `back_ref` is the reference's number and `ors` the count of open groups,
/// so the group is number `back_ref - ors` of `patterns`, as `nth_group`
/// counts. Gives a copy of the group's branches, or `None` if `patterns`
/// hold no such group. Every group met takes one from `back_ref`: it comes
/// back as `ors` and what is left of the number. `ors` stays as it is.
pub fn find_or(patterns: &Vec<Pattern>, back_ref: &mut u32, ors: &mut u32) -> (found: Option<
    Vec<Vec<Pattern>>,
>)
    ensures
        *final(ors) == *old(ors),
        match nth_group(nodes_of(patterns@), 0, *old(back_ref) - *old(ors)) {
            Ok(branches) => found_of(found) == Some(branches) && *final(back_ref) == *old(ors),
            Err(left) => found is None && *final(back_ref) == *old(ors) + left,
        },
        found is None && *old(back_ref) > *old(ors) ==> *final(back_ref) > *old(ors),
    decreases patterns,
{
    if *back_ref <= *ors {
        return None;
    }
    let ghost nodes = nodes_of(patterns@);
    let ghost whole = nth_group(nodes, 0, *back_ref - *ors);
    let mut i: usize = 0;
    while i < patterns.len()
        invariant
            i <= patterns.len(),
            nodes == nodes_of(patterns@),
            *ors == *old(ors),
            *back_ref > *ors,
            whole == nth_group(nodes, 0, *old(back_ref) - *old(ors)),
            whole == nth_group(nodes, i as int, *back_ref - *ors),
        decreases patterns.len() - i,
    {
        assert(nodes[i as int] == node_of(patterns@[i as int]));
        match &patterns[i] {
            Pattern::Or(sub_patterns) => {
                let ghost branches = branches_of(sub_patterns@);
                *back_ref -= 1;
                if *back_ref == *ors {
                    return Some(copy_branches(sub_patterns));
                }
                let ghost deep = nth_group_in(branches, 0, *back_ref - *ors);
                assert(whole == match deep {
                    Ok(inside) => Ok(inside),
                    Err(left) => nth_group(nodes, i + 1, left),
                });
                let mut j: usize = 0;
                while j < sub_patterns.len()
                    invariant
                        j <= sub_patterns.len(),
                        i < patterns.len(),
                        branches == branches_of(sub_patterns@),
                        nodes == nodes_of(patterns@),
                        *ors == *old(ors),
                        *back_ref > *ors,
                        decreases_to!(patterns => sub_patterns),
                        whole == nth_group(nodes, 0, *old(back_ref) - *old(ors)),
                        whole == match deep {
                            Ok(inside) => Ok(inside),
                            Err(left) => nth_group(nodes, i + 1, left),
                        },
                        deep == nth_group_in(branches, j as int, *back_ref - *ors),
                    decreases sub_patterns.len() - j,
                {
                    assert(branches[j as int] == nodes_of(sub_patterns@[j as int]@));
                    match find_or(&sub_patterns[j], back_ref, ors) {
                        Some(inside) => {
                            return Some(inside);
                        },
                        None => {},
                    }
                    j += 1;
                }
            },
            _ => {},
        }
        i += 1;
    }
    None
}

/// Whether `outcome` and `after` are what compiling `pattern` gives, `before`
/// groups being open around it: the nodes of `compile` or its refusal, and
/// the count of open groups as it was.
pub open spec fn is_compilation(
    pattern: Seq<char>,
    before: u32,
    outcome: Result<Vec<Pattern>, CompileError>,
    after: u32,
) -> bool {
    after == before && match compile(pattern, before as int) {
        Ok(nodes) => outcome is Ok && nodes_of(outcome->Ok_0@) == nodes,
        Err(e) => outcome == Err::<Vec<Pattern>, CompileError>(e),
    }
}

/// Compiles `pattern` into its nodes. `ors` counts the groups that are open
/// around `pattern`: it is raised while the branches of a group are
/// compiled, and comes back as it was.
pub fn build_patterrns(pattern: &[char], ors: &mut u32) -> (compiled: Result<
    Vec<Pattern>,
    CompileError,
>)
    ensures
        is_compilation(pattern@, *old(ors), compiled, *final(ors)),
    decreases pattern@.len(),
{
    let ghost text = pattern@;
    let ghost whole = compile(text, *ors as int);
    let mut it = Cursor::new(pattern, 0);
    let mut patterns: Vec<Pattern> = Vec::new();
    assert(nodes_of(patterns@) =~= Seq::empty());
    loop
        invariant
            *ors == *old(ors),
            text == pattern@,
            it.text == pattern,
            it.wf(),
            whole == compile(text, *ors as int),
            whole == compile_from(text, it.pos as int, nodes_of(patterns@), *ors as int),
        decreases text.len() - it.pos,
    {
        let ghost at = it.pos as int;
        let ghost built = nodes_of(patterns@);
        let curr = match it.next() {
            None => {
                return Ok(patterns);
            },
            Some(c) => c,
        };
        proof {
            lemma_char_is_scalar_value(curr);
        }
        let node = if curr == '\\' {
            let special = match it.next() {
                None => {
                    return Err(CompileError::IncompleteEscape);
                },
                Some(c) => c,
            };
            if special == 'd' {
                Pattern::Digit
            } else if special == 'w' {
                Pattern::Alphanumeric
            } else if special == '\\' {
                Pattern::Literal('\\')
            } else if is_digit(special) {
                let mut back_ref: u32 = special as u32 - 0x30;
                assert(back_ref as int == digit_value(special));
                match find_or(&patterns, &mut back_ref, ors) {
                    Some(branches) => Pattern::BackRef(branches),
                    None => {
                        return Err(CompileError::InvalidBackReference);
                    },
                }
            } else {
                return Err(CompileError::UnknownEscape);
            }
        } else if curr == '[' {
            proof {
                lemma_set_end_bounds(text, set_start(text, at + 1));
            }
            let (positive, group) = build_group(&mut it);
            Pattern::Group(positive, group)
        } else if curr == '$' {
            Pattern::End
        } else if curr == '.' {
            Pattern::Wildcard
        } else if curr == '(' {
            let close = find_group_end(pattern, it.pos);
            if close >= pattern.len() {
                return Err(CompileError::UnterminatedGroup);
            }
            if *ors == u32::MAX {
                return Err(CompileError::TooDeep);
            }
            let sub_pattern = slice_subrange(pattern, it.pos, close);
            it = Cursor::new(pattern, close + 1);
            let ghost inner = sub_pattern@;
            let mut or_patterns: Vec<Vec<Pattern>> = Vec::new();
            assert(branches_of(or_patterns@) =~= Seq::empty());
            *ors += 1;
            let ghost inside = compile_branches(inner, 0, Seq::empty(), *ors as int);
            assert(whole == match inside {
                Err(e) => Err(e),
                Ok(branches) => compile_from(
                    text,
                    close + 1,
                    built.push(Node::Or(branches)),
                    *ors - 1,
                ),
            });
            let mut lo: usize = 0;
            loop
                invariant_except_break
                    lo <= inner.len(),
                    inside == compile_branches(
                        inner,
                        lo as int,
                        branches_of(or_patterns@),
                        *ors as int,
                    ),
                invariant
                    *ors == *old(ors) + 1,
                    inner == sub_pattern@,
                    inner.len() < text.len(),
                    text == pattern@,
                    it.text == pattern,
                    it.wf(),
                    it.pos == close + 1,
                    at < it.pos,
                    built == nodes_of(patterns@),
                    whole == compile(text, *old(ors) as int),
                    whole == match inside {
                        Err(e) => Err(e),
                        Ok(branches) => compile_from(
                            text,
                            close + 1,
                            built.push(Node::Or(branches)),
                            *old(ors) as int,
                        ),
                    },
                ensures
                    inside == Ok::<Seq<Seq<Node>>, CompileError>(branches_of(or_patterns@)),
                decreases inner.len() - lo,
            {
                let cut = find_branch_end(sub_pattern, lo);
                let sub = slice_subrange(sub_pattern, lo, cut);
                match build_patterrns(sub, ors) {
                    Err(e) => {
                        *ors -= 1;
                        return Err(e);
                    },
                    Ok(branch) => {
                        proof {
                            lemma_branches_of_push(or_patterns@, branch);
                        }
                        or_patterns.push(branch);
                    },
                }
                if cut >= sub_pattern.len() {
                    break ;
                }
                lo = cut + 1;
            }
            *ors -= 1;
            Pattern::Or(or_patterns)
        } else if it.at('+') {
            it.next();
            Pattern::Plus(curr)
        } else if it.at('?') {
            it.next();
            Pattern::Optional(curr)
        } else {
            Pattern::Literal(curr)
        };
        proof {
            lemma_nodes_of_push(patterns@, node);
        }
        patterns.push(node);
    }
}

} // verus!
