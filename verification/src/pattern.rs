//! The compiled form of a pattern and its mathematical model.

use vstd::prelude::*;

verus! {

/// The mathematical model of one node of a compiled pattern: what the
/// contracts speak of.
pub enum Node {
    /// Exactly this character.
    Literal(char),
    /// One decimal digit.
    Digit,
    /// One alphanumeric character.
    Alphanumeric,
    /// One character whose membership in the listed characters equals the flag.
    Group(bool, Seq<char>),
    /// The end of the text.
    End,
    /// One or more of this character, as many as there are.
    Plus(char),
    /// This character once, if it is there.
    Optional(char),
    /// Any one character.
    Wildcard,
    /// The first branch that matches.
    Or(Seq<Seq<Node>>),
    /// The branches of an earlier group, tried again.
    BackRef(Seq<Seq<Node>>),
}

/// One node of a compiled pattern.
#[derive(Debug, PartialEq, Eq)]
pub enum Pattern {
    /// Exactly this character.
    Literal(char),
    /// One decimal digit.
    Digit,
    /// One alphanumeric character.
    Alphanumeric,
    /// One character whose membership in the listed characters equals the flag.
    Group(bool, Vec<char>),
    /// The end of the text.
    End,
    /// One or more of this character, as many as there are.
    Plus(char),
    /// This character once, if it is there.
    Optional(char),
    /// Any one character.
    Wildcard,
    /// The first branch that matches.
    Or(Vec<Vec<Pattern>>),
    /// The branches of an earlier group, tried again.
    BackRef(Vec<Vec<Pattern>>),
}

/// The model of a sequence of nodes.
pub open spec fn nodes_of(patterns: Seq<Pattern>) -> Seq<Node>
    decreases patterns,
{
    Seq::new(
        patterns.len(),
        |i: int|
            if 0 <= i < patterns.len() {
                node_of(patterns[i])
            } else {
                Node::End
            },
    )
}

/// The model of a list of branches.
pub open spec fn branches_of(branches: Seq<Vec<Pattern>>) -> Seq<Seq<Node>>
    decreases branches,
{
    Seq::new(
        branches.len(),
        |j: int|
            if 0 <= j < branches.len() {
                nodes_of(branches[j]@)
            } else {
                Seq::empty()
            },
    )
}

/// The model of one node.
pub open spec fn node_of(p: Pattern) -> Node
    decreases p,
{
    match p {
        Pattern::Literal(c) => Node::Literal(c),
        Pattern::Digit => Node::Digit,
        Pattern::Alphanumeric => Node::Alphanumeric,
        Pattern::Group(positive, members) => Node::Group(positive, members@),
        Pattern::End => Node::End,
        Pattern::Plus(c) => Node::Plus(c),
        Pattern::Optional(c) => Node::Optional(c),
        Pattern::Wildcard => Node::Wildcard,
        Pattern::Or(branches) => Node::Or(branches_of(branches@)),
        Pattern::BackRef(branches) => Node::BackRef(branches_of(branches@)),
    }
}

impl View for Pattern {
    type V = Node;

    open spec fn view(&self) -> Node {
        node_of(*self)
    }
}

/// Adding a node to a sequence adds its model to the sequence's model.
pub proof fn lemma_nodes_of_push(patterns: Seq<Pattern>, p: Pattern)
    ensures
        nodes_of(patterns.push(p)) == nodes_of(patterns).push(node_of(p)),
{
    assert(nodes_of(patterns.push(p)) =~= nodes_of(patterns).push(node_of(p)));
}

/// Adding a branch to a list adds its model to the list's model.
pub proof fn lemma_branches_of_push(branches: Seq<Vec<Pattern>>, b: Vec<Pattern>)
    ensures
        branches_of(branches.push(b)) == branches_of(branches).push(nodes_of(b@)),
{
    assert(branches_of(branches.push(b)) =~= branches_of(branches).push(nodes_of(b@)));
}

/// A copy of `members`.
fn copy_members(members: &Vec<char>) -> (copy: Vec<char>)
    ensures
        copy@ == members@,
{
    let mut copy: Vec<char> = Vec::new();
    let mut i: usize = 0;
    while i < members.len()
        invariant
            i <= members.len(),
            copy@ == members@.subrange(0, i as int),
        decreases members.len() - i,
    {
        copy.push(members[i]);
        assert(copy@ =~= members@.subrange(0, i + 1));
        i += 1;
    }
    assert(copy@ =~= members@);
    copy
}

/// A copy of `branches` with the same model.
pub fn copy_branches(branches: &Vec<Vec<Pattern>>) -> (copy: Vec<Vec<Pattern>>)
    ensures
        branches_of(copy@) == branches_of(branches@),
    decreases branches,
{
    let mut copy: Vec<Vec<Pattern>> = Vec::new();
    let mut j: usize = 0;
    while j < branches.len()
        invariant
            j <= branches.len(),
            branches_of(copy@) == branches_of(branches@.subrange(0, j as int)),
        decreases branches.len() - j,
    {
        let branch = copy_nodes(&branches[j]);
        proof {
            lemma_branches_of_push(copy@, branch);
            lemma_branches_of_push(branches@.subrange(0, j as int), branches@[j as int]);
            assert(branches@.subrange(0, j as int).push(branches@[j as int])
                =~= branches@.subrange(0, j + 1));
        }
        copy.push(branch);
        j += 1;
    }
    assert(branches@.subrange(0, j as int) =~= branches@);
    copy
}

/// A copy of `p` with the same model.
pub fn copy_node(p: &Pattern) -> (copy: Pattern)
    ensures
        node_of(copy) == node_of(*p),
    decreases p,
{
    match p {
        Pattern::Literal(c) => Pattern::Literal(*c),
        Pattern::Digit => Pattern::Digit,
        Pattern::Alphanumeric => Pattern::Alphanumeric,
        Pattern::Group(positive, members) => Pattern::Group(*positive, copy_members(members)),
        Pattern::End => Pattern::End,
        Pattern::Plus(c) => Pattern::Plus(*c),
        Pattern::Optional(c) => Pattern::Optional(*c),
        Pattern::Wildcard => Pattern::Wildcard,
        Pattern::Or(branches) => Pattern::Or(copy_branches(branches)),
        Pattern::BackRef(branches) => Pattern::BackRef(copy_branches(branches)),
    }
}

/// A copy of `patterns` with the same model.
pub fn copy_nodes(patterns: &Vec<Pattern>) -> (copy: Vec<Pattern>)
    ensures
        nodes_of(copy@) == nodes_of(patterns@),
    decreases patterns,
{
    let mut copy: Vec<Pattern> = Vec::new();
    let mut i: usize = 0;
    while i < patterns.len()
        invariant
            i <= patterns.len(),
            nodes_of(copy@) == nodes_of(patterns@.subrange(0, i as int)),
        decreases patterns.len() - i,
    {
        let node = copy_node(&patterns[i]);
        proof {
            lemma_nodes_of_push(copy@, node);
            lemma_nodes_of_push(patterns@.subrange(0, i as int), patterns@[i as int]);
            assert(patterns@.subrange(0, i as int).push(patterns@[i as int])
                =~= patterns@.subrange(0, i + 1));
        }
        copy.push(node);
        i += 1;
    }
    assert(patterns@.subrange(0, i as int) =~= patterns@);
    copy
}

impl Clone for Pattern {
    fn clone(&self) -> (copy: Self)
        ensures
            copy@ == self@,
    {
        copy_node(self)
    }
}

} // verus!
