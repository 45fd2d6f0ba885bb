use vstd::bytes::{
    lemma_auto_spec_u64_to_from_le_bytes, spec_u64_from_le_bytes, spec_u64_to_le_bytes,
    u64_from_le_bytes, u64_to_le_bytes,
};
use vstd::prelude::*;
use vstd::slice::slice_subrange;

use crate::symbolic::dag::{
    are_expressions_of, is_dag_of, SymbolicExpressionDag, SymbolicExpressionNode,
};
use crate::symbolic::expression::SymbolicExpression;
use crate::symbolic::variable::{Entry, SymbolicVariable};

verus! {

/// The four words that stand for a node: the kind of node and up to three
/// numbers that the node holds, zero where it holds fewer.
pub open spec fn node_words(node: SymbolicExpressionNode) -> Seq<u64> {
    match node {
        SymbolicExpressionNode::Variable(v) => match v.entry {
            Entry::Preprocessed { offset } => seq![0u64, offset as u64, 0u64, v.index as u64],
            Entry::Main { part_index, offset } => seq![
                1u64,
                offset as u64,
                part_index as u64,
                v.index as u64,
            ],
            Entry::Public => seq![2u64, 0u64, 0u64, v.index as u64],
            Entry::Permutation { offset } => seq![3u64, offset as u64, 0u64, v.index as u64],
            Entry::Challenge => seq![4u64, 0u64, 0u64, v.index as u64],
            Entry::Exposed => seq![5u64, 0u64, 0u64, v.index as u64],
        },
        SymbolicExpressionNode::IsFirstRow => seq![6u64, 0u64, 0u64, 0u64],
        SymbolicExpressionNode::IsLastRow => seq![7u64, 0u64, 0u64, 0u64],
        SymbolicExpressionNode::IsTransition => seq![8u64, 0u64, 0u64, 0u64],
        SymbolicExpressionNode::Constant(c) => seq![9u64, c as u64, 0u64, 0u64],
        SymbolicExpressionNode::Add { left_idx, right_idx, degree_multiple } => seq![
            10u64,
            left_idx as u64,
            right_idx as u64,
            degree_multiple as u64,
        ],
        SymbolicExpressionNode::Sub { left_idx, right_idx, degree_multiple } => seq![
            11u64,
            left_idx as u64,
            right_idx as u64,
            degree_multiple as u64,
        ],
        SymbolicExpressionNode::Neg { idx, degree_multiple } => seq![
            12u64,
            idx as u64,
            0u64,
            degree_multiple as u64,
        ],
        SymbolicExpressionNode::Mul { left_idx, right_idx, degree_multiple } => seq![
            13u64,
            left_idx as u64,
            right_idx as u64,
            degree_multiple as u64,
        ],
    }
}

/// The node that four words stand for, if they stand for one: the kind
/// is known, the numbers fit the machine and the words that the kind
/// does not use are zero.
pub open spec fn words_node(tag: u64, a: u64, b: u64, c: u64) -> Option<SymbolicExpressionNode> {
    if a > usize::MAX || b > usize::MAX || c > usize::MAX {
        None
    } else if tag == 0 && b == 0 {
        Some(
            SymbolicExpressionNode::Variable(
                SymbolicVariable { entry: Entry::Preprocessed { offset: a as usize }, index: c as usize },
            ),
        )
    } else if tag == 1 {
        Some(
            SymbolicExpressionNode::Variable(
                SymbolicVariable {
                    entry: Entry::Main { part_index: b as usize, offset: a as usize },
                    index: c as usize,
                },
            ),
        )
    } else if tag == 2 && a == 0 && b == 0 {
        Some(
            SymbolicExpressionNode::Variable(
                SymbolicVariable { entry: Entry::Public, index: c as usize },
            ),
        )
    } else if tag == 3 && b == 0 {
        Some(
            SymbolicExpressionNode::Variable(
                SymbolicVariable { entry: Entry::Permutation { offset: a as usize }, index: c as usize },
            ),
        )
    } else if tag == 4 && a == 0 && b == 0 {
        Some(
            SymbolicExpressionNode::Variable(
                SymbolicVariable { entry: Entry::Challenge, index: c as usize },
            ),
        )
    } else if tag == 5 && a == 0 && b == 0 {
        Some(
            SymbolicExpressionNode::Variable(
                SymbolicVariable { entry: Entry::Exposed, index: c as usize },
            ),
        )
    } else if tag == 6 && a == 0 && b == 0 && c == 0 {
        Some(SymbolicExpressionNode::IsFirstRow)
    } else if tag == 7 && a == 0 && b == 0 && c == 0 {
        Some(SymbolicExpressionNode::IsLastRow)
    } else if tag == 8 && a == 0 && b == 0 && c == 0 {
        Some(SymbolicExpressionNode::IsTransition)
    } else if tag == 9 && a <= u32::MAX && b == 0 && c == 0 {
        Some(SymbolicExpressionNode::Constant(a as u32))
    } else if tag == 10 {
        Some(
            SymbolicExpressionNode::Add {
                left_idx: a as usize,
                right_idx: b as usize,
                degree_multiple: c as usize,
            },
        )
    } else if tag == 11 {
        Some(
            SymbolicExpressionNode::Sub {
                left_idx: a as usize,
                right_idx: b as usize,
                degree_multiple: c as usize,
            },
        )
    } else if tag == 12 && b == 0 {
        Some(SymbolicExpressionNode::Neg { idx: a as usize, degree_multiple: c as usize })
    } else if tag == 13 {
        Some(
            SymbolicExpressionNode::Mul {
                left_idx: a as usize,
                right_idx: b as usize,
                degree_multiple: c as usize,
            },
        )
    } else {
        None
    }
}

/// The words of a node stand for the node.
pub proof fn lemma_words_node_inverts(node: SymbolicExpressionNode)
    ensures
        node_words(node).len() == 4,
        words_node(
            node_words(node)[0],
            node_words(node)[1],
            node_words(node)[2],
            node_words(node)[3],
        ) == Some(node),
{
}

/// The words that stand for a DAG: the number of nodes, four words for
/// each node, the number of constraints, and the node of each constraint.
pub open spec fn dag_words(nodes: Seq<SymbolicExpressionNode>, constraint_idx: Seq<usize>) -> Seq<
    u64,
> {
    Seq::new(
        2 + 4 * nodes.len() + constraint_idx.len(),
        |i: int|
            if i == 0 {
                nodes.len() as u64
            } else if i <= 4 * nodes.len() {
                node_words(nodes[(i - 1) / 4])[(i - 1) % 4]
            } else if i == 4 * nodes.len() + 1 {
                constraint_idx.len() as u64
            } else {
                constraint_idx[i - 2 - 4 * nodes.len()] as u64
            },
    )
}

/// The DAG that words stand for, if they stand for one.
pub open spec fn words_dag(words: Seq<u64>) -> Option<(Seq<SymbolicExpressionNode>, Seq<usize>)> {
    if words.len() < 2 {
        None
    } else {
        let n = words[0] as int;
        if 2 + 4 * n > words.len() {
            None
        } else {
            let m = words[1 + 4 * n] as int;
            if 2 + 4 * n + m != words.len() {
                None
            } else if exists|i: int|
                0 <= i < n && (#[trigger] words_node(
                    words[1 + 4 * i],
                    words[2 + 4 * i],
                    words[3 + 4 * i],
                    words[4 + 4 * i],
                )) is None {
                None
            } else if exists|k: int| 0 <= k < m && (#[trigger] words[2 + 4 * n + k]) > usize::MAX {
                None
            } else {
                Some(
                    (
                        Seq::new(
                            n as nat,
                            |i: int|
                                words_node(
                                    words[1 + 4 * i],
                                    words[2 + 4 * i],
                                    words[3 + 4 * i],
                                    words[4 + 4 * i],
                                )->0,
                        ),
                        Seq::new(m as nat, |k: int| words[2 + 4 * n + k] as usize),
                    ),
                )
            }
        }
    }
}

/// The bytes of a sequence of words: the eight bytes of each word, the
/// least significant first.
pub open spec fn words_bytes(words: Seq<u64>) -> Seq<u8> {
    Seq::new(8 * words.len(), |i: int| spec_u64_to_le_bytes(words[i / 8])[i % 8])
}

/// The words that bytes stand for, if their number is a multiple of
/// eight.
pub open spec fn bytes_words(bytes: Seq<u8>) -> Option<Seq<u64>> {
    if bytes.len() % 8 != 0 {
        None
    } else {
        Some(
            Seq::new(
                bytes.len() / 8,
                |i: int| spec_u64_from_le_bytes(bytes.subrange(8 * i, 8 * i + 8)),
            ),
        )
    }
}

/// The encoding of a DAG.
pub open spec fn spec_encode(nodes: Seq<SymbolicExpressionNode>, constraint_idx: Seq<usize>) -> Seq<
    u8,
> {
    words_bytes(dag_words(nodes, constraint_idx))
}

/// The DAG that bytes are the encoding of, if they are an encoding.
pub open spec fn spec_decode(bytes: Seq<u8>) -> Option<
    (Seq<SymbolicExpressionNode>, Seq<usize>),
> {
    match bytes_words(bytes) {
        Some(words) => words_dag(words),
        None => None,
    }
}

/// Words come back from their bytes.
pub proof fn lemma_bytes_words_inverts(words: Seq<u64>)
    ensures
        bytes_words(words_bytes(words)) == Some(words),
{
    lemma_auto_spec_u64_to_from_le_bytes();
    let bytes = words_bytes(words);
    let back = bytes_words(bytes)->0;
    assert(back.len() == words.len());
    assert forall|i: int| 0 <= i < words.len() implies back[i] == words[i] by {
        assert(bytes.subrange(8 * i, 8 * i + 8) =~= spec_u64_to_le_bytes(words[i]));
    }
    assert(back =~= words);
}

/// A DAG comes back from its words.
pub proof fn lemma_words_dag_inverts(
    nodes: Seq<SymbolicExpressionNode>,
    constraint_idx: Seq<usize>,
)
    requires
        nodes.len() <= u64::MAX,
        constraint_idx.len() <= u64::MAX,
    ensures
        words_dag(dag_words(nodes, constraint_idx)) == Some((nodes, constraint_idx)),
{
    let words = dag_words(nodes, constraint_idx);
    let n = nodes.len() as int;
    let m = constraint_idx.len() as int;
    assert(words[0] == n);
    assert(words[1 + 4 * n] == m);
    assert forall|i: int| 0 <= i < n implies (#[trigger] words_node(
        words[1 + 4 * i],
        words[2 + 4 * i],
        words[3 + 4 * i],
        words[4 + 4 * i],
    )) == Some(nodes[i]) by {
        lemma_words_node_inverts(nodes[i]);
        assert(words[1 + 4 * i] == node_words(nodes[i])[0]);
        assert(words[2 + 4 * i] == node_words(nodes[i])[1]);
        assert(words[3 + 4 * i] == node_words(nodes[i])[2]);
        assert(words[4 + 4 * i] == node_words(nodes[i])[3]);
    }
    assert forall|k: int| 0 <= k < m implies (#[trigger] words[2 + 4 * n + k])
        == constraint_idx[k] as u64 by {}
    let decoded = words_dag(words);
    assert(decoded is Some);
    let pair = decoded.unwrap();
    assert(pair.0 =~= nodes);
    assert(pair.1 =~= constraint_idx);
}

/// Decoding the encoding of a DAG gives the DAG back, node for node and
/// index for index.
pub proof fn lemma_decode_inverts_encode(
    nodes: Seq<SymbolicExpressionNode>,
    constraint_idx: Seq<usize>,
)
    requires
        nodes.len() <= u64::MAX,
        constraint_idx.len() <= u64::MAX,
    ensures
        spec_decode(spec_encode(nodes, constraint_idx)) == Some((nodes, constraint_idx)),
{
    lemma_bytes_words_inverts(dag_words(nodes, constraint_idx));
    lemma_words_dag_inverts(nodes, constraint_idx);
}

/// Decoding the encoding of any DAG gives the DAG back: its nodes and
/// the nodes of its constraints.
pub proof fn lemma_decode_inverts_encode_of_dag(dag: SymbolicExpressionDag)
    ensures
        spec_decode(spec_encode(dag.nodes@, dag.constraint_idx@)) == Some(
            (dag.nodes@, dag.constraint_idx@),
        ),
{
    assert(dag.nodes@.len() == dag.nodes.len());
    assert(dag.constraint_idx@.len() == dag.constraint_idx.len());
    lemma_decode_inverts_encode(dag.nodes@, dag.constraint_idx@);
}

/// A DAG of some expressions that is encoded and decoded again has the
/// same nodes and constraints, and turns back into the expressions that
/// it was built from.
pub proof fn lemma_expressions_survive_encoding(
    exprs: Seq<SymbolicExpression>,
    dag: SymbolicExpressionDag,
    decoded: SymbolicExpressionDag,
    rebuilt: Seq<SymbolicExpression>,
)
    requires
        is_dag_of(dag, exprs),
        spec_decode(spec_encode(dag.nodes@, dag.constraint_idx@)) == Some(
            (decoded.nodes@, decoded.constraint_idx@),
        ),
        are_expressions_of(rebuilt, decoded),
    ensures
        decoded.nodes@ == dag.nodes@,
        decoded.constraint_idx@ == dag.constraint_idx@,
        decoded.well_formed(),
        rebuilt == exprs,
{
    lemma_decode_inverts_encode_of_dag(dag);
    assert(rebuilt =~= exprs);
}

fn node_to_words(node: &SymbolicExpressionNode) -> (words: (u64, u64, u64, u64))
    ensures
        seq![words.0, words.1, words.2, words.3] == node_words(*node),
{
    let words = match node {
        SymbolicExpressionNode::Variable(v) => match v.entry {
            Entry::Preprocessed { offset } => (0u64, offset as u64, 0u64, v.index as u64),
            Entry::Main { part_index, offset } => (
                1u64,
                offset as u64,
                part_index as u64,
                v.index as u64,
            ),
            Entry::Public => (2u64, 0u64, 0u64, v.index as u64),
            Entry::Permutation { offset } => (3u64, offset as u64, 0u64, v.index as u64),
            Entry::Challenge => (4u64, 0u64, 0u64, v.index as u64),
            Entry::Exposed => (5u64, 0u64, 0u64, v.index as u64),
        },
        SymbolicExpressionNode::IsFirstRow => (6u64, 0u64, 0u64, 0u64),
        SymbolicExpressionNode::IsLastRow => (7u64, 0u64, 0u64, 0u64),
        SymbolicExpressionNode::IsTransition => (8u64, 0u64, 0u64, 0u64),
        SymbolicExpressionNode::Constant(c) => (9u64, *c as u64, 0u64, 0u64),
        SymbolicExpressionNode::Add { left_idx, right_idx, degree_multiple } => (
            10u64,
            *left_idx as u64,
            *right_idx as u64,
            *degree_multiple as u64,
        ),
        SymbolicExpressionNode::Sub { left_idx, right_idx, degree_multiple } => (
            11u64,
            *left_idx as u64,
            *right_idx as u64,
            *degree_multiple as u64,
        ),
        SymbolicExpressionNode::Neg { idx, degree_multiple } => (
            12u64,
            *idx as u64,
            0u64,
            *degree_multiple as u64,
        ),
        SymbolicExpressionNode::Mul { left_idx, right_idx, degree_multiple } => (
            13u64,
            *left_idx as u64,
            *right_idx as u64,
            *degree_multiple as u64,
        ),
    };
    assert(seq![words.0, words.1, words.2, words.3] =~= node_words(*node));
    words
}

fn words_to_node(tag: u64, a: u64, b: u64, c: u64) -> (node: Option<SymbolicExpressionNode>)
    ensures
        node == words_node(tag, a, b, c),
{
    if a > usize::MAX as u64 || b > usize::MAX as u64 || c > usize::MAX as u64 {
        return None;
    }
    let (x, y, z) = (a as usize, b as usize, c as usize);
    let var = |entry: Entry| -> (r: Option<SymbolicExpressionNode>)
        ensures
            r == Some(SymbolicExpressionNode::Variable(SymbolicVariable { entry, index: z })),
        { Some(SymbolicExpressionNode::Variable(SymbolicVariable { entry, index: z })) };
    if tag == 0 && b == 0 {
        var(Entry::Preprocessed { offset: x })
    } else if tag == 1 {
        var(Entry::Main { part_index: y, offset: x })
    } else if tag == 2 && a == 0 && b == 0 {
        var(Entry::Public)
    } else if tag == 3 && b == 0 {
        var(Entry::Permutation { offset: x })
    } else if tag == 4 && a == 0 && b == 0 {
        var(Entry::Challenge)
    } else if tag == 5 && a == 0 && b == 0 {
        var(Entry::Exposed)
    } else if tag == 6 && a == 0 && b == 0 && c == 0 {
        Some(SymbolicExpressionNode::IsFirstRow)
    } else if tag == 7 && a == 0 && b == 0 && c == 0 {
        Some(SymbolicExpressionNode::IsLastRow)
    } else if tag == 8 && a == 0 && b == 0 && c == 0 {
        Some(SymbolicExpressionNode::IsTransition)
    } else if tag == 9 && a <= u32::MAX as u64 && b == 0 && c == 0 {
        Some(SymbolicExpressionNode::Constant(a as u32))
    } else if tag == 10 {
        Some(SymbolicExpressionNode::Add { left_idx: x, right_idx: y, degree_multiple: z })
    } else if tag == 11 {
        Some(SymbolicExpressionNode::Sub { left_idx: x, right_idx: y, degree_multiple: z })
    } else if tag == 12 && b == 0 {
        Some(SymbolicExpressionNode::Neg { idx: x, degree_multiple: z })
    } else if tag == 13 {
        Some(SymbolicExpressionNode::Mul { left_idx: x, right_idx: y, degree_multiple: z })
    } else {
        None
    }
}

/// The bytes of the words, eight per word.
fn encode_words(words: &Vec<u64>) -> (bytes: Vec<u8>)
    requires
        8 * words@.len() <= usize::MAX,
    ensures
        bytes@ == words_bytes(words@),
{
    let n = words.len();
    let mut bytes: Vec<u8> = Vec::with_capacity(8 * n);
    let mut i: usize = 0;
    while i < n
        invariant
            n == words@.len(),
            i <= n,
            bytes@.len() == 8 * i,
            forall|k: int|
                0 <= k < 8 * i ==> #[trigger] bytes@[k] == spec_u64_to_le_bytes(words@[k / 8])[k
                    % 8],
        decreases n - i,
    {
        let mut word = u64_to_le_bytes(words[i]);
        let ghost before = bytes@;
        let ghost added = word@;
        bytes.append(&mut word);
        assert forall|k: int| 0 <= k < 8 * (i + 1) implies #[trigger] bytes@[k]
            == spec_u64_to_le_bytes(words@[k / 8])[k % 8] by {
            if k < 8 * i {
                assert(bytes@[k] == before[k]);
            } else {
                assert(bytes@[k] == added[k - 8 * i]);
            }
        }
        i += 1;
    }
    assert(bytes@ =~= words_bytes(words@));
    bytes
}

/// The words of the bytes, if their number is a multiple of eight.
fn decode_words(bytes: &[u8]) -> (words: Option<Vec<u64>>)
    ensures
        match words {
            Some(w) => bytes_words(bytes@) == Some(w@),
            None => bytes_words(bytes@) is None,
        },
{
    if bytes.len() % 8 != 0 {
        return None;
    }
    let n = bytes.len() / 8;
    let mut words: Vec<u64> = Vec::with_capacity(n);
    let mut i: usize = 0;
    while i < n
        invariant
            bytes@.len() == 8 * n,
            8 * n <= usize::MAX,
            i <= n,
            words@.len() == i,
            forall|k: int|
                0 <= k < i ==> #[trigger] words@[k] == spec_u64_from_le_bytes(
                    bytes@.subrange(8 * k, 8 * k + 8),
                ),
        decreases n - i,
    {
        let word = u64_from_le_bytes(slice_subrange(bytes, 8 * i, 8 * i + 8));
        words.push(word);
        i += 1;
    }
    assert(words@ =~= bytes_words(bytes@)->0);
    Some(words)
}

impl SymbolicExpressionDag {
    /// The encoding of the DAG: each number as eight bytes, the least
    /// significant first; the number of nodes, four numbers for each
    /// node, the number of constraints, and the node of each constraint.
    pub fn encode(&self) -> (bytes: Vec<u8>)
        requires
            16 + 32 * self.nodes@.len() + 8 * self.constraint_idx@.len() <= usize::MAX,
        ensures
            bytes@ == spec_encode(self.nodes@, self.constraint_idx@),
    {
        let n = self.nodes.len();
        let m = self.constraint_idx.len();
        let mut words: Vec<u64> = Vec::with_capacity(2 + 4 * n + m);
        words.push(n as u64);
        let ghost expected = dag_words(self.nodes@, self.constraint_idx@);
        let mut i: usize = 0;
        while i < n
            invariant
                n == self.nodes@.len(),
                m == self.constraint_idx@.len(),
                expected == dag_words(self.nodes@, self.constraint_idx@),
                i <= n,
                words@.len() == 1 + 4 * i,
                forall|k: int| 0 <= k < 1 + 4 * i ==> #[trigger] words@[k] == expected[k],
            decreases n - i,
        {
            let (tag, a, b, c) = node_to_words(&self.nodes[i]);
            proof {
                let w = seq![tag, a, b, c];
                assert(w == node_words(self.nodes@[i as int]));
                assert(expected[1 + 4 * i] == node_words(self.nodes@[i as int])[0]);
                assert(expected[2 + 4 * i] == node_words(self.nodes@[i as int])[1]);
                assert(expected[3 + 4 * i] == node_words(self.nodes@[i as int])[2]);
                assert(expected[4 + 4 * i] == node_words(self.nodes@[i as int])[3]);
                assert(w[0] == tag && w[1] == a && w[2] == b && w[3] == c);
            }
            words.push(tag);
            words.push(a);
            words.push(b);
            words.push(c);
            i += 1;
        }
        words.push(m as u64);
        let mut k: usize = 0;
        while k < m
            invariant
                n == self.nodes@.len(),
                m == self.constraint_idx@.len(),
                expected == dag_words(self.nodes@, self.constraint_idx@),
                k <= m,
                words@.len() == 2 + 4 * n + k,
                forall|j: int| 0 <= j < 2 + 4 * n + k ==> #[trigger] words@[j] == expected[j],
            decreases m - k,
        {
            words.push(self.constraint_idx[k] as u64);
            k += 1;
        }
        assert(words@ =~= expected);
        encode_words(&words)
    }

    /// The DAG that the bytes are the encoding of, or nothing if they are
    /// no encoding.  Whether the DAG is structurally sound is not looked
    /// at here.
    pub fn decode(bytes: &[u8]) -> (dag: Option<SymbolicExpressionDag>)
        ensures
            match dag {
                Some(d) => spec_decode(bytes@) == Some((d.nodes@, d.constraint_idx@)),
                None => spec_decode(bytes@) is None,
            },
    {
        let words = match decode_words(bytes) {
            Some(words) => words,
            None => {
                return None;
            },
        };
        let len = words.len();
        if len < 2 {
            return None;
        }
        let n64 = words[0];
        if n64 > (len as u64 - 2) / 4 {
            return None;
        }
        let n = n64 as usize;
        let m64 = words[1 + 4 * n];
        if m64 != (len - 2 - 4 * n) as u64 {
            return None;
        }
        let m = m64 as usize;
        let mut nodes: Vec<SymbolicExpressionNode> = Vec::with_capacity(n);
        let mut i: usize = 0;
        while i < n
            invariant
                bytes_words(bytes@) == Some(words@),
                words@[0] == n,
                words@[1 + 4 * n] == m,
                len == words@.len(),
                len == 2 + 4 * n + m,
                i <= n,
                nodes@.len() == i,
                forall|j: int|
                    0 <= j < i ==> (#[trigger] words_node(
                        words@[1 + 4 * j],
                        words@[2 + 4 * j],
                        words@[3 + 4 * j],
                        words@[4 + 4 * j],
                    )) == Some(nodes@[j]),
            decreases n - i,
        {
            match words_to_node(
                words[1 + 4 * i],
                words[2 + 4 * i],
                words[3 + 4 * i],
                words[4 + 4 * i],
            ) {
                Some(node) => {
                    nodes.push(node);
                },
                None => {
                    assert(words_node(
                        words@[1 + 4 * i],
                        words@[2 + 4 * i],
                        words@[3 + 4 * i],
                        words@[4 + 4 * i],
                    ) is None);
                    return None;
                },
            }
            i += 1;
        }
        let mut constraint_idx: Vec<usize> = Vec::with_capacity(m);
        let mut k: usize = 0;
        while k < m
            invariant
                bytes_words(bytes@) == Some(words@),
                words@[0] == n,
                words@[1 + 4 * n] == m,
                len == words@.len(),
                len == 2 + 4 * n + m,
                k <= m,
                constraint_idx@.len() == k,
                forall|j: int|
                    0 <= j < k ==> (#[trigger] words@[2 + 4 * n + j]) <= usize::MAX
                        && constraint_idx@[j] == words@[2 + 4 * n + j] as usize,
            decreases m - k,
        {
            let idx = words[2 + 4 * n + k];
            if idx > usize::MAX as u64 {
                assert(words@[2 + 4 * n + k] > usize::MAX);
                return None;
            }
            constraint_idx.push(idx as usize);
            k += 1;
        }
        proof {
            let decoded = words_dag(words@);
            assert(decoded is Some);
            let pair = decoded.unwrap();
            assert(pair.0 =~= nodes@);
            assert(pair.1 =~= constraint_idx@);
        }
        Some(SymbolicExpressionDag { nodes, constraint_idx })
    }
}

} // verus!
