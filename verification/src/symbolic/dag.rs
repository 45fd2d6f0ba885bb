use rustc_hash::FxHashMap;
use std::sync::Arc;
use vstd::prelude::*;

use crate::symbolic::expression::SymbolicExpression;
use crate::symbolic::variable::{Entry, SymbolicVariable};

verus! {

/// A node of a symbolic expression DAG: a symbolic expression whose
/// sub-expressions are given by their position in the node array.
#[derive(Clone, Copy, Debug, PartialEq, Eq, Structural, Hash)]
pub enum SymbolicExpressionNode {
    Variable(SymbolicVariable),
    IsFirstRow,
    IsLastRow,
    IsTransition,
    Constant(u32),
    Add { left_idx: usize, right_idx: usize, degree_multiple: usize },
    Sub { left_idx: usize, right_idx: usize, degree_multiple: usize },
    Neg { idx: usize, degree_multiple: usize },
    Mul { left_idx: usize, right_idx: usize, degree_multiple: usize },
}

/// The constraints of one AIR as a DAG.
#[derive(Clone, Debug, PartialEq, Eq)]
pub struct SymbolicExpressionDag {
    /// Nodes in topological order: a node's operands come before the node.
    pub nodes: Vec<SymbolicExpressionNode>,
    /// For each constraint, the node whose value has to vanish on the trace.
    pub constraint_idx: Vec<usize>,
}

impl SymbolicExpressionNode {
    /// Whether every operand of the node has a position below `i`.
    pub open spec fn operands_below(self, i: int) -> bool {
        match self {
            SymbolicExpressionNode::Add { left_idx, right_idx, .. } => left_idx < i
                && right_idx < i,
            SymbolicExpressionNode::Sub { left_idx, right_idx, .. } => left_idx < i
                && right_idx < i,
            SymbolicExpressionNode::Mul { left_idx, right_idx, .. } => left_idx < i
                && right_idx < i,
            SymbolicExpressionNode::Neg { idx, .. } => idx < i,
            _ => true,
        }
    }

    /// Whether the node has no operands.
    pub open spec fn is_leaf(self) -> bool {
        match self {
            SymbolicExpressionNode::Variable(_) => true,
            SymbolicExpressionNode::IsFirstRow => true,
            SymbolicExpressionNode::IsLastRow => true,
            SymbolicExpressionNode::IsTransition => true,
            SymbolicExpressionNode::Constant(_) => true,
            _ => false,
        }
    }

    /// Whether every operand of the node has a position below `i`.
    pub fn has_operands_below(&self, i: usize) -> (r: bool)
        ensures
            r == self.operands_below(i as int),
    {
        match self {
            SymbolicExpressionNode::Add { left_idx, right_idx, .. } => *left_idx < i
                && *right_idx < i,
            SymbolicExpressionNode::Sub { left_idx, right_idx, .. } => *left_idx < i
                && *right_idx < i,
            SymbolicExpressionNode::Mul { left_idx, right_idx, .. } => *left_idx < i
                && *right_idx < i,
            SymbolicExpressionNode::Neg { idx, .. } => *idx < i,
            _ => true,
        }
    }
}

/// The node array is in topological order: every operand of the node at
/// position `i` has a position strictly below `i`.
pub open spec fn topologically_sorted(nodes: Seq<SymbolicExpressionNode>) -> bool {
    forall|i: int| 0 <= i < nodes.len() ==> (#[trigger] nodes[i]).operands_below(i)
}

/// The expression that the node at position `i` stands for, with one
/// sub-expression per operand.
///
/// On a position outside the array, or at a node with an operand that is
/// not below it, the result is the constant zero; neither occurs in a
/// topologically sorted array.
pub open spec fn expr_at(nodes: Seq<SymbolicExpressionNode>, i: int) -> SymbolicExpression
    decreases i,
{
    if 0 <= i < nodes.len() && nodes[i].operands_below(i) {
        match nodes[i] {
            SymbolicExpressionNode::Variable(v) => SymbolicExpression::Variable(v),
            SymbolicExpressionNode::IsFirstRow => SymbolicExpression::IsFirstRow,
            SymbolicExpressionNode::IsLastRow => SymbolicExpression::IsLastRow,
            SymbolicExpressionNode::IsTransition => SymbolicExpression::IsTransition,
            SymbolicExpressionNode::Constant(c) => SymbolicExpression::Constant(c),
            SymbolicExpressionNode::Add { left_idx, right_idx, degree_multiple } => {
                SymbolicExpression::Add {
                    x: Arc::new(expr_at(nodes, left_idx as int)),
                    y: Arc::new(expr_at(nodes, right_idx as int)),
                    degree_multiple,
                }
            },
            SymbolicExpressionNode::Sub { left_idx, right_idx, degree_multiple } => {
                SymbolicExpression::Sub {
                    x: Arc::new(expr_at(nodes, left_idx as int)),
                    y: Arc::new(expr_at(nodes, right_idx as int)),
                    degree_multiple,
                }
            },
            SymbolicExpressionNode::Neg { idx, degree_multiple } => SymbolicExpression::Neg {
                x: Arc::new(expr_at(nodes, idx as int)),
                degree_multiple,
            },
            SymbolicExpressionNode::Mul { left_idx, right_idx, degree_multiple } => {
                SymbolicExpression::Mul {
                    x: Arc::new(expr_at(nodes, left_idx as int)),
                    y: Arc::new(expr_at(nodes, right_idx as int)),
                    degree_multiple,
                }
            },
        }
    } else {
        SymbolicExpression::Constant(0)
    }
}

/// Whether position `i` is `from` or is reached from it along the
/// positions of operands.
pub open spec fn reaches(nodes: Seq<SymbolicExpressionNode>, from: int, i: int) -> bool
    decreases from,
{
    from == i || (0 <= from < nodes.len() && nodes[from].operands_below(from) && match nodes[from] {
        SymbolicExpressionNode::Add { left_idx, right_idx, .. }
        | SymbolicExpressionNode::Sub { left_idx, right_idx, .. }
        | SymbolicExpressionNode::Mul { left_idx, right_idx, .. } => reaches(
            nodes,
            left_idx as int,
            i,
        ) || reaches(nodes, right_idx as int, i),
        SymbolicExpressionNode::Neg { idx, .. } => reaches(nodes, idx as int, i),
        _ => false,
    })
}

/// What is reached from a position depends only on the nodes up to that
/// position: it is the same in every array that extends `shorter`.
pub proof fn lemma_reaches_prefix(
    shorter: Seq<SymbolicExpressionNode>,
    longer: Seq<SymbolicExpressionNode>,
    from: int,
    i: int,
)
    requires
        shorter.len() <= longer.len(),
        forall|j: int| 0 <= j < shorter.len() ==> shorter[j] == longer[j],
        0 <= from < shorter.len(),
    ensures
        reaches(longer, from, i) == reaches(shorter, from, i),
    decreases from,
{
    if from != i && shorter[from].operands_below(from) {
        match shorter[from] {
            SymbolicExpressionNode::Add { left_idx, right_idx, .. }
            | SymbolicExpressionNode::Sub { left_idx, right_idx, .. }
            | SymbolicExpressionNode::Mul { left_idx, right_idx, .. } => {
                lemma_reaches_prefix(shorter, longer, left_idx as int, i);
                lemma_reaches_prefix(shorter, longer, right_idx as int, i);
            },
            SymbolicExpressionNode::Neg { idx, .. } => {
                lemma_reaches_prefix(shorter, longer, idx as int, i);
            },
            _ => {},
        }
    }
}

/// The expression at a position depends only on the nodes up to that
/// position: it is the same in every array that extends `shorter`.
pub proof fn lemma_expr_at_prefix(
    shorter: Seq<SymbolicExpressionNode>,
    longer: Seq<SymbolicExpressionNode>,
    i: int,
)
    requires
        shorter.len() <= longer.len(),
        forall|j: int| 0 <= j < shorter.len() ==> shorter[j] == longer[j],
        0 <= i < shorter.len(),
    ensures
        expr_at(longer, i) == expr_at(shorter, i),
    decreases i,
{
    if shorter[i].operands_below(i) {
        match shorter[i] {
            SymbolicExpressionNode::Add { left_idx, right_idx, .. }
            | SymbolicExpressionNode::Sub { left_idx, right_idx, .. }
            | SymbolicExpressionNode::Mul { left_idx, right_idx, .. } => {
                lemma_expr_at_prefix(shorter, longer, left_idx as int);
                lemma_expr_at_prefix(shorter, longer, right_idx as int);
            },
            SymbolicExpressionNode::Neg { idx, .. } => {
                lemma_expr_at_prefix(shorter, longer, idx as int);
            },
            _ => {},
        }
    }
}

/// What tells two expressions apart during one build: for a leaf, the kind
/// of leaf and what it holds; for a compound expression, the kind of
/// operation, the allocations of its operands and its degree.
pub type IdentityKey = (u8, usize, usize, usize);

/// `rustc_hash::FxBuildHasher`, the hasher of the maps that look nodes
/// up by identity key.  Nothing is said of it.
#[verifier::external_type_specification]
#[verifier::external_body]
pub struct ExFxBuildHasher(rustc_hash::FxBuildHasher);

/// `FxHashMap::default`: the new map is empty.
#[verifier::external_body]
fn index_new() -> (fresh: FxHashMap<IdentityKey, usize>)
    ensures
        fresh@.dom() == Set::<IdentityKey>::empty(),
{
    FxHashMap::default()
}

/// `HashMap::get` on an `FxHashMap`: the value stored under `key`, if any.
#[verifier::external_body]
fn index_get(m: &FxHashMap<IdentityKey, usize>, key: &IdentityKey) -> (r: Option<usize>)
    ensures
        r == (if m@.contains_key(*key) {
            Some(m@[*key])
        } else {
            None
        }),
{
    m.get(key).copied()
}

/// `HashMap::insert` on an `FxHashMap`: afterwards `key` maps to `value`
/// and every other key is as before.
#[verifier::external_body]
fn index_insert(m: &mut FxHashMap<IdentityKey, usize>, key: IdentityKey, value: usize)
    ensures
        final(m)@ == old(m)@.insert(key, value),
{
    m.insert(key, value);
}

/// `Arc::ptr_eq`: two handles to one allocation hold one value.  Nothing
/// is claimed when the answer is `false`.
#[verifier::external_body]
fn same_allocation(a: &Arc<SymbolicExpression>, b: &Arc<SymbolicExpression>) -> (r: bool)
    ensures
        r ==> *a == *b,
{
    Arc::ptr_eq(a, b)
}

/// `Arc::as_ptr`, as an integer.  An address says nothing about the value
/// behind it, so nothing is claimed of the result.
#[verifier::external_body]
fn allocation_address(a: &Arc<SymbolicExpression>) -> (r: usize) {
    Arc::as_ptr(a) as usize
}

/// The identity key of a variable: the kind of entry, what the entry
/// holds, and the index.
pub open spec fn entry_key(entry: Entry, index: usize) -> IdentityKey {
    match entry {
        Entry::Preprocessed { offset } => (0u8, offset, 0usize, index),
        Entry::Main { part_index, offset } => (1u8, offset, part_index, index),
        Entry::Public => (2u8, 0usize, 0usize, index),
        Entry::Permutation { offset } => (3u8, offset, 0usize, index),
        Entry::Challenge => (4u8, 0usize, 0usize, index),
        Entry::Exposed => (5u8, 0usize, 0usize, index),
    }
}

/// The identity key of a leaf, which is a function of its value; distinct
/// leaves have distinct keys.
pub open spec fn leaf_key(e: SymbolicExpression) -> IdentityKey {
    match e {
        SymbolicExpression::Variable(v) => entry_key(v.entry, v.index),
        SymbolicExpression::IsFirstRow => (6u8, 0usize, 0usize, 0usize),
        SymbolicExpression::IsLastRow => (7u8, 0usize, 0usize, 0usize),
        SymbolicExpression::IsTransition => (8u8, 0usize, 0usize, 0usize),
        SymbolicExpression::Constant(c) => (9u8, c as usize, 0usize, 0usize),
        _ => (10u8, 0usize, 0usize, 0usize),
    }
}

/// The first component of a leaf's key is below this bound, that of a
/// compound expression's key is not.
pub open spec fn is_leaf_key(key: IdentityKey) -> bool {
    key.0 < 10
}

fn identity_key(e: &SymbolicExpression) -> (key: IdentityKey)
    ensures
        e.is_leaf() ==> key == leaf_key(*e),
        is_leaf_key(key) == e.is_leaf(),
{
    match e {
        SymbolicExpression::Variable(v) => match v.entry {
            Entry::Preprocessed { offset } => (0u8, offset, 0usize, v.index),
            Entry::Main { part_index, offset } => (1u8, offset, part_index, v.index),
            Entry::Public => (2u8, 0usize, 0usize, v.index),
            Entry::Permutation { offset } => (3u8, offset, 0usize, v.index),
            Entry::Challenge => (4u8, 0usize, 0usize, v.index),
            Entry::Exposed => (5u8, 0usize, 0usize, v.index),
        },
        SymbolicExpression::IsFirstRow => (6u8, 0usize, 0usize, 0usize),
        SymbolicExpression::IsLastRow => (7u8, 0usize, 0usize, 0usize),
        SymbolicExpression::IsTransition => (8u8, 0usize, 0usize, 0usize),
        SymbolicExpression::Constant(c) => (9u8, *c as usize, 0usize, 0usize),
        SymbolicExpression::Add { x, y, degree_multiple } => (
            10u8,
            allocation_address(x),
            allocation_address(y),
            *degree_multiple,
        ),
        SymbolicExpression::Sub { x, y, degree_multiple } => (
            11u8,
            allocation_address(x),
            allocation_address(y),
            *degree_multiple,
        ),
        SymbolicExpression::Neg { x, degree_multiple } => (
            12u8,
            allocation_address(x),
            0usize,
            *degree_multiple,
        ),
        SymbolicExpression::Mul { x, y, degree_multiple } => (
            13u8,
            allocation_address(x),
            allocation_address(y),
            *degree_multiple,
        ),
    }
}

/// Two leaves with one key are one leaf.
pub proof fn lemma_leaf_key_injective(a: SymbolicExpression, b: SymbolicExpression)
    requires
        a.is_leaf(),
        b.is_leaf(),
        leaf_key(a) == leaf_key(b),
    ensures
        a == b,
{
}

/// Whether two expressions are the same as far as one level shows: equal
/// leaves, or the same operation of the same degree on operands that are
/// the same allocations.
fn same_identity(a: &SymbolicExpression, b: &SymbolicExpression) -> (r: bool)
    ensures
        r ==> *a == *b,
        a.is_leaf() && *a == *b ==> r,
{
    match a {
        SymbolicExpression::Variable(v1) => match b {
            SymbolicExpression::Variable(v2) => *v1 == *v2,
            _ => false,
        },
        SymbolicExpression::IsFirstRow => match b {
            SymbolicExpression::IsFirstRow => true,
            _ => false,
        },
        SymbolicExpression::IsLastRow => match b {
            SymbolicExpression::IsLastRow => true,
            _ => false,
        },
        SymbolicExpression::IsTransition => match b {
            SymbolicExpression::IsTransition => true,
            _ => false,
        },
        SymbolicExpression::Constant(c1) => match b {
            SymbolicExpression::Constant(c2) => *c1 == *c2,
            _ => false,
        },
        SymbolicExpression::Add { x: x1, y: y1, degree_multiple: d1 } => match b {
            SymbolicExpression::Add { x: x2, y: y2, degree_multiple: d2 } => *d1 == *d2
                && same_allocation(x1, x2) && same_allocation(y1, y2),
            _ => false,
        },
        SymbolicExpression::Sub { x: x1, y: y1, degree_multiple: d1 } => match b {
            SymbolicExpression::Sub { x: x2, y: y2, degree_multiple: d2 } => *d1 == *d2
                && same_allocation(x1, x2) && same_allocation(y1, y2),
            _ => false,
        },
        SymbolicExpression::Neg { x: x1, degree_multiple: d1 } => match b {
            SymbolicExpression::Neg { x: x2, degree_multiple: d2 } => *d1 == *d2
                && same_allocation(x1, x2),
            _ => false,
        },
        SymbolicExpression::Mul { x: x1, y: y1, degree_multiple: d1 } => match b {
            SymbolicExpression::Mul { x: x2, y: y2, degree_multiple: d2 } => *d1 == *d2
                && same_allocation(x1, x2) && same_allocation(y1, y2),
            _ => false,
        },
    }
}

/// The expressions met so far in one build: for each node the expression
/// it was made from, and the node of each identity key.
pub struct ExprIndex<'a> {
    index_of: FxHashMap<IdentityKey, usize>,
    origin: Vec<&'a SymbolicExpression>,
}

impl<'a> ExprIndex<'a> {
    /// The index describes `nodes`: every node stands for the expression
    /// it was made from, every key leads to a node, and every leaf node is
    /// found under the key of its value.
    pub closed spec fn describes(&self, nodes: Seq<SymbolicExpressionNode>) -> bool {
        &&& self.origin@.len() == nodes.len()
        &&& topologically_sorted(nodes)
        &&& forall|i: int|
            0 <= i < nodes.len() ==> *(#[trigger] self.origin@[i]) == expr_at(nodes, i)
        &&& forall|key: IdentityKey| #[trigger]
            self.index_of@.contains_key(key) ==> self.index_of@[key] < nodes.len()
        &&& forall|key: IdentityKey| #[trigger]
            self.index_of@.contains_key(key) && is_leaf_key(key) ==> {
                &&& (*self.origin@[self.index_of@[key] as int]).is_leaf()
                &&& leaf_key(*self.origin@[self.index_of@[key] as int]) == key
            }
        &&& forall|i: int|
            0 <= i < nodes.len() && (*#[trigger] self.origin@[i]).is_leaf() ==> {
                &&& self.index_of@.contains_key(leaf_key(*self.origin@[i]))
                &&& self.index_of@[leaf_key(*self.origin@[i])] == i
            }
    }

    /// An index that has met nothing yet.
    pub fn new() -> (index: Self)
        ensures
            index.describes(Seq::empty()),
    {
        ExprIndex { index_of: index_new(), origin: Vec::new() }
    }

    /// No leaf occurs at two positions of the nodes that the index
    /// describes.
    pub proof fn lemma_leaves_unique(&self, nodes: Seq<SymbolicExpressionNode>, i: int, j: int)
        requires
            self.describes(nodes),
            0 <= i < nodes.len(),
            0 <= j < nodes.len(),
            nodes[i].is_leaf(),
            nodes[i] == nodes[j],
        ensures
            i == j,
    {
        assert(nodes[i].operands_below(i));
        assert(nodes[j].operands_below(j));
        assert(expr_at(nodes, i) == expr_at(nodes, j));
        assert(*self.origin@[i] == expr_at(nodes, i));
        assert(*self.origin@[j] == expr_at(nodes, j));
    }
}

/// `shorter` is an initial part of `longer`.
pub open spec fn extends(longer: Seq<SymbolicExpressionNode>, shorter: Seq<SymbolicExpressionNode>)
    -> bool {
    &&& shorter.len() <= longer.len()
    &&& forall|j: int| 0 <= j < shorter.len() ==> shorter[j] == longer[j]
}

/// Whether what was appended to `before` to give `after` belongs to the
/// expression at position `idx`: every appended node stands for
/// something that occurs in `whole` and is reached from `idx`.
pub open spec fn appended_for(
    before: Seq<SymbolicExpressionNode>,
    after: Seq<SymbolicExpressionNode>,
    idx: int,
    whole: SymbolicExpression,
) -> bool {
    forall|i: int|
        before.len() <= i < after.len() ==> (#[trigger] expr_at(after, i)).occurs_in(whole)
            && reaches(after, idx, i)
}

/// What was appended for the two operands of an expression, one after
/// the other, occurs in the expression and is reached from one of the
/// two operands.
pub proof fn lemma_appended_for_operands(
    nodes0: Seq<SymbolicExpressionNode>,
    nodes1: Seq<SymbolicExpressionNode>,
    nodes2: Seq<SymbolicExpressionNode>,
    left: int,
    right: int,
    whole: SymbolicExpression,
)
    requires
        extends(nodes1, nodes0),
        extends(nodes2, nodes1),
        0 <= left < nodes1.len(),
        0 <= right < nodes2.len(),
        whole is Add || whole is Sub || whole is Mul,
        expr_at(nodes1, left) == whole.left(),
        appended_for(nodes0, nodes1, left, whole.left()),
        appended_for(nodes1, nodes2, right, whole.right()),
    ensures
        expr_at(nodes2, left) == whole.left(),
        forall|i: int|
            nodes0.len() <= i < nodes2.len() ==> (#[trigger] expr_at(nodes2, i)).occurs_in(whole)
                && (reaches(nodes2, left, i) || reaches(nodes2, right, i)),
{
    lemma_expr_at_prefix(nodes1, nodes2, left);
    assert forall|i: int| nodes0.len() <= i < nodes2.len() implies (#[trigger] expr_at(
        nodes2,
        i,
    )).occurs_in(whole) && (reaches(nodes2, left, i) || reaches(nodes2, right, i)) by {
        if i < nodes1.len() {
            lemma_expr_at_prefix(nodes1, nodes2, i);
            lemma_reaches_prefix(nodes1, nodes2, left, i);
            assert(expr_at(nodes1, i).occurs_in(whole.left()));
        } else {
            assert(expr_at(nodes2, i).occurs_in(whole.right()));
        }
    }
}

/// Once the node of an expression is appended after what its operands
/// needed, the array is in topological order again, the nodes before
/// stand for what they stood for, and all that was appended since
/// `start` belongs to the new node.
pub proof fn lemma_node_appended(
    start: int,
    before: Seq<SymbolicExpressionNode>,
    node: SymbolicExpressionNode,
    whole: SymbolicExpression,
)
    requires
        0 <= start <= before.len(),
        topologically_sorted(before),
        node.operands_below(before.len() as int),
        expr_at(before.push(node), before.len() as int) == whole,
        forall|i: int|
            start <= i < before.len() ==> (#[trigger] expr_at(before, i)).occurs_in(whole) && (
            match node {
                SymbolicExpressionNode::Add { left_idx, right_idx, .. }
                | SymbolicExpressionNode::Sub { left_idx, right_idx, .. }
                | SymbolicExpressionNode::Mul { left_idx, right_idx, .. } => reaches(
                    before,
                    left_idx as int,
                    i,
                ) || reaches(before, right_idx as int, i),
                SymbolicExpressionNode::Neg { idx, .. } => reaches(before, idx as int, i),
                _ => false,
            }),
    ensures
        topologically_sorted(before.push(node)),
        extends(before.push(node), before),
        forall|i: int|
            0 <= i < before.len() ==> #[trigger] expr_at(before.push(node), i) == expr_at(before, i),
        appended_for(before.take(start), before.push(node), before.len() as int, whole),
{
    let after = before.push(node);
    let idx = before.len() as int;
    assert forall|i: int| 0 <= i < after.len() implies (#[trigger] after[i]).operands_below(i) by {
        if i < idx {
            assert(before[i].operands_below(i));
        }
    }
    assert forall|i: int| 0 <= i < before.len() implies #[trigger] expr_at(after, i) == expr_at(
        before,
        i,
    ) by {
        lemma_expr_at_prefix(before, after, i);
    }
    assert forall|i: int| start <= i < after.len() implies (#[trigger] expr_at(after, i)).occurs_in(
        whole,
    ) && reaches(after, idx, i) by {
        if i < idx {
            assert(expr_at(before, i).occurs_in(whole));
            match node {
                SymbolicExpressionNode::Add { left_idx, right_idx, .. }
                | SymbolicExpressionNode::Sub { left_idx, right_idx, .. }
                | SymbolicExpressionNode::Mul { left_idx, right_idx, .. } => {
                    lemma_reaches_prefix(before, after, left_idx as int, i);
                    lemma_reaches_prefix(before, after, right_idx as int, i);
                },
                SymbolicExpressionNode::Neg { idx: operand, .. } => {
                    lemma_reaches_prefix(before, after, operand as int, i);
                },
                _ => {},
            }
            assert(after[idx] == node);
        }
    }
    assert(before.take(start).len() == start);
}

impl<'a> ExprIndex<'a> {
    /// A leaf that has a node is found under its key.
    proof fn lemma_leaf_is_indexed(&self, nodes: Seq<SymbolicExpressionNode>, leaf: SymbolicExpression, i: int)
        requires
            self.describes(nodes),
            leaf.is_leaf(),
            0 <= i < nodes.len(),
            expr_at(nodes, i) == leaf,
        ensures
            self.index_of@.contains_key(leaf_key(leaf)),
            self.index_of@[leaf_key(leaf)] == i,
            *self.origin@[i] == leaf,
    {
        assert(*self.origin@[i] == expr_at(nodes, i));
    }

    /// The index with the expression `expr` entered under `key` at the
    /// position of its node describes the nodes with that node appended.
    proof fn lemma_describes_appended(
        &self,
        after: &ExprIndex<'a>,
        before: Seq<SymbolicExpressionNode>,
        node: SymbolicExpressionNode,
        expr: &'a SymbolicExpression,
        key: IdentityKey,
    )
        requires
            self.describes(before),
            after.origin@ == self.origin@.push(expr),
            after.index_of@ == self.index_of@.insert(key, before.len() as usize),
            before.len() <= usize::MAX,
            topologically_sorted(before.push(node)),
            forall|i: int|
                0 <= i < before.len() ==> #[trigger] expr_at(before.push(node), i) == expr_at(
                    before,
                    i,
                ),
            expr_at(before.push(node), before.len() as int) == *expr,
            expr.is_leaf() ==> key == leaf_key(*expr),
            is_leaf_key(key) == expr.is_leaf(),
            expr.is_leaf() ==> !self.index_of@.contains_key(key),
        ensures
            after.describes(before.push(node)),
    {
        let nodes = before.push(node);
        let idx = before.len() as int;
        assert forall|i: int| 0 <= i < nodes.len() implies *(#[trigger] after.origin@[i])
            == expr_at(nodes, i) by {
            if i < idx {
                assert(after.origin@[i] == self.origin@[i]);
            }
        }
        assert forall|i: int|
            0 <= i < nodes.len() && (*#[trigger] after.origin@[i]).is_leaf() implies {
            &&& after.index_of@.contains_key(leaf_key(*after.origin@[i]))
            &&& after.index_of@[leaf_key(*after.origin@[i])] == i
        } by {
            if i < idx {
                assert(after.origin@[i] == self.origin@[i]);
                let k = leaf_key(*self.origin@[i]);
                assert(self.index_of@.contains_key(k));
                assert(is_leaf_key(k));
            }
        }
        assert forall|k: IdentityKey| #[trigger]
            after.index_of@.contains_key(k) && is_leaf_key(k) implies {
            &&& (*after.origin@[after.index_of@[k] as int]).is_leaf()
            &&& leaf_key(*after.origin@[after.index_of@[k] as int]) == k
        } by {
            if k != key {
                assert(self.index_of@.contains_key(k));
                assert(after.origin@[after.index_of@[k] as int]
                    == self.origin@[self.index_of@[k] as int]);
            }
        }
    }
}

/// Whether the nodes at the positions from `start` to `at` are what one
/// walk appends for the node at `at` when the nodes before `start` are
/// there already: first what its first operand needs, unless that
/// operand has a node before `start`; then what its second operand
/// needs, unless that operand has a node by then; and last the node
/// itself.
pub open spec fn walked(nodes: Seq<SymbolicExpressionNode>, start: int, at: int) -> bool
    decreases at,
{
    &&& 0 <= start <= at < nodes.len()
    &&& nodes[at].operands_below(at)
    &&& match nodes[at] {
        SymbolicExpressionNode::Add { left_idx, right_idx, .. }
        | SymbolicExpressionNode::Sub { left_idx, right_idx, .. }
        | SymbolicExpressionNode::Mul { left_idx, right_idx, .. } => {
            let mid = if left_idx >= start {
                left_idx + 1
            } else {
                start
            };
            &&& left_idx >= start ==> walked(nodes, start, left_idx as int)
            &&& mid < at ==> right_idx == at - 1 && walked(nodes, mid, right_idx as int)
        },
        SymbolicExpressionNode::Neg { idx, .. } => start < at ==> idx == at - 1 && walked(
            nodes,
            start,
            idx as int,
        ),
        _ => start == at,
    }
}

/// Whether a stretch of nodes is what one walk appends depends only on
/// the nodes up to its end: it is the same in every array that extends
/// `shorter`.
pub proof fn lemma_walked_prefix(
    shorter: Seq<SymbolicExpressionNode>,
    longer: Seq<SymbolicExpressionNode>,
    start: int,
    at: int,
)
    requires
        extends(longer, shorter),
        at < shorter.len(),
    ensures
        walked(longer, start, at) == walked(shorter, start, at),
    decreases at,
{
    if 0 <= start <= at && shorter[at].operands_below(at) {
        match shorter[at] {
            SymbolicExpressionNode::Add { left_idx, right_idx, .. }
            | SymbolicExpressionNode::Sub { left_idx, right_idx, .. }
            | SymbolicExpressionNode::Mul { left_idx, right_idx, .. } => {
                lemma_walked_prefix(shorter, longer, start, left_idx as int);
                lemma_walked_prefix(shorter, longer, left_idx + 1, right_idx as int);
                lemma_walked_prefix(shorter, longer, start, right_idx as int);
            },
            SymbolicExpressionNode::Neg { idx, .. } => {
                lemma_walked_prefix(shorter, longer, start, idx as int);
            },
            _ => {},
        }
    }
}

/// The number of nodes once the first `k` constraints are walked in
/// their order: a constraint whose node is not among the nodes that
/// were there before it brings the nodes up to its own.
pub open spec fn nodes_after(constraint_idx: Seq<usize>, k: int) -> int
    decreases k,
{
    if k <= 0 {
        0
    } else {
        let before = nodes_after(constraint_idx, k - 1);
        if constraint_idx[k - 1] >= before {
            constraint_idx[k - 1] + 1
        } else {
            before
        }
    }
}

/// The number of nodes after the first `k` constraints depends on those
/// constraints only.
pub proof fn lemma_nodes_after_prefix(shorter: Seq<usize>, longer: Seq<usize>, k: int)
    requires
        k <= shorter.len() <= longer.len(),
        forall|j: int| 0 <= j < shorter.len() ==> shorter[j] == longer[j],
    ensures
        nodes_after(longer, k) == nodes_after(shorter, k),
    decreases k,
{
    if k > 0 {
        lemma_nodes_after_prefix(shorter, longer, k - 1);
    }
}

/// Whether the nodes stand in the order in which the constraints are
/// walked one after the other, each operands first and the first
/// operand before the second: the nodes are exactly what the
/// constraints bring, and what a constraint brings is what one walk
/// appends for its node.
pub open spec fn walked_in_order(nodes: Seq<SymbolicExpressionNode>, constraint_idx: Seq<usize>)
    -> bool {
    &&& nodes_after(constraint_idx, constraint_idx.len() as int) == nodes.len()
    &&& forall|k: int|
        0 <= k < constraint_idx.len() && constraint_idx[k] >= nodes_after(constraint_idx, k)
            ==> walked(nodes, nodes_after(constraint_idx, k), #[trigger] constraint_idx[k] as int)
}

/// Whether the nodes appended to `before` to give `after` are, in this
/// order, what the first operand of `whole` needs, what its second
/// operand needs, and last the node of `whole` itself.
pub open spec fn appended_in_order(
    before: Seq<SymbolicExpressionNode>,
    after: Seq<SymbolicExpressionNode>,
    whole: SymbolicExpression,
) -> bool {
    let last = after.len() - 1;
    &&& before.len() <= last
    &&& match after[last] {
        SymbolicExpressionNode::Add { left_idx, right_idx, .. }
        | SymbolicExpressionNode::Sub { left_idx, right_idx, .. }
        | SymbolicExpressionNode::Mul { left_idx, right_idx, .. } => exists|m: int|
            before.len() <= m <= last && appended_for(
                before,
                #[trigger] after.take(m),
                left_idx as int,
                whole.left(),
            ) && appended_for(after.take(m), after.take(last), right_idx as int, whole.right()),
        SymbolicExpressionNode::Neg { idx, .. } => appended_for(
            before,
            after.take(last),
            idx as int,
            whole.left(),
        ),
        _ => last == before.len(),
    }
}

/// Appends to `nodes` what `expr` needs and is not there yet, operands
/// before the expression itself, and returns the position of `expr`.
///
/// An expression met before in this build, by its identity key, gets the
/// position it got then and nothing is appended, so a shared
/// sub-expression is walked once however often it is used.  Otherwise
/// what the first operand needs is appended first, then what the second
/// operand needs, and the node of the expression last.
pub fn topological_sort_symbolic_expr<'a>(
    expr: &'a SymbolicExpression,
    index: &mut ExprIndex<'a>,
    nodes: &mut Vec<SymbolicExpressionNode>,
) -> (idx: usize)
    requires
        old(index).describes(old(nodes)@),
    ensures
        final(index).describes(final(nodes)@),
        extends(final(nodes)@, old(nodes)@),
        idx < final(nodes)@.len(),
        expr_at(final(nodes)@, idx as int) == *expr,
        final(nodes)@.len() == old(nodes)@.len() || idx == final(nodes)@.len() - 1,
        final(nodes)@.len() == old(nodes)@.len() ==> *final(index) == *old(index),
        final(nodes)@.len() > old(nodes)@.len() ==> appended_in_order(
            old(nodes)@,
            final(nodes)@,
            *expr,
        ) && walked(final(nodes)@, old(nodes)@.len() as int, idx as int),
        expr.is_leaf() && (exists|i: int|
            0 <= i < old(nodes)@.len() && #[trigger] expr_at(old(nodes)@, i) == *expr)
            ==> final(nodes)@ == old(nodes)@,
        final(nodes)@.len() <= old(nodes)@.len() + expr.tree_size(),
        appended_for(old(nodes)@, final(nodes)@, idx as int, *expr),
    decreases expr, 1nat,
{
    let key = identity_key(expr);
    let found = match index_get(&index.index_of, &key) {
        Some(at) => if same_identity(index.origin[at], expr) {
            Some(at)
        } else {
            None
        },
        None => None,
    };
    proof {
        if found is None && expr.is_leaf() {
            assert forall|i: int| 0 <= i < nodes@.len() implies #[trigger] expr_at(nodes@, i)
                != *expr by {
                if expr_at(nodes@, i) == *expr {
                    index.lemma_leaf_is_indexed(nodes@, *expr, i);
                }
            }
        }
    }
    place_expr(expr, found, index, nodes)
}

/// The step of the walk once the index has answered: `found` is the
/// position that the index gave for `expr`, if it gave one.
///
/// With a position nothing is appended and neither the nodes nor the
/// index change: the expression is not walked again.  Without one, what
/// the operands need is appended, the first operand's part before the
/// second's, then the node of `expr`, which is entered into the index.
/// A leaf without a position must be one that has no node yet.
pub fn place_expr<'a>(
    expr: &'a SymbolicExpression,
    found: Option<usize>,
    index: &mut ExprIndex<'a>,
    nodes: &mut Vec<SymbolicExpressionNode>,
) -> (idx: usize)
    requires
        old(index).describes(old(nodes)@),
        found matches Some(i) ==> i < old(nodes)@.len() && expr_at(old(nodes)@, i as int) == *expr,
        found is None && expr.is_leaf() ==> forall|i: int|
            0 <= i < old(nodes)@.len() ==> #[trigger] expr_at(old(nodes)@, i) != *expr,
    ensures
        found matches Some(i) ==> idx == i && final(nodes)@ == old(nodes)@ && *final(index)
            == *old(index),
        found is None ==> final(nodes)@.len() > old(nodes)@.len() && idx == final(nodes)@.len()
            - 1 && appended_in_order(old(nodes)@, final(nodes)@, *expr) && walked(
            final(nodes)@,
            old(nodes)@.len() as int,
            idx as int,
        ),
        final(index).describes(final(nodes)@),
        extends(final(nodes)@, old(nodes)@),
        expr_at(final(nodes)@, idx as int) == *expr,
        appended_for(old(nodes)@, final(nodes)@, idx as int, *expr),
        final(nodes)@.len() <= old(nodes)@.len() + expr.tree_size(),
    decreases expr, 0nat,
{
    if let Some(at) = found {
        return at;
    }
    let key = identity_key(expr);
    let ghost nodes0 = nodes@;
    proof {
        if expr.is_leaf() && index.index_of@.contains_key(key) {
            // The leaf under this key would be a node of `expr`.
            let at = index.index_of@[key];
            lemma_leaf_key_injective(*index.origin@[at as int], *expr);
            assert(expr_at(nodes0, at as int) == *expr);
        }
    }
    let mut left: usize = 0;
    let mut right: usize = 0;
    let ghost mut nodes1 = nodes0;
    match expr {
        SymbolicExpression::Add { x, y, .. }
        | SymbolicExpression::Sub { x, y, .. }
        | SymbolicExpression::Mul { x, y, .. } => {
            left = topological_sort_symbolic_expr(&**x, index, nodes);
            proof {
                nodes1 = nodes@;
            }
            right = topological_sort_symbolic_expr(&**y, index, nodes);
            proof {
                lemma_appended_for_operands(nodes0, nodes1, nodes@, left as int, right as int, *expr);
                lemma_walked_prefix(nodes1, nodes@, nodes0.len() as int, left as int);
            }
        },
        SymbolicExpression::Neg { x, .. } => {
            left = topological_sort_symbolic_expr(&**x, index, nodes);
            proof {
                nodes1 = nodes@;
            }
        },
        _ => {},
    }
    let node = match expr {
        SymbolicExpression::Variable(v) => SymbolicExpressionNode::Variable(*v),
        SymbolicExpression::IsFirstRow => SymbolicExpressionNode::IsFirstRow,
        SymbolicExpression::IsLastRow => SymbolicExpressionNode::IsLastRow,
        SymbolicExpression::IsTransition => SymbolicExpressionNode::IsTransition,
        SymbolicExpression::Constant(c) => SymbolicExpressionNode::Constant(*c),
        SymbolicExpression::Add { degree_multiple, .. } => SymbolicExpressionNode::Add {
            left_idx: left,
            right_idx: right,
            degree_multiple: *degree_multiple,
        },
        SymbolicExpression::Sub { degree_multiple, .. } => SymbolicExpressionNode::Sub {
            left_idx: left,
            right_idx: right,
            degree_multiple: *degree_multiple,
        },
        SymbolicExpression::Neg { degree_multiple, .. } => SymbolicExpressionNode::Neg {
            idx: left,
            degree_multiple: *degree_multiple,
        },
        SymbolicExpression::Mul { degree_multiple, .. } => SymbolicExpressionNode::Mul {
            left_idx: left,
            right_idx: right,
            degree_multiple: *degree_multiple,
        },
    };
    let ghost before = nodes@;
    let ghost index_before = *index;
    let idx = nodes.len();
    nodes.push(node);
    index.origin.push(expr);
    index_insert(&mut index.index_of, key, idx);
    proof {
        assert(nodes@ == before.push(node));
        assert(expr_at(before.push(node), idx as int) == *expr) by {
            assert forall|i: int| 0 <= i < before.len() implies expr_at(before.push(node), i)
                == expr_at(before, i) by {
                lemma_expr_at_prefix(before, before.push(node), i);
            }
        }
        lemma_node_appended(nodes0.len() as int, before, node, *expr);
        assert(before.take(nodes0.len() as int) =~= nodes0);
        index_before.lemma_describes_appended(&*index, before, node, expr, key);
        assert(nodes@.take(idx as int) =~= before);
        assert(nodes@.take(nodes1.len() as int) =~= nodes1);
        assert(appended_in_order(nodes0, nodes@, *expr));
        if left < before.len() {
            lemma_walked_prefix(before, nodes@, nodes0.len() as int, left as int);
        }
        if right < before.len() {
            lemma_walked_prefix(before, nodes@, nodes1.len() as int, right as int);
        }
        assert(walked(nodes@, nodes0.len() as int, idx as int));
    }
    idx
}

/// Whether `e` is one of `exprs` or occurs in one of them.
pub open spec fn occurs_in_some(e: SymbolicExpression, exprs: Seq<SymbolicExpression>) -> bool {
    exists|k: int| 0 <= k < exprs.len() && e.occurs_in(#[trigger] exprs[k])
}

/// The number of nodes of the first `n` expressions seen as trees.
pub open spec fn total_tree_size(exprs: Seq<SymbolicExpression>, n: int) -> nat
    decreases n,
{
    if n <= 0 {
        0
    } else {
        total_tree_size(exprs, n - 1) + exprs[n - 1].tree_size()
    }
}

/// Whether position `i` is the node of one of the constraints or is
/// reached from one along the positions of operands.
pub open spec fn reached_from_some(
    nodes: Seq<SymbolicExpressionNode>,
    constraint_idx: Seq<usize>,
    i: int,
) -> bool {
    exists|k: int|
        0 <= k < constraint_idx.len() && reaches(nodes, (#[trigger] constraint_idx[k]) as int, i)
}

/// Whether `dag` is a DAG of the expressions `exprs`: it is structurally
/// sound, its constraints are the expressions in their order, and each
/// of its nodes stands for one of the expressions or for something that
/// occurs in one and is reached from the node of a constraint.
pub open spec fn is_dag_of(dag: SymbolicExpressionDag, exprs: Seq<SymbolicExpression>) -> bool {
    &&& dag.well_formed()
    &&& dag.constraint_idx@.len() == exprs.len()
    &&& forall|k: int| 0 <= k < exprs.len() ==> dag.constraint_expr(k) == #[trigger] exprs[k]
    &&& forall|i: int|
        0 <= i < dag.nodes@.len() ==> occurs_in_some(#[trigger] expr_at(dag.nodes@, i), exprs)
    &&& forall|i: int|
        0 <= i < dag.nodes@.len() ==> #[trigger] reached_from_some(
            dag.nodes@,
            dag.constraint_idx@,
            i,
        )
}

/// Whether `exprs` are the expressions of the constraints of `dag`, in
/// their order.
pub open spec fn are_expressions_of(exprs: Seq<SymbolicExpression>, dag: SymbolicExpressionDag)
    -> bool {
    &&& exprs.len() == dag.constraint_idx@.len()
    &&& forall|k: int| 0 <= k < exprs.len() ==> (#[trigger] exprs[k]) == dag.constraint_expr(k)
}

/// In a DAG that is structurally sound, every operand of a node stands
/// before the node.
pub proof fn lemma_operands_precede(dag: SymbolicExpressionDag, i: int)
    requires
        dag.well_formed(),
        0 <= i < dag.nodes@.len(),
    ensures
        match dag.nodes@[i] {
            SymbolicExpressionNode::Add { left_idx, right_idx, .. } => left_idx < i && right_idx
                < i,
            SymbolicExpressionNode::Sub { left_idx, right_idx, .. } => left_idx < i && right_idx
                < i,
            SymbolicExpressionNode::Mul { left_idx, right_idx, .. } => left_idx < i && right_idx
                < i,
            SymbolicExpressionNode::Neg { idx, .. } => idx < i,
            _ => true,
        },
{
    assert(dag.nodes@[i].operands_below(i));
}

/// Building a DAG and turning it back into expressions gives the
/// expressions that one started from: whatever DAG of `exprs` was built,
/// its expressions are `exprs`.
pub proof fn lemma_rebuild_inverts_build(
    exprs: Seq<SymbolicExpression>,
    dag: SymbolicExpressionDag,
    rebuilt: Seq<SymbolicExpression>,
)
    requires
        is_dag_of(dag, exprs),
        are_expressions_of(rebuilt, dag),
    ensures
        rebuilt == exprs,
{
    assert(rebuilt =~= exprs);
}

/// Builds the DAG of a list of constraint expressions.
///
/// Each expression is walked operands first, the first operand before
/// the second, and the expressions one after the other.  An expression
/// already met in this build (an equal leaf, or the same operation on the
/// same operand allocations) is not walked again: it keeps the position
/// it has.
pub fn build_symbolic_expr_dag(exprs: &[SymbolicExpression]) -> (dag: SymbolicExpressionDag)
    ensures
        is_dag_of(dag, exprs@),
        dag.nodes@.len() <= total_tree_size(exprs@, exprs@.len() as int),
        forall|i: int, j: int|
            0 <= i < dag.nodes@.len() && 0 <= j < dag.nodes@.len() && i != j
                && dag.nodes@[i].is_leaf() ==> #[trigger] dag.nodes@[i] != #[trigger] dag.nodes@[j],
        walked_in_order(dag.nodes@, dag.constraint_idx@),
{
    let mut index = ExprIndex::new();
    let mut nodes: Vec<SymbolicExpressionNode> = Vec::new();
    let mut constraint_idx: Vec<usize> = Vec::with_capacity(exprs.len());
    let n = exprs.len();
    let mut k: usize = 0;
    while k < n
        invariant
            n == exprs@.len(),
            k <= n,
            constraint_idx@.len() == k,
            index.describes(nodes@),
            nodes@.len() <= total_tree_size(exprs@, k as int),
            forall|j: int| 0 <= j < k ==> (#[trigger] constraint_idx@[j]) < nodes@.len(),
            forall|j: int|
                0 <= j < k ==> expr_at(nodes@, constraint_idx@[j] as int) == #[trigger] exprs@[j],
            forall|i: int|
                0 <= i < nodes@.len() ==> occurs_in_some(#[trigger] expr_at(nodes@, i), exprs@),
            forall|i: int|
                0 <= i < nodes@.len() ==> #[trigger] reached_from_some(nodes@, constraint_idx@, i),
            nodes_after(constraint_idx@, k as int) == nodes@.len(),
            forall|j: int|
                0 <= j < k && constraint_idx@[j] >= nodes_after(constraint_idx@, j) ==> walked(
                    nodes@,
                    nodes_after(constraint_idx@, j),
                    #[trigger] constraint_idx@[j] as int,
                ),
        decreases n - k,
    {
        let ghost before = nodes@;
        let ghost roots = constraint_idx@;
        let idx = topological_sort_symbolic_expr(&exprs[k], &mut index, &mut nodes);
        proof {
            assert forall|i: int| 0 <= i < nodes@.len() implies #[trigger] reached_from_some(
                nodes@,
                roots.push(idx),
                i,
            ) by {
                if i < before.len() {
                    assert(reached_from_some(before, roots, i));
                    let j = choose|j: int|
                        0 <= j < roots.len() && reaches(before, (#[trigger] roots[j]) as int, i);
                    lemma_reaches_prefix(before, nodes@, roots[j] as int, i);
                    assert(roots.push(idx)[j] == roots[j]);
                } else {
                    assert(expr_at(nodes@, i).occurs_in(exprs@[k as int]));
                    assert(reaches(nodes@, idx as int, i));
                    assert(roots.push(idx)[roots.len() as int] == idx);
                }
            }
            assert forall|i: int| 0 <= i < nodes@.len() implies occurs_in_some(
                #[trigger] expr_at(nodes@, i),
                exprs@,
            ) by {
                if i < before.len() {
                    lemma_expr_at_prefix(before, nodes@, i);
                    assert(occurs_in_some(expr_at(before, i), exprs@));
                } else {
                    assert(expr_at(nodes@, i).occurs_in(exprs@[k as int]));
                }
            }
            assert forall|j: int| 0 <= j < k implies expr_at(nodes@, constraint_idx@[j] as int)
                == #[trigger] exprs@[j] by {
                lemma_expr_at_prefix(before, nodes@, constraint_idx@[j] as int);
            }
            let grown = roots.push(idx);
            assert forall|j: int| 0 <= j <= k implies nodes_after(grown, j) == nodes_after(
                roots,
                j,
            ) by {
                lemma_nodes_after_prefix(roots, grown, j);
            }
            assert(nodes_after(grown, k + 1) == nodes@.len());
            assert forall|j: int|
                0 <= j < k + 1 && grown[j] >= nodes_after(grown, j) implies walked(
                nodes@,
                nodes_after(grown, j),
                #[trigger] grown[j] as int,
            ) by {
                if j < k {
                    assert(grown[j] == roots[j]);
                    lemma_walked_prefix(before, nodes@, nodes_after(roots, j), roots[j] as int);
                }
            }
        }
        constraint_idx.push(idx);
        k += 1;
    }
    proof {
        assert forall|i: int, j: int|
            0 <= i < nodes@.len() && 0 <= j < nodes@.len() && i != j
                && nodes@[i].is_leaf() implies #[trigger] nodes@[i] != #[trigger] nodes@[j] by {
            if nodes@[i] == nodes@[j] {
                index.lemma_leaves_unique(nodes@, i, j);
            }
        }
    }
    SymbolicExpressionDag { nodes, constraint_idx }
}

impl SymbolicExpressionDag {
    /// The DAG is structurally sound: its nodes are in topological order
    /// and every constraint names an existing node.
    pub open spec fn well_formed(&self) -> bool {
        &&& topologically_sorted(self.nodes@)
        &&& forall|k: int|
            0 <= k < self.constraint_idx@.len() ==> (#[trigger] self.constraint_idx@[k])
                < self.nodes@.len()
    }

    /// The expression of the `k`-th constraint.
    pub open spec fn constraint_expr(&self, k: int) -> SymbolicExpression {
        expr_at(self.nodes@, self.constraint_idx@[k] as int)
    }

    /// Checks that the DAG is structurally sound.
    pub fn is_well_formed(&self) -> (ok: bool)
        ensures
            ok == self.well_formed(),
    {
        let n = self.nodes.len();
        let mut i: usize = 0;
        while i < n
            invariant
                n == self.nodes@.len(),
                i <= n,
                forall|j: int| 0 <= j < i ==> (#[trigger] self.nodes@[j]).operands_below(j),
            decreases n - i,
        {
            if !self.nodes[i].has_operands_below(i) {
                return false;
            }
            i += 1;
        }
        let m = self.constraint_idx.len();
        let mut k: usize = 0;
        while k < m
            invariant
                n == self.nodes@.len(),
                m == self.constraint_idx@.len(),
                k <= m,
                topologically_sorted(self.nodes@),
                forall|j: int| 0 <= j < k ==> (#[trigger] self.constraint_idx@[j]) < n,
            decreases m - k,
        {
            if self.constraint_idx[k] >= n {
                return false;
            }
            k += 1;
        }
        true
    }

    /// Returns the expression of each constraint, in order.
    ///
    /// One expression is made per node and handed to every node that has it
    /// as an operand, so operands that share a position in the DAG share
    /// one sub-expression in the result.
    pub fn to_symbolic_expressions(&self) -> (exprs: Vec<SymbolicExpression>)
        requires
            self.well_formed(),
        ensures
            are_expressions_of(exprs@, *self),
    {
        let n = self.nodes.len();
        let mut built: Vec<Arc<SymbolicExpression>> = Vec::with_capacity(n);
        let mut i: usize = 0;
        while i < n
            invariant
                n == self.nodes@.len(),
                i <= n,
                built@.len() == i,
                topologically_sorted(self.nodes@),
                forall|j: int| 0 <= j < i ==> *(#[trigger] built@[j]) == expr_at(self.nodes@, j),
            decreases n - i,
        {
            assert(self.nodes@[i as int].operands_below(i as int));
            let expr = match self.nodes[i] {
                SymbolicExpressionNode::Variable(v) => SymbolicExpression::Variable(v),
                SymbolicExpressionNode::IsFirstRow => SymbolicExpression::IsFirstRow,
                SymbolicExpressionNode::IsLastRow => SymbolicExpression::IsLastRow,
                SymbolicExpressionNode::IsTransition => SymbolicExpression::IsTransition,
                SymbolicExpressionNode::Constant(c) => SymbolicExpression::Constant(c),
                SymbolicExpressionNode::Add { left_idx, right_idx, degree_multiple } => {
                    SymbolicExpression::Add {
                        x: built[left_idx].clone(),
                        y: built[right_idx].clone(),
                        degree_multiple,
                    }
                },
                SymbolicExpressionNode::Sub { left_idx, right_idx, degree_multiple } => {
                    SymbolicExpression::Sub {
                        x: built[left_idx].clone(),
                        y: built[right_idx].clone(),
                        degree_multiple,
                    }
                },
                SymbolicExpressionNode::Neg { idx, degree_multiple } => SymbolicExpression::Neg {
                    x: built[idx].clone(),
                    degree_multiple,
                },
                SymbolicExpressionNode::Mul { left_idx, right_idx, degree_multiple } => {
                    SymbolicExpression::Mul {
                        x: built[left_idx].clone(),
                        y: built[right_idx].clone(),
                        degree_multiple,
                    }
                },
            };
            assert(expr == expr_at(self.nodes@, i as int));
            built.push(Arc::new(expr));
            i += 1;
        }
        let m = self.constraint_idx.len();
        let mut exprs: Vec<SymbolicExpression> = Vec::with_capacity(m);
        let mut k: usize = 0;
        while k < m
            invariant
                n == self.nodes@.len(),
                m == self.constraint_idx@.len(),
                k <= m,
                built@.len() == n,
                exprs@.len() == k,
                self.well_formed(),
                forall|j: int| 0 <= j < n ==> *(#[trigger] built@[j]) == expr_at(self.nodes@, j),
                forall|j: int| 0 <= j < k ==> (#[trigger] exprs@[j]) == self.constraint_expr(j),
            decreases m - k,
        {
            let idx = self.constraint_idx[k];
            exprs.push(built[idx].shallow_clone());
            k += 1;
        }
        exprs
    }
}

} // verus!
