use stark_backend::symbolic::dag::{
    build_symbolic_expr_dag, SymbolicExpressionDag, SymbolicExpressionNode,
};
use stark_backend::symbolic::expression::SymbolicExpression;
use stark_backend::symbolic::variable::{Entry, SymbolicVariable};

fn word(x: u64) -> Vec<u8> {
    x.to_le_bytes().to_vec()
}

fn words(xs: &[u64]) -> Vec<u8> {
    xs.iter().flat_map(|&x| word(x)).collect()
}

fn var(entry: Entry, index: usize) -> SymbolicExpression {
    SymbolicExpression::Variable(SymbolicVariable::new(entry, index))
}

fn every_kind_of_node() -> SymbolicExpressionDag {
    let node = |entry, index| SymbolicExpressionNode::Variable(SymbolicVariable::new(entry, index));
    SymbolicExpressionDag {
        nodes: vec![
            node(Entry::Preprocessed { offset: 1 }, 2),
            node(
                Entry::Main {
                    part_index: 3,
                    offset: 4,
                },
                5,
            ),
            node(Entry::Public, 6),
            node(Entry::Permutation { offset: 7 }, 8),
            node(Entry::Challenge, 9),
            node(Entry::Exposed, 10),
            SymbolicExpressionNode::IsFirstRow,
            SymbolicExpressionNode::IsLastRow,
            SymbolicExpressionNode::IsTransition,
            SymbolicExpressionNode::Constant(0x78000000),
            SymbolicExpressionNode::Add {
                left_idx: 0,
                right_idx: 1,
                degree_multiple: 11,
            },
            SymbolicExpressionNode::Sub {
                left_idx: 2,
                right_idx: 3,
                degree_multiple: 12,
            },
            SymbolicExpressionNode::Neg {
                idx: 4,
                degree_multiple: 13,
            },
            SymbolicExpressionNode::Mul {
                left_idx: 10,
                right_idx: 11,
                degree_multiple: 14,
            },
        ],
        constraint_idx: vec![13, 12, 13],
    }
}

#[test]
fn encoding_is_the_words_of_the_dag_in_order() {
    let dag = every_kind_of_node();
    let expected = words(&[
        14,
        0, 1, 0, 2,
        1, 4, 3, 5,
        2, 0, 0, 6,
        3, 7, 0, 8,
        4, 0, 0, 9,
        5, 0, 0, 10,
        6, 0, 0, 0,
        7, 0, 0, 0,
        8, 0, 0, 0,
        9, 0x78000000, 0, 0,
        10, 0, 1, 11,
        11, 2, 3, 12,
        12, 4, 0, 13,
        13, 10, 11, 14,
        3,
        13, 12, 13,
    ]);
    assert_eq!(dag.encode(), expected);
    assert_eq!(
        word(0x0102030405060708),
        vec![8, 7, 6, 5, 4, 3, 2, 1]
    );
}

#[test]
fn decoding_the_encoding_gives_the_dag_back() {
    let dag = every_kind_of_node();
    assert_eq!(SymbolicExpressionDag::decode(&dag.encode()), Some(dag));

    let empty = SymbolicExpressionDag {
        nodes: vec![],
        constraint_idx: vec![],
    };
    assert_eq!(empty.encode(), words(&[0, 0]));
    assert_eq!(SymbolicExpressionDag::decode(&empty.encode()), Some(empty));

    let x = var(
        Entry::Main {
            part_index: 0,
            offset: 0,
        },
        0,
    );
    let y = var(Entry::Permutation { offset: 1 }, 3);
    let exprs = vec![
        SymbolicExpression::IsTransition * (x.clone() * x.clone() - y.clone()),
        -(x + SymbolicExpression::Constant(12345)) * y,
    ];
    let built = build_symbolic_expr_dag(&exprs);
    let decoded = SymbolicExpressionDag::decode(&built.encode()).unwrap();
    assert_eq!(decoded, built);
    assert_eq!(decoded.to_symbolic_expressions(), exprs);
}

#[test]
fn what_is_no_encoding_is_not_decoded() {
    let decode = |xs: &[u64]| SymbolicExpressionDag::decode(&words(xs));
    assert!(decode(&[1, 6, 0, 0, 0, 1, 0]).is_some());
    // not a whole number of words
    let mut bytes = words(&[0, 0]);
    bytes.pop();
    assert_eq!(SymbolicExpressionDag::decode(&bytes), None);
    assert_eq!(SymbolicExpressionDag::decode(&[]), None);
    // too short for the counts
    assert_eq!(decode(&[0]), None);
    assert_eq!(decode(&[1, 6, 0, 0, 0]), None);
    assert_eq!(decode(&[1, 6, 0, 0, 0, 1]), None);
    assert_eq!(decode(&[u64::MAX, 0]), None);
    // too long
    assert_eq!(decode(&[1, 6, 0, 0, 0, 1, 0, 0]), None);
    assert_eq!(decode(&[0, 0, 0]), None);
    // a kind of node that does not exist
    assert_eq!(decode(&[1, 14, 0, 0, 0, 0]), None);
    // a word that the kind of node does not use
    assert_eq!(decode(&[1, 6, 1, 0, 0, 0]), None);
    assert_eq!(decode(&[1, 2, 1, 0, 0, 0]), None);
    assert_eq!(decode(&[1, 12, 0, 1, 0, 0]), None);
    assert_eq!(decode(&[1, 0, 0, 1, 0, 0]), None);
    // a constant that is no `u32`
    assert_eq!(decode(&[1, 9, 1 << 32, 0, 0, 0]), None);
    assert!(decode(&[1, 9, (1 << 32) - 1, 0, 0, 0]).is_some());
}

#[test]
fn decoding_does_not_judge_the_order_of_the_nodes() {
    let corrupt = SymbolicExpressionDag {
        nodes: vec![SymbolicExpressionNode::Neg {
            idx: 5,
            degree_multiple: 0,
        }],
        constraint_idx: vec![9],
    };
    let decoded = SymbolicExpressionDag::decode(&corrupt.encode()).unwrap();
    assert_eq!(decoded, corrupt);
    assert!(!decoded.is_well_formed());
}
