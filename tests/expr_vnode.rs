use stream_meta::chunk::{DataChunk, Datum};
use stream_meta::expr_vnode::{DataType, ExprError, ExprNode, ExprType, RexNode, VnodeExpression};
use stream_meta::vnode::VNODE_COUNT;

fn make_input_ref(index: usize, ty: DataType) -> ExprNode {
    ExprNode { expr_type: ExprType::InputRef, return_type: ty, rex_node: RexNode::InputRef(index) }
}

fn make_vnode_function(children: Vec<ExprNode>) -> ExprNode {
    ExprNode {
        expr_type: ExprType::Vnode,
        return_type: DataType::Int16,
        rex_node: RexNode::FuncCall(children),
    }
}

fn sample_chunk() -> DataChunk {
    DataChunk {
        columns: vec![
            vec![Datum::Int32(1), Datum::Int32(2), Datum::Int32(3)],
            vec![Datum::Int64(10), Datum::Int64(32), Datum::Int64(88)],
            vec![
                Datum::Utf8("abc".to_string()),
                Datum::Utf8("def".to_string()),
                Datum::Utf8("ghi".to_string()),
            ],
        ],
        capacity: 3,
        visibility: None,
    }
}

#[test]
fn test_vnode_expr_eval() {
    let input_node1 = make_input_ref(0, DataType::Int32);
    let input_node2 = make_input_ref(0, DataType::Int64);
    let input_node3 = make_input_ref(0, DataType::Varchar);
    let vnode_expr =
        VnodeExpression::try_from(&make_vnode_function(vec![input_node1, input_node2, input_node3]))
            .unwrap();
    let chunk = sample_chunk();
    let actual = vnode_expr.eval(&chunk);
    assert_eq!(actual.len(), 3);
    actual.iter().for_each(|vnode| {
        let vnode = *vnode;
        assert!(vnode >= 0);
        assert!((vnode as usize) < VNODE_COUNT);
    });
}

#[test]
fn test_vnode_expr_eval_row() {
    let input_node1 = make_input_ref(0, DataType::Int32);
    let input_node2 = make_input_ref(0, DataType::Int64);
    let input_node3 = make_input_ref(0, DataType::Varchar);
    let vnode_expr =
        VnodeExpression::try_from(&make_vnode_function(vec![input_node1, input_node2, input_node3]))
            .unwrap();
    let rows = vec![
        vec![Datum::Int32(1), Datum::Int64(10), Datum::Utf8("abc".to_string())],
        vec![Datum::Int32(2), Datum::Int64(32), Datum::Utf8("def".to_string())],
        vec![Datum::Int32(3), Datum::Int64(88), Datum::Utf8("ghi".to_string())],
    ];
    for row in rows {
        let vnode = vnode_expr.eval_row(&row);
        assert!(vnode >= 0);
        assert!((vnode as usize) < VNODE_COUNT);
    }
}

#[test]
fn vnode_expr_row_and_chunk_agree() {
    let expr = VnodeExpression::new(vec![1, 2]);
    let chunk = sample_chunk();
    let by_chunk = expr.eval(&chunk);
    let row = vec![Datum::Int32(2), Datum::Int64(32), Datum::Utf8("def".to_string())];
    assert_eq!(expr.eval_row(&row), by_chunk[1]);
}

#[test]
fn vnode_expr_reads_key_indices() {
    let node = make_vnode_function(vec![make_input_ref(2, DataType::Int32), make_input_ref(0, DataType::Int64)]);
    let expr = VnodeExpression::try_from(&node).unwrap();
    assert_eq!(expr.dist_key_indices, vec![2, 0]);
    assert_eq!(expr.return_type(), DataType::Int16);
}

#[test]
fn vnode_expr_rejects_malformed_nodes() {
    let mut node = make_vnode_function(vec![]);
    node.expr_type = ExprType::Other;
    assert_eq!(VnodeExpression::try_from(&node).unwrap_err(), ExprError::NotVnode);

    let mut node = make_vnode_function(vec![]);
    node.return_type = DataType::Int32;
    assert_eq!(VnodeExpression::try_from(&node).unwrap_err(), ExprError::NotInt16);

    let node = ExprNode {
        expr_type: ExprType::Vnode,
        return_type: DataType::Int16,
        rex_node: RexNode::InputRef(0),
    };
    assert_eq!(VnodeExpression::try_from(&node).unwrap_err(), ExprError::NotFuncCall);

    let child = ExprNode {
        expr_type: ExprType::Other,
        return_type: DataType::Int32,
        rex_node: RexNode::Constant(Datum::Int32(1)),
    };
    let node = make_vnode_function(vec![make_input_ref(0, DataType::Int32), child]);
    assert_eq!(VnodeExpression::try_from(&node).unwrap_err(), ExprError::NotInputRef);
}
