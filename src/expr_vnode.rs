use vstd::prelude::*;

use crate::chunk::{encode_key, values_of, DataChunk, Datum};
use crate::vnode::{vnode_of_key, vnode_of_spec, VNODE_COUNT};

verus! {

/// The kind of an expression node.
#[derive(Debug, Clone, Copy, PartialEq, Eq, Structural)]
pub enum ExprType {
    Unspecified,
    InputRef,
    Vnode,
    Other,
}

/// The type of a value.
#[derive(Debug, Clone, Copy, PartialEq, Eq, Structural)]
pub enum DataType {
    Boolean,
    Int16,
    Int32,
    Int64,
    Varchar,
}

/// The body of an expression node.
#[derive(Debug)]
pub enum RexNode {
    /// A reference to the input column of that index.
    InputRef(usize),
    /// A call whose arguments are the children.
    FuncCall(Vec<ExprNode>),
    /// A constant value.
    Constant(Datum),
}

/// A serialized expression.
#[derive(Debug)]
pub struct ExprNode {
    pub expr_type: ExprType,
    pub return_type: DataType,
    pub rex_node: RexNode,
}

/// Why an expression node does not describe a vnode expression.
#[derive(Debug, Clone, Copy, PartialEq, Eq, Structural)]
pub enum ExprError {
    /// The node is not a vnode call.
    NotVnode,
    /// The node does not return `Int16`.
    NotInt16,
    /// The node's body is not a function call.
    NotFuncCall,
    /// An argument is not a reference to an input column.
    NotInputRef,
}

/// The input column that `child` refers to, if it is a column reference.
pub open spec fn input_ref_index(child: ExprNode) -> Option<usize> {
    if child.expr_type == ExprType::InputRef {
        match child.rex_node {
            RexNode::InputRef(i) => Some(i),
            _ => None,
        }
    } else {
        None
    }
}

/// Every child is a column reference.
pub open spec fn all_input_refs(children: Seq<ExprNode>) -> bool {
    forall|j: int| 0 <= j < children.len() ==> (#[trigger] input_ref_index(children[j])) is Some
}

/// The columns the children refer to, in order.
pub open spec fn input_ref_indices(children: Seq<ExprNode>) -> Seq<usize> {
    children.map_values(|c: ExprNode| input_ref_index(c)->Some_0)
}

/// The vnode of a key encoding, as the expression returns it.
pub open spec fn vnode_i16(key: Seq<u8>) -> i16 {
    vnode_of_spec(key) as i16
}

/// Computes the vnode of each row from the row's distribution key.
#[derive(Debug)]
pub struct VnodeExpression {
    pub dist_key_indices: Vec<usize>,
}

impl VnodeExpression {
    pub fn new(dist_key_indices: Vec<usize>) -> (r: Self)
        ensures
            r.dist_key_indices@ == dist_key_indices@,
    {
        VnodeExpression { dist_key_indices }
    }

    /// Reads a vnode expression from its serialized form: a vnode call that
    /// returns `Int16` and whose arguments all refer to input columns.
    pub fn try_from(prost: &ExprNode) -> (r: Result<VnodeExpression, ExprError>)
        ensures
            prost.expr_type != ExprType::Vnode ==> r == Err::<VnodeExpression, ExprError>(
                ExprError::NotVnode,
            ),
            prost.expr_type == ExprType::Vnode && prost.return_type != DataType::Int16 ==> r
                == Err::<VnodeExpression, ExprError>(ExprError::NotInt16),
            prost.expr_type == ExprType::Vnode && prost.return_type == DataType::Int16 && !(
            prost.rex_node is FuncCall) ==> r == Err::<VnodeExpression, ExprError>(
                ExprError::NotFuncCall,
            ),
            prost.expr_type == ExprType::Vnode && prost.return_type == DataType::Int16
                && prost.rex_node is FuncCall ==> match r {
                Ok(e) => all_input_refs(prost.rex_node->FuncCall_0@)
                    && e.dist_key_indices@ == input_ref_indices(prost.rex_node->FuncCall_0@),
                Err(err) => !all_input_refs(prost.rex_node->FuncCall_0@) && err
                    == ExprError::NotInputRef,
            },
    {
        if prost.expr_type != ExprType::Vnode {
            return Err(ExprError::NotVnode);
        }
        if prost.return_type != DataType::Int16 {
            return Err(ExprError::NotInt16);
        }
        let children = match &prost.rex_node {
            RexNode::FuncCall(children) => children,
            _ => {
                return Err(ExprError::NotFuncCall);
            },
        };
        let mut indices: Vec<usize> = Vec::new();
        let mut j: usize = 0;
        while j < children.len()
            invariant
                prost.expr_type == ExprType::Vnode,
                prost.return_type == DataType::Int16,
                prost.rex_node is FuncCall,
                prost.rex_node->FuncCall_0@ == children@,
                j <= children.len(),
                indices.len() == j,
                forall|t: int| 0 <= t < j ==> (#[trigger] input_ref_index(children@[t])) is Some,
                forall|t: int|
                    0 <= t < j ==> #[trigger] indices@[t] == input_ref_index(children@[t])->Some_0,
            decreases children.len() - j,
        {
            let child = &children[j];
            if child.expr_type != ExprType::InputRef {
                assert(input_ref_index(children@[j as int]) is None);
                return Err(ExprError::NotInputRef);
            }
            match &child.rex_node {
                RexNode::InputRef(i) => {
                    indices.push(*i);
                },
                _ => {
                    assert(input_ref_index(children@[j as int]) is None);
                    return Err(ExprError::NotInputRef);
                },
            }
            j = j + 1;
        }
        assert(indices@ =~= input_ref_indices(children@));
        Ok(VnodeExpression::new(indices))
    }

    pub fn return_type(&self) -> (r: DataType)
        ensures
            r == DataType::Int16,
    {
        DataType::Int16
    }

    /// The vnode of every row of the chunk, visible or not.
    pub fn eval(&self, input: &DataChunk) -> (r: Vec<i16>)
        requires
            input.wf(),
            forall|j: int|
                0 <= j < self.dist_key_indices.len() ==> #[trigger] self.dist_key_indices@[j]
                    < input.columns.len(),
        ensures
            r.len() == input.capacity,
            forall|i: int|
                0 <= i < input.capacity ==> #[trigger] r@[i] == vnode_i16(
                    encode_key(input.row(i), self.dist_key_indices@),
                ),
            forall|i: int| 0 <= i < input.capacity ==> 0 <= #[trigger] r@[i] < VNODE_COUNT,
    {
        let mut out: Vec<i16> = Vec::new();
        let mut i: usize = 0;
        while i < input.capacity
            invariant
                input.wf(),
                forall|j: int|
                    0 <= j < self.dist_key_indices.len() ==> #[trigger] self.dist_key_indices@[j]
                        < input.columns.len(),
                i <= input.capacity,
                out.len() == i,
                forall|t: int|
                    0 <= t < i ==> #[trigger] out@[t] == vnode_i16(
                        encode_key(input.row(t), self.dist_key_indices@),
                    ),
                forall|t: int| 0 <= t < i ==> 0 <= #[trigger] out@[t] < VNODE_COUNT,
            decreases input.capacity - i,
        {
            let key = input.row_key(&self.dist_key_indices, i);
            let v = vnode_of_key(key.as_slice());
            out.push(v as i16);
            i = i + 1;
        }
        out
    }

    /// The vnode of a single row.
    pub fn eval_row(&self, input: &Vec<Datum>) -> (r: i16)
        requires
            forall|j: int|
                0 <= j < self.dist_key_indices.len() ==> #[trigger] self.dist_key_indices@[j]
                    < input.len(),
        ensures
            r == vnode_i16(encode_key(values_of(input@), self.dist_key_indices@)),
            0 <= r < VNODE_COUNT,
    {
        let key = crate::chunk::row_key_of(input, &self.dist_key_indices);
        let v = vnode_of_key(key.as_slice());
        v as i16
    }
}

} // verus!
