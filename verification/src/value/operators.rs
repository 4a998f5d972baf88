//! Arithmetic composition of graph handles.
//!
//! Combining two handles builds a fresh operator node that owns both
//! operands, so composition fixes the evaluation order: the left operand
//! is always rendered before the right one, and both are always asked for
//! the same length.

use vstd::prelude::*;
use crate::sample::Sample;
use super::{BinKind, Node, Value};

verus! {

impl<T: Sample> Value<T> {
    /// The element-wise sum of the two graphs.
    pub fn add(self, other: Value<T>) -> (r: Value<T>)
        ensures
            r.node == Node::<T>::Bin(BinKind::Add, Box::new(self.node), Box::new(other.node)),
    {
        Value { node: Node::Bin(BinKind::Add, Box::new(self.node), Box::new(other.node)) }
    }

    /// The element-wise difference of the two graphs.
    pub fn sub(self, other: Value<T>) -> (r: Value<T>)
        ensures
            r.node == Node::<T>::Bin(BinKind::Sub, Box::new(self.node), Box::new(other.node)),
    {
        Value { node: Node::Bin(BinKind::Sub, Box::new(self.node), Box::new(other.node)) }
    }

    /// The element-wise product of the two graphs.
    pub fn mul(self, other: Value<T>) -> (r: Value<T>)
        ensures
            r.node == Node::<T>::Bin(BinKind::Mul, Box::new(self.node), Box::new(other.node)),
    {
        Value { node: Node::Bin(BinKind::Mul, Box::new(self.node), Box::new(other.node)) }
    }

    /// The element-wise quotient of the two graphs.
    pub fn div(self, other: Value<T>) -> (r: Value<T>)
        ensures
            r.node == Node::<T>::Bin(BinKind::Div, Box::new(self.node), Box::new(other.node)),
    {
        Value { node: Node::Bin(BinKind::Div, Box::new(self.node), Box::new(other.node)) }
    }

    /// The element-wise negation of the graph.
    pub fn neg(self) -> (r: Value<T>)
        ensures
            r.node == Node::<T>::Neg(Box::new(self.node)),
    {
        Value { node: Node::Neg(Box::new(self.node)) }
    }
}

} // verus!
