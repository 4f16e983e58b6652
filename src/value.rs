use vstd::prelude::*;

verus! {

broadcast use vstd::std_specs::vec::group_vec_axioms, vstd::seq::axiom_seq_index_decreases;

/// An integer as it came off the wire: unsigned markers give `U64`, signed ones `I64`.
#[derive(Copy, Clone, Debug, PartialEq, Eq, Structural)]
pub enum Integer {
    U64(u64),
    I64(i64),
}

/// A floating-point value, held as its IEEE 754 bit pattern.
#[derive(Copy, Clone, Debug, PartialEq, Eq, Structural)]
pub enum Float {
    F32(u32),
    F64(u64),
}

/// One decoded MessagePack value.
#[derive(Debug, PartialEq)]
pub enum Value {
    Nil,
    Boolean(bool),
    Integer(Integer),
    Float(Float),
    String(String),
    Binary(Vec<u8>),
    Array(Vec<Value>),
    Pairs(Vec<(Value, Value)>),
    Ext(i8, Vec<u8>),
}

/// The mathematical model of a `Value`.
pub enum ValueModel {
    Nil,
    Boolean(bool),
    Integer(Integer),
    Float(Float),
    String(Seq<char>),
    Binary(Seq<u8>),
    Array(Seq<ValueModel>),
    Pairs(Seq<(ValueModel, ValueModel)>),
    Ext(i8, Seq<u8>),
}

impl Value {
    pub open spec fn model(self) -> ValueModel
        decreases self,
    {
        match self {
            Value::Nil => ValueModel::Nil,
            Value::Boolean(b) => ValueModel::Boolean(b),
            Value::Integer(i) => ValueModel::Integer(i),
            Value::Float(f) => ValueModel::Float(f),
            Value::String(s) => ValueModel::String(s@),
            Value::Binary(b) => ValueModel::Binary(b@),
            Value::Array(xs) => ValueModel::Array(
                Seq::new(
                    xs@.len(),
                    |i: int|
                        if 0 <= i < xs@.len() {
                            xs@[i].model()
                        } else {
                            ValueModel::Nil
                        },
                ),
            ),
            Value::Pairs(xs) => ValueModel::Pairs(
                Seq::new(
                    xs@.len(),
                    |i: int|
                        if 0 <= i < xs@.len() {
                            (xs@[i].0.model(), xs@[i].1.model())
                        } else {
                            (ValueModel::Nil, ValueModel::Nil)
                        },
                ),
            ),
            Value::Ext(t, d) => ValueModel::Ext(t, d@),
        }
    }
}

} // verus!
