//! Resolved configuration values: the populated instance a resolution pass
//! yields, and its ghost model.

use vstd::prelude::*;

verus! {

broadcast use {vstd::std_specs::vec::axiom_vec_decreases_to_view, vstd::seq::axiom_seq_index_decreases};

/// One populated field: its name and its resolved value.
#[derive(Debug, PartialEq)]
pub struct FieldValue {
    pub name: String,
    pub value: ConfigValue,
}

/// A resolved value. An optional field with no value resolves to `Absent`;
/// one with a value resolves to the value itself.
#[derive(Debug, PartialEq)]
pub enum ConfigValue {
    /// A verbatim string.
    Text(String),
    /// A boolean.
    Boolean(bool),
    /// A base-10 integer.
    Integer(i64),
    /// A nested record, one entry per field in declaration order.
    Record(Vec<FieldValue>),
    /// What the custom string-parse capability yielded.
    Custom(String),
    /// An optional field with no value.
    Absent,
}

/// Ghost model of a resolved value.
pub ghost enum GVal {
    Text(Seq<char>),
    Boolean(bool),
    Integer(int),
    Record(Seq<(Seq<char>, GVal)>),
    Custom(Seq<char>),
    Absent,
}

/// The resolved value `v` is modelled by `g`.
pub open spec fn value_models(v: ConfigValue, g: GVal) -> bool
    decreases v,
{
    match v {
        ConfigValue::Text(s) => g == GVal::Text(s@),
        ConfigValue::Boolean(b) => g == GVal::Boolean(b),
        ConfigValue::Integer(n) => g == GVal::Integer(n as int),
        ConfigValue::Record(fs) => {
            &&& g is Record
            &&& g->Record_0.len() == fs@.len()
            &&& forall|i: int|
                0 <= i < fs@.len() ==> (#[trigger] g->Record_0[i]).0 == fs@[i].name@
                    && value_models(fs@[i].value, g->Record_0[i].1)
        },
        ConfigValue::Custom(s) => g == GVal::Custom(s@),
        ConfigValue::Absent => g == GVal::Absent,
    }
}

} // verus!
