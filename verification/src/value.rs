//! The typed values held by the variable store: 64-bit signed integers,
//! booleans and strings.
use vstd::prelude::*;

verus! {

/// A value stored under a variable name, produced by effect application.
#[derive(Debug)]
pub enum StoreValue {
    Int(i64),
    Bool(bool),
    Str(String),
}

/// The mathematical content of a `StoreValue`.
pub enum ValueView {
    Int(int),
    Bool(bool),
    Str(Seq<char>),
}

impl View for StoreValue {
    type V = ValueView;

    open spec fn view(&self) -> ValueView {
        match self {
            StoreValue::Int(n) => ValueView::Int(*n as int),
            StoreValue::Bool(b) => ValueView::Bool(*b),
            StoreValue::Str(s) => ValueView::Str(s@),
        }
    }
}

impl StoreValue {
    /// The integer held by the value, if it is an integer.
    pub fn as_i64(&self) -> (r: Option<i64>)
        ensures
            match r {
                Some(n) => self@ == ValueView::Int(n as int),
                None => !(self@ is Int),
            },
    {
        match self {
            StoreValue::Int(n) => Some(*n),
            _ => None,
        }
    }

}

} // verus!
