//! Fractal families, and selection of a variant by its number.

use vstd::prelude::*;

verus! {

/// A selector number that names no variant.
#[derive(Clone, Copy, PartialEq, Eq, Structural, Debug)]
pub struct UnknownSelector {
    pub id: usize,
}

/// Fractal family to draw.
#[derive(Clone, Copy, PartialEq, Eq, Structural, Debug)]
pub enum Method {
    Debug,
    Divergence,
    Roots,
}

impl Method {
    /// Every family, in selector order.
    pub fn list() -> (r: Vec<Method>)
        ensures
            r@ == seq![Method::Debug, Method::Divergence, Method::Roots],
    {
        vec![Method::Debug, Method::Divergence, Method::Roots]
    }

    /// Entry of a selection list: the family with its number.
    pub fn to_static_str(&self) -> (r: &'static str)
        ensures
            r@ == (match *self {
                Method::Debug => "0. Debug."@,
                Method::Divergence => "1. Divergence."@,
                Method::Roots => "2. Roots."@,
            }),
    {
        proof {
            reveal_strlit("0. Debug.");
            reveal_strlit("1. Divergence.");
            reveal_strlit("2. Roots.");
        }
        match self {
            Method::Debug => "0. Debug.",
            Method::Divergence => "1. Divergence.",
            Method::Roots => "2. Roots.",
        }
    }

    /// Display name of the family.
    pub fn name(&self) -> (r: &'static str)
        ensures
            r@ == (match *self {
                Method::Debug => "Method::Debug"@,
                Method::Divergence => "Method::Divergence"@,
                Method::Roots => "Method::Roots"@,
            }),
    {
        proof {
            reveal_strlit("Method::Debug");
            reveal_strlit("Method::Divergence");
            reveal_strlit("Method::Roots");
        }
        match self {
            Method::Debug => "Method::Debug",
            Method::Divergence => "Method::Divergence",
            Method::Roots => "Method::Roots",
        }
    }

    /// The family at position `id` of `list`, or an error naming `id`.
    pub fn from_id(id: usize) -> (r: Result<Method, UnknownSelector>)
        ensures
            id < 3 ==> r == Ok::<Method, UnknownSelector>(
                seq![Method::Debug, Method::Divergence, Method::Roots][id as int],
            ),
            id >= 3 ==> r == Err::<Method, UnknownSelector>(UnknownSelector { id }),
    {
        if id == 0 {
            Ok(Method::Debug)
        } else if id == 1 {
            Ok(Method::Divergence)
        } else if id == 2 {
            Ok(Method::Roots)
        } else {
            Err(UnknownSelector { id })
        }
    }
}

/// Settings kept across frames: the selected fractal family, by number.
#[derive(Clone, Copy, PartialEq, Eq, Structural, Debug)]
pub struct Settings {
    pub method_id: usize,
}

impl Settings {
    /// Settings that select the first family.
    pub fn new() -> (r: Settings)
        ensures
            r.method_id == 0,
    {
        Settings { method_id: 0 }
    }

    /// The selected family, or an error naming an unknown selector.
    pub fn method(&self) -> (r: Result<Method, UnknownSelector>)
        ensures
            self.method_id < 3 ==> r is Ok,
            self.method_id >= 3 ==> r == Err::<Method, UnknownSelector>(UnknownSelector { id: self.method_id }),
            r matches Ok(m) ==> m == seq![Method::Debug, Method::Divergence, Method::Roots][self.method_id as int],
    {
        Method::from_id(self.method_id)
    }
}

} // verus!
