//! Typed configuration entries ("inputs") attached to a source.
//!
//! A source exposes an ordered list of these descriptors; the current values
//! are persisted per source and re-applied when the source is loaded again.

use vstd::prelude::*;

verus! {

/// One typed input descriptor together with its current value.
///
/// `state` is `None` while the owner has not chosen a value; the instance
/// then falls back to its own default.
#[derive(Clone, Debug, PartialEq, Eq)]
pub enum Input {
    /// Free-form text, e.g. a username.
    Text { name: String, state: Option<String> },
    /// A boolean switch.
    Checkbox { name: String, state: Option<bool> },
    /// A single choice out of a fixed list; `state` indexes `values`.
    Select { name: String, values: Vec<String>, state: Option<i64> },
}

/// The mathematical shape of an [`Input`].
pub enum InputV {
    Text { name: Seq<char>, state: Option<Seq<char>> },
    Checkbox { name: Seq<char>, state: Option<bool> },
    Select { name: Seq<char>, values: Seq<Seq<char>>, state: Option<int> },
}

impl View for Input {
    type V = InputV;

    open spec fn view(&self) -> InputV {
        match self {
            Input::Text { name, state } => InputV::Text {
                name: name@,
                state: match state {
                    Some(s) => Some(s@),
                    None => None,
                },
            },
            Input::Checkbox { name, state } => InputV::Checkbox { name: name@, state: *state },
            Input::Select { name, values, state } => InputV::Select {
                name: name@,
                values: values@.map_values(|v: String| v@),
                state: match state {
                    Some(i) => Some(*i as int),
                    None => None,
                },
            },
        }
    }
}

/// The views of a whole preference list.
pub open spec fn inputs_view(inputs: Seq<Input>) -> Seq<InputV> {
    inputs.map_values(|inp: Input| inp@)
}

/// A fresh copy of a preference list, equal view by view.
pub fn clone_inputs(v: &Vec<Input>) -> (r: Vec<Input>)
    ensures
        inputs_view(r@) == inputs_view(v@),
{
    let n = v.len();
    let mut r: Vec<Input> = Vec::new();
    let mut i: usize = 0;
    while i < n
        invariant
            i <= n,
            n == v@.len(),
            r@.len() == i,
            forall|j: int| 0 <= j < i ==> (#[trigger] r@[j])@ == v@[j]@,
        decreases n - i,
    {
        r.push(v[i].snapshot());
        i += 1;
    }
    proof {
        assert(inputs_view(r@) =~= inputs_view(v@));
    }
    r
}

impl Input {
    /// A fresh copy whose view is the same.
    pub fn snapshot(&self) -> (r: Input)
        ensures
            r@ == self@,
    {
        match self {
            Input::Text { name, state } => Input::Text {
                name: name.clone(),
                state: match state {
                    Some(t) => Some(t.clone()),
                    None => None,
                },
            },
            Input::Checkbox { name, state } => Input::Checkbox { name: name.clone(), state: *state },
            Input::Select { name, values, state } => Input::Select {
                name: name.clone(),
                values: crate::strutil::clone_strings(values),
                state: *state,
            },
        }
    }
}

} // verus!
