use vstd::prelude::*;

verus! {

/// A single concrete value held in a row.
#[derive(Debug, PartialEq)]
pub enum Value {
    Null,
    Bool(bool),
    I64(i64),
    Str(String),
}

/// A row of values, addressed by position.
#[derive(Debug, PartialEq)]
pub struct Row(pub Vec<Value>);

impl Row {
    /// The value at `index`, or `None` when the row is shorter than that.
    pub fn get_value(&self, index: usize) -> (r: Option<&Value>)
        ensures
            match r {
                Some(v) => index < self.0@.len() && *v == self.0@[index as int],
                None => index >= self.0@.len(),
            },
    {
        if index < self.0.len() {
            Some(&self.0[index])
        } else {
            None
        }
    }
}

} // verus!
