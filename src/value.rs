//! The values a variable can hold.
use vstd::prelude::*;

verus! {

/// A user-defined function: its formal parameters and the statements of its body.
pub struct Function {
    pub params: Vec<String>,
    pub body: Vec<String>,
}

/// What a name is bound to. All four kinds share one namespace.
pub enum Value {
    Str(String),
    Array(Vec<String>),
    Function(Function),
    Alias(String),
}

/// The mathematical meaning of a [`Value`].
pub enum ValueModel {
    Str(Seq<char>),
    Array(Seq<Seq<char>>),
    Function(Seq<Seq<char>>, Seq<Seq<char>>),
    Alias(Seq<char>),
}

impl View for Value {
    type V = ValueModel;

    open spec fn view(&self) -> ValueModel {
        match self {
            Value::Str(s) => ValueModel::Str(s@),
            Value::Array(a) => ValueModel::Array(views(a@)),
            Value::Function(f) => ValueModel::Function(views(f.params@), views(f.body@)),
            Value::Alias(s) => ValueModel::Alias(s@),
        }
    }
}

/// The characters of each string of a list.
pub open spec fn views(v: Seq<String>) -> Seq<Seq<char>> {
    v.map_values(|s: String| s@)
}

/// A copy of a list of strings.
pub fn copy_strings(v: &Vec<String>) -> (r: Vec<String>)
    ensures
        views(r@) == views(v@),
{
    let mut r: Vec<String> = Vec::new();
    let mut i: usize = 0;
    while i < v.len()
        invariant
            i <= v.len(),
            views(r@) == views(v@).subrange(0, i as int),
        decreases v.len() - i,
    {
        let s = v[i].clone();
        let ghost before = r@;
        r.push(s);
        assert(r@ == before.push(s));
        assert(views(r@) =~= views(before).push(s@));
        assert(views(r@) =~= views(v@).subrange(0, i + 1));
        i += 1;
    }
    assert(views(v@).subrange(0, v.len() as int) =~= views(v@));
    r
}

impl Function {
    /// A copy of this function.
    pub fn copy(&self) -> (r: Function)
        ensures
            views(r.params@) == views(self.params@),
            views(r.body@) == views(self.body@),
    {
        Function { params: copy_strings(&self.params), body: copy_strings(&self.body) }
    }
}

impl Value {
    /// A copy of this value.
    pub fn copy(&self) -> (r: Value)
        ensures
            r@ == self@,
    {
        match self {
            Value::Str(s) => Value::Str(s.clone()),
            Value::Array(a) => Value::Array(copy_strings(a)),
            Value::Function(f) => Value::Function(f.copy()),
            Value::Alias(s) => Value::Alias(s.clone()),
        }
    }
}

} // verus!
