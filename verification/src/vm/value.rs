//! The values that Nyoom programs compute with.
use vstd::prelude::*;

verus! {

/// A runtime value: nothing, an integer, or an array of values.
#[derive(Debug)]
pub enum VarContent {
    Nil,
    Int(i32),
    Array(Vec<VarContent>),
}

/// The mathematical model of a runtime value.
pub enum Value {
    Nil,
    Int(i32),
    Array(Seq<Value>),
}

impl View for VarContent {
    type V = Value;

    open spec fn view(&self) -> Value
        decreases self,
    {
        match self {
            VarContent::Nil => Value::Nil,
            VarContent::Int(i) => Value::Int(*i),
            VarContent::Array(v) => Value::Array(views_of_values(v@)),
        }
    }
}

/// The models of a sequence of values.
pub open spec fn views_of_values(s: Seq<VarContent>) -> Seq<Value>
    decreases s,
{
    if s.len() == 0 {
        Seq::empty()
    } else {
        views_of_values(s.drop_last()).push(s.last().view())
    }
}

/// The model of a sequence of values is taken element by element.
pub broadcast proof fn lemma_views_of_values(s: Seq<VarContent>)
    ensures
        #[trigger] views_of_values(s).len() == s.len(),
        forall|i: int| 0 <= i < s.len() ==> views_of_values(s)[i] == s[i]@,
    decreases s.len(),
{
    if s.len() > 0 {
        lemma_views_of_values(s.drop_last());
        assert(views_of_values(s) == views_of_values(s.drop_last()).push(s.last().view()));
    } else {
        assert(views_of_values(s) == Seq::<Value>::empty());
    }
}

/// Two sequences of values with equal models, element by element, have equal models.
pub proof fn lemma_views_of_values_ext(a: Seq<VarContent>, b: Seq<Value>)
    requires
        a.len() == b.len(),
        forall|i: int| 0 <= i < a.len() ==> a[i]@ == b[i],
    ensures
        views_of_values(a) == b,
{
    lemma_views_of_values(a);
    assert(views_of_values(a) =~= b);
}

impl Clone for VarContent {
    /// A deep copy: the copy has the same model.
    fn clone(&self) -> (r: Self)
        ensures
            r@ == self@,
        decreases self,
    {
        match self {
            VarContent::Nil => VarContent::Nil,
            VarContent::Int(i) => VarContent::Int(*i),
            VarContent::Array(v) => {
                let mut out: Vec<VarContent> = Vec::new();
                let mut i: usize = 0;
                while i < v.len()
                    invariant
                        i <= v.len(),
                        *self == VarContent::Array(*v),
                        out@.len() == i,
                        forall|j: int| 0 <= j < i ==> out@[j]@ == v@[j]@,
                    decreases v.len() - i,
                {
                    assert(decreases_to!(*self => (*self)->Array_0));
                    assert(decreases_to!((*self)->Array_0 => (*self)->Array_0@));
                    assert(decreases_to!((*self)->Array_0@ => v@[i as int]));
                    let c = v[i].clone();
                    out.push(c);
                    i = i + 1;
                }
                proof {
                    lemma_views_of_values(v@);
                    lemma_views_of_values_ext(out@, views_of_values(v@));
                }
                VarContent::Array(out)
            },
        }
    }
}

} // verus!
