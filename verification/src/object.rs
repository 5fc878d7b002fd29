//! Runtime values of the evaluator and their mathematical view.
use vstd::prelude::*;
use crate::ast::{Statement, StmtV, stmts_view, clone_statements, clone_strings, lemma_stmts_view_index};

verus! {

/// A runtime value. `String` is a name reference, produced when an identifier
/// is evaluated; `Return` is the control-flow wrapper that unwinds a function
/// body; `Array` is the matrix value, held as rows.
#[derive(Debug, PartialEq)]
pub enum Object {
    Null,
    Integer(i64),
    String(String),
    Boolean(bool),
    Return(Box<Object>),
    Function(String, Vec<String>, Vec<Statement>),
    Array(Vec<Vec<Object>>),
}

/// Mathematical view of a runtime value.
#[verifier::ext_equal]
pub enum ObjV {
    Null,
    Integer(int),
    String(Seq<char>),
    Boolean(bool),
    Return(Box<ObjV>),
    Function(Seq<char>, Seq<Seq<char>>, Seq<StmtV>),
    Array(Seq<Seq<ObjV>>),
}

pub open spec fn obj_view(o: Object) -> ObjV
    decreases o,
{
    match o {
        Object::Null => ObjV::Null,
        Object::Integer(n) => ObjV::Integer(n as int),
        Object::String(s) => ObjV::String(s@),
        Object::Boolean(b) => ObjV::Boolean(b),
        Object::Return(inner) => ObjV::Return(Box::new(obj_view(*inner))),
        Object::Function(name, params, body) => ObjV::Function(
            name@,
            params@.map_values(|p: String| p@),
            stmts_view(body@),
        ),
        Object::Array(rows) => ObjV::Array(obj_rows_view(rows@)),
    }
}

pub open spec fn objs_view(v: Seq<Object>) -> Seq<ObjV>
    decreases v,
{
    if v.len() == 0 {
        Seq::empty()
    } else {
        objs_view(v.drop_last()).push(obj_view(v.last()))
    }
}

pub open spec fn obj_rows_view(v: Seq<Vec<Object>>) -> Seq<Seq<ObjV>>
    decreases v,
{
    if v.len() == 0 {
        Seq::empty()
    } else {
        obj_rows_view(v.drop_last()).push(objs_view(v.last()@))
    }
}

impl View for Object {
    type V = ObjV;

    open spec fn view(&self) -> ObjV {
        obj_view(*self)
    }
}

/// The length of an object sequence's view equals the sequence's length,
/// and each element's view stands at its own index.
pub broadcast proof fn lemma_objs_view_index(v: Seq<Object>)
    ensures
        #[trigger] objs_view(v).len() == v.len(),
        forall|i: int| 0 <= i < v.len() ==> objs_view(v)[i] == obj_view(v[i]),
    decreases v,
{
    if v.len() > 0 {
        lemma_objs_view_index(v.drop_last());
        assert forall|i: int| 0 <= i < v.len() implies objs_view(v)[i] == obj_view(v[i]) by {
            if i < v.len() - 1 {
                assert(v.drop_last()[i] == v[i]);
            }
        }
    }
}

/// The same, for the rows of a matrix value.
pub broadcast proof fn lemma_obj_rows_view_index(v: Seq<Vec<Object>>)
    ensures
        #[trigger] obj_rows_view(v).len() == v.len(),
        forall|i: int| 0 <= i < v.len() ==> obj_rows_view(v)[i] == objs_view(v[i]@),
    decreases v,
{
    if v.len() > 0 {
        lemma_obj_rows_view_index(v.drop_last());
        assert forall|i: int| 0 <= i < v.len() implies obj_rows_view(v)[i] == objs_view(v[i]@) by {
            if i < v.len() - 1 {
                assert(v.drop_last()[i] == v[i]);
            }
        }
    }
}

/// Appending to a sequence appends to its view.
pub proof fn lemma_objs_view_push(v: Seq<Object>, x: Object)
    ensures
        objs_view(v.push(x)) == objs_view(v).push(obj_view(x)),
{
    assert(v.push(x).drop_last() =~= v);
    assert(v.push(x).last() == x);
}

/// The same, for the rows of a matrix value.
pub proof fn lemma_obj_rows_view_push(v: Seq<Vec<Object>>, x: Vec<Object>)
    ensures
        obj_rows_view(v.push(x)) == obj_rows_view(v).push(objs_view(x@)),
{
    assert(v.push(x).drop_last() =~= v);
    assert(v.push(x).last() == x);
}

/// Copies a runtime value; the copy has the same view.
pub fn clone_object(o: &Object) -> (r: Object)
    ensures
        r@ == o@,
    decreases *o,
{
    match o {
        Object::Null => Object::Null,
        Object::Integer(n) => Object::Integer(*n),
        Object::String(s) => Object::String(s.clone()),
        Object::Boolean(b) => Object::Boolean(*b),
        Object::Return(inner) => Object::Return(Box::new(clone_object(&**inner))),
        Object::Function(name, params, body) => Object::Function(
            name.clone(),
            clone_strings(params),
            clone_statements(body),
        ),
        Object::Array(rows) => Object::Array(clone_object_rows(rows)),
    }
}

/// Copies a sequence of runtime values; the copy has the same view.
pub fn clone_objects(v: &Vec<Object>) -> (r: Vec<Object>)
    ensures
        r@.len() == v@.len(),
        objs_view(r@) == objs_view(v@),
        forall|i: int| 0 <= i < v@.len() ==> #[trigger] r@[i]@ == v@[i]@,
    decreases v@,
{
    let mut r: Vec<Object> = Vec::new();
    let mut i: usize = 0;
    while i < v.len()
        invariant
            i <= v@.len(),
            r@.len() == i,
            forall|j: int| 0 <= j < i ==> #[trigger] r@[j]@ == v@[j]@,
        decreases v@.len() - i,
    {
        let c = clone_object(&v[i]);
        r.push(c);
        i = i + 1;
    }
    proof {
        lemma_objs_view_index(r@);
        lemma_objs_view_index(v@);
        assert forall|j: int| 0 <= j < v@.len() implies objs_view(r@)[j] == objs_view(v@)[j] by {
            assert(r@[j]@ == v@[j]@);
        }
        assert(objs_view(r@) =~= objs_view(v@));
    }
    r
}

/// Copies the rows of a matrix value; the copy has the same view.
pub fn clone_object_rows(v: &Vec<Vec<Object>>) -> (r: Vec<Vec<Object>>)
    ensures
        r@.len() == v@.len(),
        obj_rows_view(r@) == obj_rows_view(v@),
    decreases v@,
{
    let mut r: Vec<Vec<Object>> = Vec::new();
    let mut i: usize = 0;
    while i < v.len()
        invariant
            i <= v@.len(),
            r@.len() == i,
            forall|j: int| 0 <= j < i ==> #[trigger] objs_view(r@[j]@) == objs_view(v@[j]@),
        decreases v@.len() - i,
    {
        let c = clone_objects(&v[i]);
        r.push(c);
        i = i + 1;
    }
    proof {
        lemma_obj_rows_view_index(r@);
        lemma_obj_rows_view_index(v@);
        assert forall|j: int| 0 <= j < v@.len() implies obj_rows_view(r@)[j] == obj_rows_view(v@)[j] by {
            assert(objs_view(r@[j]@) == objs_view(v@[j]@));
        }
        assert(obj_rows_view(r@) =~= obj_rows_view(v@));
    }
    r
}

} // verus!
