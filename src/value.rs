//! The constant model: inline scalars and shared heap objects.
use std::rc::Rc;
use vstd::prelude::*;

verus! {

/// What a heap object holds, as mathematical values.
pub enum ObjectModel {
    Str(Seq<char>),
    Function { identifier: Seq<char>, param_count: u8, code: Seq<u8> },
}

/// What a constant holds, as mathematical values.
pub enum ValueModel {
    Int(i32),
    Bool(bool),
    Object(ObjectModel),
}

/// A heap-allocated constant.
#[derive(Debug, Clone)]
pub enum Object {
    String(String),
    Function { identifier: String, param_count: u8, code: Vec<u8> },
}

/// A constant: a scalar held inline, or a handle to an object that it
/// shares with the pool it was registered in.
#[derive(Debug, Clone)]
pub enum Value {
    Int(i32),
    Bool(bool),
    Object(Rc<Object>),
}

/// Every object created while building, loading or saving a set of
/// constants, in creation order. Entries are only ever appended.
pub type ObjectPool = Vec<Rc<Object>>;

impl View for Object {
    type V = ObjectModel;

    open spec fn view(&self) -> ObjectModel {
        match self {
            Object::String(s) => ObjectModel::Str(s@),
            Object::Function { identifier, param_count, code } => ObjectModel::Function {
                identifier: identifier@,
                param_count: *param_count,
                code: code@,
            },
        }
    }
}

impl View for Value {
    type V = ValueModel;

    open spec fn view(&self) -> ValueModel {
        match self {
            Value::Int(i) => ValueModel::Int(*i),
            Value::Bool(b) => ValueModel::Bool(*b),
            Value::Object(o) => ValueModel::Object((**o)@),
        }
    }
}

/// The objects of a pool, as models.
pub open spec fn pool_view(pool: Seq<Rc<Object>>) -> Seq<ObjectModel> {
    pool.map_values(|o: Rc<Object>| (*o)@)
}

/// The models of a sequence of values.
pub open spec fn values_view(values: Seq<Value>) -> Seq<ValueModel> {
    values.map_values(|v: Value| v@)
}

/// The wire tag of an object kind.
pub open spec fn object_type_id(o: ObjectModel) -> u8 {
    match o {
        ObjectModel::Str(_) => 2,
        ObjectModel::Function { .. } => 3,
    }
}

/// The wire tag of a value.
pub open spec fn value_type_id(v: ValueModel) -> u8 {
    match v {
        ValueModel::Int(_) => 0,
        ValueModel::Bool(_) => 1,
        ValueModel::Object(o) => object_type_id(o),
    }
}

/// Registers `obj` in `pool` and hands back a value sharing it.
pub(crate) fn register(obj: Object, pool: &mut ObjectPool) -> (r: Value)
    ensures
        r@ == ValueModel::Object(obj@),
        pool_view(final(pool)@) == pool_view(old(pool)@).push(obj@),
{
    let handle = Rc::new(obj);
    pool.push(Rc::clone(&handle));
    assert(pool_view(pool@) =~= pool_view(old(pool)@).push(obj@));
    Value::Object(handle)
}

impl Object {
    /// The one-byte tag that identifies this kind of object on the wire.
    pub fn to_type_id(&self) -> (r: u8)
        ensures
            r == object_type_id(self@),
            r == 2 || r == 3,
    {
        match self {
            Object::String(_) => 2,
            Object::Function { .. } => 3,
        }
    }
}

impl Value {
    /// The one-byte tag that identifies this kind of value on the wire.
    pub fn to_type_id(&self) -> (r: u8)
        ensures
            r == value_type_id(self@),
            r <= 3,
    {
        match self {
            Value::Int(_) => 0,
            Value::Bool(_) => 1,
            Value::Object(o) => o.to_type_id(),
        }
    }

    /// A string constant; its object is appended to `pool`.
    pub fn from_string(s: &str, pool: &mut ObjectPool) -> (r: Value)
        ensures
            r@ == ValueModel::Object(ObjectModel::Str(s@)),
            pool_view(final(pool)@) == pool_view(old(pool)@).push(ObjectModel::Str(s@)),
    {
        register(Object::String(s.to_owned()), pool)
    }

    /// A function constant with a copy of `code` as its body; its object is
    /// appended to `pool`.
    pub fn from_function_literal(id: &str, param_count: u8, code: &[u8], pool: &mut ObjectPool) -> (r:
        Value)
        ensures
            ({
                let o = ObjectModel::Function { identifier: id@, param_count, code: code@ };
                &&& r@ == ValueModel::Object(o)
                &&& pool_view(final(pool)@) == pool_view(old(pool)@).push(o)
            }),
    {
        let body = vstd::slice::slice_to_vec(code);
        register(Object::Function { identifier: id.to_owned(), param_count, code: body }, pool)
    }
}

} // verus!
