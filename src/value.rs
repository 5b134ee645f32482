use vstd::prelude::*;

verus! {

/// A map key: the primitives that can be compared and hashed.
#[derive(Clone, Debug, PartialEq)]
pub enum Key {
    Bool(bool),
    Int(i64),
    Text(String),
}

/// A value passed between the view and the host. A float is held exactly as
/// `mantissa * 10^exponent`. A map keeps its entries in the order given.
#[derive(Debug, PartialEq)]
pub enum Value {
    Bool(bool),
    Int(i64),
    Float(i64, i32),
    Text(String),
    List(Vec<Value>),
    Mapping(Vec<(Key, Value)>),
}

/// The mathematical content of a `Key`.
pub enum KeyModel {
    Bool(bool),
    Int(i64),
    Text(Seq<char>),
}

/// The mathematical content of a `Value`.
pub enum ValueModel {
    Bool(bool),
    Int(i64),
    Float(i64, i32),
    Text(Seq<char>),
    List(Seq<ValueModel>),
    Mapping(Seq<(KeyModel, ValueModel)>),
}

impl View for Key {
    type V = KeyModel;

    open spec fn view(&self) -> KeyModel {
        match self {
            Key::Bool(b) => KeyModel::Bool(*b),
            Key::Int(n) => KeyModel::Int(*n),
            Key::Text(t) => KeyModel::Text(t@),
        }
    }
}

pub open spec fn list_model(s: Seq<Value>) -> Seq<ValueModel>
    decreases s,
{
    if s.len() == 0 {
        Seq::empty()
    } else {
        seq![value_model(s[0])] + list_model(s.subrange(1, s.len() as int))
    }
}

pub open spec fn entries_model(s: Seq<(Key, Value)>) -> Seq<(KeyModel, ValueModel)>
    decreases s,
{
    if s.len() == 0 {
        Seq::empty()
    } else {
        seq![(s[0].0@, value_model(s[0].1))] + entries_model(s.subrange(1, s.len() as int))
    }
}

pub open spec fn value_model(v: Value) -> ValueModel
    decreases v,
{
    match v {
        Value::Bool(b) => ValueModel::Bool(b),
        Value::Int(n) => ValueModel::Int(n),
        Value::Float(m, e) => ValueModel::Float(m, e),
        Value::Text(t) => ValueModel::Text(t@),
        Value::List(items) => ValueModel::List(list_model(items@)),
        Value::Mapping(entries) => ValueModel::Mapping(entries_model(entries@)),
    }
}

impl View for Value {
    type V = ValueModel;

    open spec fn view(&self) -> ValueModel {
        value_model(*self)
    }
}

pub(crate) proof fn lemma_list_model_take(s: Seq<Value>, i: int)
    requires
        0 <= i < s.len(),
    ensures
        list_model(s.take(i + 1)) == list_model(s.take(i)).push(value_model(s[i])),
        list_model(s.take(i)).len() == i,
    decreases i,
{
    if i == 0 {
        assert(s.take(1).subrange(1, 1) =~= Seq::<Value>::empty());
        assert(s.take(1)[0] == s[0]);
        assert(list_model(Seq::<Value>::empty()) =~= Seq::<ValueModel>::empty());
        assert(list_model(s.take(1)) =~= seq![value_model(s[0])]);
    } else {
        let t = s.subrange(1, s.len() as int);
        lemma_list_model_take(t, i - 1);
        assert(s.take(i + 1).subrange(1, i + 1) =~= t.take(i));
        assert(s.take(i).subrange(1, i) =~= t.take(i - 1));
        assert(s.take(i + 1)[0] == s[0]);
        assert(s.take(i)[0] == s[0]);
        assert(list_model(s.take(i + 1)) =~= list_model(s.take(i)).push(value_model(s[i])));
    }
}

pub(crate) proof fn lemma_entries_model_take(s: Seq<(Key, Value)>, i: int)
    requires
        0 <= i < s.len(),
    ensures
        entries_model(s.take(i + 1)) == entries_model(s.take(i)).push((s[i].0@, value_model(s[i].1))),
        entries_model(s.take(i)).len() == i,
    decreases i,
{
    if i == 0 {
        assert(s.take(1).subrange(1, 1) =~= Seq::<(Key, Value)>::empty());
        assert(s.take(1)[0] == s[0]);
        assert(entries_model(Seq::<(Key, Value)>::empty()) =~= Seq::<(KeyModel, ValueModel)>::empty());
        assert(entries_model(s.take(1)) =~= seq![(s[0].0@, value_model(s[0].1))]);
    } else {
        let t = s.subrange(1, s.len() as int);
        lemma_entries_model_take(t, i - 1);
        assert(s.take(i + 1).subrange(1, i + 1) =~= t.take(i));
        assert(s.take(i).subrange(1, i) =~= t.take(i - 1));
        assert(s.take(i + 1)[0] == s[0]);
        assert(s.take(i)[0] == s[0]);
        assert(entries_model(s.take(i + 1)) =~= entries_model(s.take(i)).push(
            (s[i].0@, value_model(s[i].1)),
        ));
    }
}

/// A copy of `k`.
pub fn copy_key(k: &Key) -> (r: Key)
    ensures
        r@ == k@,
{
    match k {
        Key::Bool(b) => Key::Bool(*b),
        Key::Int(n) => Key::Int(*n),
        Key::Text(t) => Key::Text(t.clone()),
    }
}

/// A deep copy of `v`.
pub fn copy_value(v: &Value) -> (r: Value)
    ensures
        r@ == v@,
    decreases v,
{
    match v {
        Value::Bool(b) => Value::Bool(*b),
        Value::Int(n) => Value::Int(*n),
        Value::Float(m, e) => Value::Float(*m, *e),
        Value::Text(t) => Value::Text(t.clone()),
        Value::List(items) => {
            let mut out: Vec<Value> = Vec::new();
            let mut i: usize = 0;
            while i < items.len()
                invariant
                    i <= items@.len(),
                    *v == Value::List(*items),
                    out@.len() == i,
                    list_model(out@) == list_model(items@.take(i as int)),
                decreases items@.len() - i,
            {
                proof {
                    lemma_list_model_take(items@, i as int);
                    vstd::std_specs::vec::axiom_vec_index_decreases(*items, i as int);
                    assert(decreases_to!(*v => (*v)->List_0));
                    assert(decreases_to!(*v => items[i as int]));
                }
                let c = copy_value(&items[i]);
                let ghost before = out@;
                out.push(c);
                proof {
                    assert(out@.take(i as int) =~= before);
                    lemma_list_model_take(out@, i as int);
                    assert(out@.take(i + 1) =~= out@);
                }
                i = i + 1;
            }
            assert(items@.take(items@.len() as int) =~= items@);
            Value::List(out)
        },
        Value::Mapping(entries) => {
            let mut out: Vec<(Key, Value)> = Vec::new();
            let mut i: usize = 0;
            while i < entries.len()
                invariant
                    i <= entries@.len(),
                    *v == Value::Mapping(*entries),
                    out@.len() == i,
                    entries_model(out@) == entries_model(entries@.take(i as int)),
                decreases entries@.len() - i,
            {
                proof {
                    lemma_entries_model_take(entries@, i as int);
                    vstd::std_specs::vec::axiom_vec_index_decreases(*entries, i as int);
                    assert(decreases_to!(*v => (*v)->Mapping_0));
                    assert(decreases_to!(entries[i as int] => entries[i as int].1));
                    assert(decreases_to!(*v => entries[i as int].1));
                }
                let entry = &entries[i];
                let k = copy_key(&entry.0);
                let c = copy_value(&entry.1);
                let ghost before = out@;
                out.push((k, c));
                proof {
                    assert(out@.take(i as int) =~= before);
                    lemma_entries_model_take(out@, i as int);
                    assert(out@.take(i + 1) =~= out@);
                }
                i = i + 1;
            }
            assert(entries@.take(entries@.len() as int) =~= entries@);
            Value::Mapping(out)
        },
    }
}

} // verus!
