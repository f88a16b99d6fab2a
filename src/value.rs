use vstd::prelude::*;

verus! {

broadcast use vstd::std_specs::vec::axiom_vec_index_decreases;

/// The mathematical shape of a document node.
pub enum Json {
    Undefined,
    Null,
    Bool(bool),
    Number(Seq<char>),
    Str(Seq<char>),
    Object(Seq<(Seq<char>, Json)>),
}

/// A host value as the decoder sees it: an object maps string keys to
/// further values (in insertion order); every other value is a primitive.
/// A number keeps the text the host gives for it.
#[derive(Debug, PartialEq)]
pub enum Value {
    Undefined,
    Null,
    Bool(bool),
    Number(String),
    Str(String),
    Object(Vec<(String, Value)>),
}

/// Index of the first entry stored under `key`, if any.
pub open spec fn key_index(es: Seq<(Seq<char>, Json)>, key: Seq<char>) -> Option<int> {
    if exists|j: int| 0 <= j < es.len() && (#[trigger] es[j]).0 == key {
        Some(
            choose|j: int|
                0 <= j < es.len() && es[j].0 == key && forall|k: int|
                    0 <= k < j ==> (#[trigger] es[k]).0 != key,
        )
    } else {
        None
    }
}

/// What a lookup of `key` finds: the value of its first entry.
pub open spec fn lookup(es: Seq<(Seq<char>, Json)>, key: Seq<char>) -> Option<Json> {
    match key_index(es, key) {
        Some(j) => Some(es[j].1),
        None => None,
    }
}

pub open spec fn entries_model(es: Seq<(String, Value)>) -> Seq<(Seq<char>, Json)> {
    Seq::new(es.len(), |i: int| (es[i].0@, es[i].1.model()))
}

/// The first index that holds `key` is the one a scan finds.
pub proof fn lemma_key_index_at(es: Seq<(Seq<char>, Json)>, key: Seq<char>, i: int)
    requires
        0 <= i < es.len(),
        es[i].0 == key,
        forall|k: int| 0 <= k < i ==> (#[trigger] es[k]).0 != key,
    ensures
        key_index(es, key) == Some(i),
{
    assert(es[i].0 == key);
    let j = choose|j: int|
        0 <= j < es.len() && es[j].0 == key && forall|k: int| 0 <= k < j ==> (#[trigger] es[k]).0 != key;
    if j < i {
        assert(es[j].0 != key);
    } else if j > i {
        assert(es[i].0 != key);
    }
}

impl Value {
    pub open spec fn model(&self) -> Json
        decreases self,
    {
        match self {
            Value::Undefined => Json::Undefined,
            Value::Null => Json::Null,
            Value::Bool(b) => Json::Bool(*b),
            Value::Number(s) => Json::Number(s@),
            Value::Str(s) => Json::Str(s@),
            Value::Object(es) => Json::Object(
                Seq::new(
                    es.len() as nat,
                    |i: int|
                        if 0 <= i < es.len() {
                            (es[i].0@, es[i].1.model())
                        } else {
                            (Seq::empty(), Json::Undefined)
                        },
                ),
            ),
        }
    }

    /// A copy of the node, all the way down.
    pub fn duplicate(&self) -> (r: Value)
        ensures
            r.model() == self.model(),
        decreases self,
    {
        match self {
            Value::Undefined => Value::Undefined,
            Value::Null => Value::Null,
            Value::Bool(b) => Value::Bool(*b),
            Value::Number(s) => Value::Number(s.clone()),
            Value::Str(s) => Value::Str(s.clone()),
            Value::Object(es) => {
                assert(decreases_to!(*self => *es));
                let mut out: Vec<(String, Value)> = Vec::new();
                let mut i: usize = 0;
                while i < es.len()
                    invariant
                        decreases_to!(*self => *es),
                        i <= es.len(),
                        out.len() == i,
                        forall|k: int|
                            0 <= k < i ==> (#[trigger] out@[k]).0@ == es@[k].0@ && out@[k].1.model()
                                == es@[k].1.model(),
                    decreases es.len() - i,
                {
                    proof {
                        assert(decreases_to!(*es => es[i as int]));
                        assert(decreases_to!(es[i as int] => es[i as int].1));
                        assert(decreases_to!(*self => es[i as int].1));
                    }
                    let k = es[i].0.clone();
                    let v = es[i].1.duplicate();
                    out.push((k, v));
                    i = i + 1;
                }
                let r = Value::Object(out);
                assert(r.model() == self.model()) by {
                    if let Json::Object(a) = r.model() {
                        if let Json::Object(b) = self.model() {
                            assert(a =~= b);
                        }
                    }
                }
                r
            },
        }
    }

    pub fn is_object(&self) -> (r: bool)
        ensures
            r == (self.model() is Object),
    {
        match self {
            Value::Object(_) => true,
            _ => false,
        }
    }

    pub fn is_undefined(&self) -> (r: bool)
        ensures
            r == (self.model() is Undefined),
    {
        match self {
            Value::Undefined => true,
            _ => false,
        }
    }

    /// The text of a string value.
    pub fn as_string(&self) -> (r: Option<String>)
        ensures
            match self.model() {
                Json::Str(s) => r is Some && r->0@ == s,
                _ => r is None,
            },
    {
        match self {
            Value::Str(s) => Some(s.clone()),
            _ => None,
        }
    }

    /// Reads property `key`: the value of its first entry, or `Undefined`
    /// where there is none (or `self` is no object).
    pub fn get_field(&self, key: &str) -> (r: Value)
        ensures
            match self.model() {
                Json::Object(es) => match lookup(es, key@) {
                    Some(v) => r.model() == v,
                    None => r.model() == Json::Undefined,
                },
                _ => r.model() == Json::Undefined,
            },
    {
        match self {
            Value::Object(es) => match find_key(es, key) {
                Some(i) => {
                    let r = es[i].1.duplicate();
                    proof {
                        let m = entries_model(es@);
                        lemma_object_model(*es);
                        assert(self.model() == Json::Object(m));
                        assert(key_index(m, key@) == Some(i as int));
                        assert(lookup(m, key@) == Some(m[i as int].1));
                        assert(m[i as int].1 == es@[i as int].1.model());
                    }
                    r
                },
                None => {
                    proof {
                        lemma_object_model(*es);
                    }
                    Value::Undefined
                },
            },
            _ => Value::Undefined,
        }
    }

    /// Whether `self` is an object with an entry under `key`.
    pub fn has_field(&self, key: &str) -> (r: bool)
        ensures
            r == (self.model() is Object && lookup(self.model()->Object_0, key@) is Some),
    {
        match self {
            Value::Object(es) => {
                proof {
                    lemma_object_model(*es);
                }
                find_key(es, key).is_some()
            },
            _ => false,
        }
    }
}

/// The model of an object's entries matches the entries' own models.
pub proof fn lemma_object_model(es: Vec<(String, Value)>)
    ensures
        Value::Object(es).model() == Json::Object(entries_model(es@)),
{
    if let Json::Object(m) = Value::Object(es).model() {
        assert(m =~= entries_model(es@));
    }
}

/// Scans the entries for the first one stored under `key`.
fn find_key(es: &Vec<(String, Value)>, key: &str) -> (r: Option<usize>)
    ensures
        match r {
            Some(i) => i < es.len() && key_index(entries_model(es@), key@) == Some(i as int),
            None => key_index(entries_model(es@), key@) is None,
        },
{
    let ghost m = entries_model(es@);
    let wanted: String = key.to_owned();
    let mut i: usize = 0;
    while i < es.len()
        invariant
            m == entries_model(es@),
            wanted@ == key@,
            i <= es.len(),
            forall|k: int| 0 <= k < i ==> (#[trigger] m[k]).0 != key@,
        decreases es.len() - i,
    {
        if es[i].0 == wanted {
            proof {
                lemma_key_index_at(m, key@, i as int);
            }
            return Some(i);
        }
        i = i + 1;
    }
    proof {
        assert forall|j: int| 0 <= j < m.len() implies (#[trigger] m[j]).0 != key@ by {}
    }
    None
}

} // verus!
