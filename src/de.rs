use vstd::prelude::*;

pub mod attribute_value;

use crate::value::{lookup, Json, Value};
use crate::{Error, Failure};

verus! {

/// The node stored under `key`, where `node` is an object holding one.
pub open spec fn field_node(node: Json, key: Seq<char>) -> Option<Json> {
    match node {
        Json::Object(es) => lookup(es, key),
        _ => None,
    }
}

/// The first declared field from `from` on that the document holds.
pub open spec fn next_present(node: Json, fields: Seq<&'static str>, from: int) -> Option<int>
    decreases fields.len() - from,
{
    if from < 0 || from >= fields.len() {
        None
    } else if field_node(node, fields[from]@) is Some {
        Some(from)
    } else {
        next_present(node, fields, from + 1)
    }
}

/// Decodes a whole document: an object of attribute values, one per field.
pub struct Deserializer {
    value: Value,
}

impl View for Deserializer {
    type V = Json;

    closed spec fn view(&self) -> Json {
        self.value.model()
    }
}

impl Deserializer {
    pub fn from(value: Value) -> (r: Self)
        ensures
            r@ == value.model(),
    {
        Deserializer { value }
    }

    /// Starts decoding a struct with the given fields; the document must be
    /// an object.
    pub fn deserialize_struct(self, fields: &'static [&'static str]) -> (r: Result<
        ObjectAccess,
        Error,
    >)
        ensures
            match r {
                Ok(a) => self@ is Object && a.wf() && a.document() == self@ && a.fields() == fields@
                    && a.position() == 0 && a.pending() is None,
                Err(e) => !(self@ is Object) && e.model() == Failure::UnsupportedType,
            },
    {
        if self.value.is_object() {
            Ok(ObjectAccess::new(self.value, fields))
        } else {
            Err(Error::UnsupportedType)
        }
    }
}

/// Walks the declared fields of a struct over an object, handing out the
/// node of each field that the object holds.
pub struct ObjectAccess {
    obj: Value,
    fields: &'static [&'static str],
    pos: usize,
    next_value: Option<attribute_value::Deserializer>,
}

impl ObjectAccess {
    pub closed spec fn document(&self) -> Json {
        self.obj.model()
    }

    pub closed spec fn fields(&self) -> Seq<&'static str> {
        self.fields@
    }

    /// How many declared fields have been walked past.
    pub closed spec fn position(&self) -> int {
        self.pos as int
    }

    /// The node of the field last handed out, until its value is taken.
    pub closed spec fn pending(&self) -> Option<Json> {
        match self.next_value {
            Some(d) => Some(d@),
            None => None,
        }
    }

    pub closed spec fn wf(&self) -> bool {
        self.pos <= self.fields@.len()
    }

    /// A well-formed walk stands within its declared fields.
    pub proof fn lemma_position_in_range(&self)
        requires
            self.wf(),
        ensures
            0 <= self.position() <= self.fields().len(),
    {
    }

    pub fn new(obj: Value, fields: &'static [&'static str]) -> (r: Self)
        ensures
            r.wf(),
            r.document() == obj.model(),
            r.fields() == fields@,
            r.position() == 0,
            r.pending() is None,
    {
        ObjectAccess { obj, fields, pos: 0, next_value: None }
    }

    /// Moves to the next declared field that the object holds, keeps its
    /// node for `next_value`, and returns its name; fields that the object
    /// lacks are passed over. `None` once the fields run out.
    pub fn next_key(&mut self) -> (r: Option<&'static str>)
        requires
            old(self).wf(),
            old(self).pending() is None,
        ensures
            final(self).wf(),
            final(self).document() == old(self).document(),
            final(self).fields() == old(self).fields(),
            match next_present(old(self).document(), old(self).fields(), old(self).position()) {
                Some(j) => r == Some(old(self).fields()[j]) && final(self).position() == j + 1
                    && final(self).pending() == field_node(old(self).document(), old(self).fields()[j]@),
                None => r is None && final(self).position() == old(self).fields().len()
                    && final(self).pending() is None,
            },
    {
        while self.pos < self.fields.len()
            invariant
                self.wf(),
                self.obj == old(self).obj,
                self.fields == old(self).fields,
                self.next_value == old(self).next_value,
                old(self).pos <= self.pos,
                next_present(old(self).document(), old(self).fields(), old(self).position())
                    == next_present(self.document(), self.fields(), self.position()),
            decreases self.fields@.len() - self.pos,
        {
            let field = self.fields[self.pos];
            let next_value = self.obj.get_field(field);
            // An `Undefined` read may still be a present entry: ask again.
            let is_missing_field = next_value.is_undefined() && !self.obj.has_field(field);
            self.pos = self.pos + 1;
            if !is_missing_field {
                self.next_value = Some(attribute_value::Deserializer::from(next_value));
                return Some(field);
            }
        }
        None
    }

    /// Takes the node of the field that `next_key` returned last.
    pub fn next_value(&mut self) -> (r: attribute_value::Deserializer)
        requires
            old(self).pending() is Some,
        ensures
            r@ == old(self).pending()->0,
            final(self).pending() is None,
            final(self).document() == old(self).document(),
            final(self).fields() == old(self).fields(),
            final(self).position() == old(self).position(),
            old(self).wf() ==> final(self).wf(),
    {
        self.next_value.take().unwrap()
    }
}

/// Fields that the document lacks are passed over without error: the walk
/// from `from` lands on the first declared field that the document holds.
pub proof fn lemma_absent_fields_skipped(node: Json, fields: Seq<&'static str>, from: int, j: int)
    requires
        0 <= from <= j < fields.len(),
        forall|k: int| from <= k < j ==> field_node(node, (#[trigger] fields[k])@) is None,
        field_node(node, fields[j]@) is Some,
    ensures
        next_present(node, fields, from) == Some(j),
    decreases j - from,
{
    if from < j {
        lemma_absent_fields_skipped(node, fields, from + 1, j);
    }
}

/// Where the document holds none of the remaining fields, the walk ends
/// without error.
pub proof fn lemma_all_absent_ends(node: Json, fields: Seq<&'static str>, from: int)
    requires
        0 <= from,
        forall|k: int| from <= k < fields.len() ==> field_node(node, (#[trigger] fields[k])@) is None,
    ensures
        next_present(node, fields, from) is None,
    decreases fields.len() - from,
{
    if from < fields.len() {
        lemma_all_absent_ends(node, fields, from + 1);
    }
}

} // verus!
