use vstd::prelude::*;

use crate::number::{decimal_text, integer_in, integer_value, lemma_decimal_text_value, parse_signed, parse_unsigned};
use crate::value::{lemma_key_index_at, lookup, Json, Value};
use crate::de::ObjectAccess;
use crate::{Error, Failure};

verus! {

pub const I8_RANGE: &'static str = "Couldn't deserialize i8 from a number outside i8::MIN..i8::MAX bounds";

pub const I16_RANGE: &'static str = "Couldn't deserialize i16 from a number outside i16::MIN..i16::MAX bounds";

pub const I32_RANGE: &'static str = "Couldn't deserialize i32 from a number outside i32::MIN..i32::MAX bounds";

pub const I64_RANGE: &'static str = "Couldn't deserialize i64 from a number outside i64::MIN..i64::MAX bounds";

pub const I128_RANGE: &'static str =
    "Couldn't deserialize i128 from a BigInt outside i128::MIN..i128::MAX bounds";

pub const U8_RANGE: &'static str = "Couldn't deserialize u8 from a number outside u8::MIN..u8::MAX bounds";

pub const U16_RANGE: &'static str = "Couldn't deserialize u16 from a number outside u16::MIN..u16::MAX bounds";

pub const U32_RANGE: &'static str = "Couldn't deserialize u32 from a number outside u32::MIN..u32::MAX bounds";

pub const U64_RANGE: &'static str = "Couldn't deserialize u64 from a number outside u64::MIN..u64::MAX bounds";

pub const U128_RANGE: &'static str =
    "Couldn't deserialize u128 from a BigInt outside u128::MIN..u128::MAX bounds";

/// The tag of a string payload.
pub open spec fn string_tag() -> Seq<char> {
    seq!['S']
}

/// The tag of a numeric payload.
pub open spec fn number_tag() -> Seq<char> {
    seq!['N']
}

/// What a node holds under `tag`: it must be an object whose entry under
/// `tag` is a string.
pub open spec fn tagged_text(node: Json, tag: Seq<char>) -> Result<Seq<char>, Failure> {
    match node {
        Json::Object(es) => match lookup(es, tag) {
            None => Err(Failure::UnexpectedType(tag)),
            Some(Json::Str(s)) => Ok(s),
            Some(_) => Err(Failure::UnexpectedValue(node)),
        },
        _ => Err(Failure::UnsupportedType),
    }
}

/// The integer of a numeric node, where its text writes one in `lo..=hi`;
/// `msg` is the error otherwise.
pub open spec fn tagged_integer(node: Json, signed: bool, lo: int, hi: int, msg: Seq<char>) -> Result<
    int,
    Failure,
> {
    match tagged_text(node, number_tag()) {
        Ok(t) => match integer_in(t, signed, lo, hi) {
            Some(n) => Ok(n),
            None => Err(Failure::Custom(msg)),
        },
        Err(e) => Err(e),
    }
}

/// Decodes one attribute value: a node such as `{"S": "text"}` or `{"N": "12"}`.
pub struct Deserializer {
    value: Value,
}

impl View for Deserializer {
    type V = Json;

    closed spec fn view(&self) -> Json {
        self.value.model()
    }
}

impl Deserializer {
    pub fn from(value: Value) -> (r: Self)
        ensures
            r@ == value.model(),
    {
        Deserializer { value }
    }

    /// The string payload under `type_id`.
    pub fn deserialize_from_attribute_value(self, type_id: &'static str) -> (r: Result<String, Error>)
        ensures
            match tagged_text(self@, type_id@) {
                Ok(t) => r is Ok && r->Ok_0@ == t,
                Err(e) => r is Err && r->Err_0.model() == e,
            },
    {
        if self.value.is_object() {
            let next_value = self.value.get_field(type_id);
            // An `Undefined` read may still be a present entry: ask again.
            let is_missing_field = next_value.is_undefined() && !self.value.has_field(type_id);
            if is_missing_field {
                Err(Error::UnexpectedType(type_id))
            } else if let Some(v) = next_value.as_string() {
                Ok(v)
            } else {
                Err(Error::UnexpectedValue(self.value))
            }
        } else {
            Err(Error::UnsupportedType)
        }
    }

    /// The payload of a string node (`"S"`), unchanged.
    pub fn deserialize_string(self) -> (r: Result<String, Error>)
        ensures
            match tagged_text(self@, string_tag()) {
                Ok(t) => r is Ok && r->Ok_0@ == t,
                Err(e) => r is Err && r->Err_0.model() == e,
            },
    {
        proof {
            reveal_strlit("S");
            assert("S"@ =~= string_tag());
        }
        self.deserialize_from_attribute_value("S")
    }

    /// The integer of a numeric node (`"N"`) in `min..=max`; `msg` where
    /// the text writes no such integer.
    fn deserialize_signed(self, min: i128, max: i128, msg: &'static str) -> (r: Result<i128, Error>)
        ensures
            match tagged_integer(self@, true, min as int, max as int, msg@) {
                Ok(n) => r is Ok && r->Ok_0 as int == n,
                Err(e) => r is Err && r->Err_0.model() == e,
            },
    {
        proof {
            reveal_strlit("N");
            assert("N"@ =~= number_tag());
        }
        match self.deserialize_from_attribute_value("N") {
            Ok(s) => match parse_signed(s.as_str(), min, max) {
                Some(v) => Ok(v),
                None => Err(Error::Custom(msg.to_owned())),
            },
            Err(e) => Err(e),
        }
    }

    /// The integer of a numeric node (`"N"`) in `0..=max`; `msg` where the
    /// text writes no such integer.
    fn deserialize_unsigned(self, max: u128, msg: &'static str) -> (r: Result<u128, Error>)
        ensures
            match tagged_integer(self@, false, 0, max as int, msg@) {
                Ok(n) => r is Ok && r->Ok_0 as int == n,
                Err(e) => r is Err && r->Err_0.model() == e,
            },
    {
        proof {
            reveal_strlit("N");
            assert("N"@ =~= number_tag());
        }
        match self.deserialize_from_attribute_value("N") {
            Ok(s) => match parse_unsigned(s.as_str(), max) {
                Some(v) => Ok(v),
                None => Err(Error::Custom(msg.to_owned())),
            },
            Err(e) => Err(e),
        }
    }

    pub fn deserialize_i8(self) -> (r: Result<i8, Error>)
        ensures
            match tagged_integer(self@, true, i8::MIN as int, i8::MAX as int, I8_RANGE@) {
                Ok(n) => r is Ok && r->Ok_0 as int == n,
                Err(e) => r is Err && r->Err_0.model() == e,
            },
    {
        match self.deserialize_signed(i8::MIN as i128, i8::MAX as i128, I8_RANGE) {
            Ok(v) => Ok(v as i8),
            Err(e) => Err(e),
        }
    }

    pub fn deserialize_i16(self) -> (r: Result<i16, Error>)
        ensures
            match tagged_integer(self@, true, i16::MIN as int, i16::MAX as int, I16_RANGE@) {
                Ok(n) => r is Ok && r->Ok_0 as int == n,
                Err(e) => r is Err && r->Err_0.model() == e,
            },
    {
        match self.deserialize_signed(i16::MIN as i128, i16::MAX as i128, I16_RANGE) {
            Ok(v) => Ok(v as i16),
            Err(e) => Err(e),
        }
    }

    pub fn deserialize_i32(self) -> (r: Result<i32, Error>)
        ensures
            match tagged_integer(self@, true, i32::MIN as int, i32::MAX as int, I32_RANGE@) {
                Ok(n) => r is Ok && r->Ok_0 as int == n,
                Err(e) => r is Err && r->Err_0.model() == e,
            },
    {
        match self.deserialize_signed(i32::MIN as i128, i32::MAX as i128, I32_RANGE) {
            Ok(v) => Ok(v as i32),
            Err(e) => Err(e),
        }
    }

    pub fn deserialize_i64(self) -> (r: Result<i64, Error>)
        ensures
            match tagged_integer(self@, true, i64::MIN as int, i64::MAX as int, I64_RANGE@) {
                Ok(n) => r is Ok && r->Ok_0 as int == n,
                Err(e) => r is Err && r->Err_0.model() == e,
            },
    {
        match self.deserialize_signed(i64::MIN as i128, i64::MAX as i128, I64_RANGE) {
            Ok(v) => Ok(v as i64),
            Err(e) => Err(e),
        }
    }

    pub fn deserialize_i128(self) -> (r: Result<i128, Error>)
        ensures
            match tagged_integer(self@, true, i128::MIN as int, i128::MAX as int, I128_RANGE@) {
                Ok(n) => r is Ok && r->Ok_0 as int == n,
                Err(e) => r is Err && r->Err_0.model() == e,
            },
    {
        match self.deserialize_signed(i128::MIN as i128, i128::MAX as i128, I128_RANGE) {
            Ok(v) => Ok(v as i128),
            Err(e) => Err(e),
        }
    }

    pub fn deserialize_u8(self) -> (r: Result<u8, Error>)
        ensures
            match tagged_integer(self@, false, 0, u8::MAX as int, U8_RANGE@) {
                Ok(n) => r is Ok && r->Ok_0 as int == n,
                Err(e) => r is Err && r->Err_0.model() == e,
            },
    {
        match self.deserialize_unsigned(u8::MAX as u128, U8_RANGE) {
            Ok(v) => Ok(v as u8),
            Err(e) => Err(e),
        }
    }

    pub fn deserialize_u16(self) -> (r: Result<u16, Error>)
        ensures
            match tagged_integer(self@, false, 0, u16::MAX as int, U16_RANGE@) {
                Ok(n) => r is Ok && r->Ok_0 as int == n,
                Err(e) => r is Err && r->Err_0.model() == e,
            },
    {
        match self.deserialize_unsigned(u16::MAX as u128, U16_RANGE) {
            Ok(v) => Ok(v as u16),
            Err(e) => Err(e),
        }
    }

    pub fn deserialize_u32(self) -> (r: Result<u32, Error>)
        ensures
            match tagged_integer(self@, false, 0, u32::MAX as int, U32_RANGE@) {
                Ok(n) => r is Ok && r->Ok_0 as int == n,
                Err(e) => r is Err && r->Err_0.model() == e,
            },
    {
        match self.deserialize_unsigned(u32::MAX as u128, U32_RANGE) {
            Ok(v) => Ok(v as u32),
            Err(e) => Err(e),
        }
    }

    pub fn deserialize_u64(self) -> (r: Result<u64, Error>)
        ensures
            match tagged_integer(self@, false, 0, u64::MAX as int, U64_RANGE@) {
                Ok(n) => r is Ok && r->Ok_0 as int == n,
                Err(e) => r is Err && r->Err_0.model() == e,
            },
    {
        match self.deserialize_unsigned(u64::MAX as u128, U64_RANGE) {
            Ok(v) => Ok(v as u64),
            Err(e) => Err(e),
        }
    }

    pub fn deserialize_u128(self) -> (r: Result<u128, Error>)
        ensures
            match tagged_integer(self@, false, 0, u128::MAX as int, U128_RANGE@) {
                Ok(n) => r is Ok && r->Ok_0 as int == n,
                Err(e) => r is Err && r->Err_0.model() == e,
            },
    {
        match self.deserialize_unsigned(u128::MAX as u128, U128_RANGE) {
            Ok(v) => Ok(v as u128),
            Err(e) => Err(e),
        }
    }
}

/// A node that holds `payload` under `tag`, and nothing else.
pub open spec fn tagged_node(tag: Seq<char>, payload: Seq<char>) -> Json {
    Json::Object(seq![(tag, Json::Str(payload))])
}

impl Deserializer {
    /// Starts decoding a nested struct with the given fields; the node must
    /// be an object.
    pub fn deserialize_struct(self, fields: &'static [&'static str]) -> (r: Result<
        ObjectAccess,
        Error,
    >)
        ensures
            match r {
                Ok(a) => self@ is Object && a.wf() && a.document() == self@ && a.fields() == fields@
                    && a.position() == 0 && a.pending() is None,
                Err(e) => !(self@ is Object) && e.model() == Failure::UnsupportedType,
            },
    {
        if self.value.is_object() {
            Ok(ObjectAccess::new(self.value, fields))
        } else {
            Err(Error::UnsupportedType)
        }
    }
}

/// `{"N": t}`, with `t` the canonical decimal text of `n`, decodes to `n`
/// for every `n` of the target range: its least and greatest values among
/// them.
pub proof fn lemma_canonical_number_decodes(n: int, signed: bool, lo: int, hi: int, msg: Seq<char>)
    requires
        lo <= n <= hi,
        signed || n >= 0,
    ensures
        tagged_integer(tagged_node(number_tag(), decimal_text(n)), signed, lo, hi, msg) == Ok::<
            int,
            Failure,
        >(n),
{
    let es = seq![(number_tag(), Json::Str(decimal_text(n)))];
    lemma_key_index_at(es, number_tag(), 0);
    lemma_decimal_text_value(n, signed);
}

/// `{"N": "not-a-number"}` fails to decode into every integer width, with
/// the width's own message.
pub proof fn lemma_not_a_number_fails(signed: bool, lo: int, hi: int, msg: Seq<char>)
    ensures
        tagged_integer(
            tagged_node(
                number_tag(),
                seq!['n', 'o', 't', '-', 'a', '-', 'n', 'u', 'm', 'b', 'e', 'r'],
            ),
            signed,
            lo,
            hi,
            msg,
        ) == Err::<int, Failure>(Failure::Custom(msg)),
{
    let t = seq!['n', 'o', 't', '-', 'a', '-', 'n', 'u', 'm', 'b', 'e', 'r'];
    let es = seq![(number_tag(), Json::Str(t))];
    lemma_key_index_at(es, number_tag(), 0);
    assert(t[0] == 'n');
    assert(integer_value(t, signed) is None);
}

/// Asking a node that is no object for any tagged scalar fails with
/// `UnsupportedType`.
pub proof fn lemma_scalar_from_non_object(node: Json, tag: Seq<char>)
    requires
        !(node is Object),
    ensures
        tagged_text(node, tag) == Err::<Seq<char>, Failure>(Failure::UnsupportedType),
        forall|signed: bool, lo: int, hi: int, msg: Seq<char>|
            #[trigger] tagged_integer(node, signed, lo, hi, msg) == Err::<int, Failure>(
                Failure::UnsupportedType,
            ),
{
}

/// An object that lacks the requested tag, `{}` among them, fails with
/// `UnexpectedType` naming that tag.
pub proof fn lemma_untagged_object(es: Seq<(Seq<char>, Json)>, tag: Seq<char>)
    requires
        forall|i: int| 0 <= i < es.len() ==> (#[trigger] es[i]).0 != tag,
    ensures
        tagged_text(Json::Object(es), tag) == Err::<Seq<char>, Failure>(Failure::UnexpectedType(tag)),
        tagged_text(Json::Object(Seq::empty()), tag) == Err::<Seq<char>, Failure>(
            Failure::UnexpectedType(tag),
        ),
{
}

} // verus!
