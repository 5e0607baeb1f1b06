//! MessagePack values, as `rns_core` packs and unpacks them.
use rns_core::msgpack::Value;
use vstd::prelude::*;

verus! {

/// `rns_core::msgpack::Value`: one MessagePack value with all that it contains.
#[verifier::external_type_specification]
#[verifier::external_body]
pub struct ExValue(rns_core::msgpack::Value);

/// What a MessagePack value holds, all the way down. A floating point number is
/// given by its bits, and what is no number has none: which bits those are is left
/// open where a value is unpacked.
pub enum ValueTree {
    Nil,
    Bool(bool),
    UInt(u64),
    Int(i64),
    Float(Option<u64>),
    Text(Seq<char>),
    Bin(Seq<u8>),
    List(Seq<ValueTree>),
    Table(Seq<(ValueTree, ValueTree)>),
}

impl ValueTree {
    /// Whether the value, with `room` levels left, is not nested too deep and holds
    /// no floating point number, so that the bytes of the packed value rest on what
    /// it holds alone.
    pub open spec fn free_of_floats(self, room: nat) -> bool
        decreases room,
    {
        &&& room > 0
        &&& match self {
            ValueTree::Float(_) => false,
            ValueTree::List(items) => forall|i: int|
                0 <= i < items.len() ==> (#[trigger] items[i]).free_of_floats((room - 1) as nat),
            ValueTree::Table(entries) => forall|i: int|
                0 <= i < entries.len() ==> {
                    &&& (#[trigger] entries[i]).0.free_of_floats((room - 1) as nat)
                    &&& entries[i].1.free_of_floats((room - 1) as nat)
                },
            _ => true,
        }
    }

    /// Whether packing and unpacking, with `room` levels left, gives the value
    /// back: lengths fit the 32-bit length fields, signed numbers are negative
    /// (others come back unsigned) and nothing is nested too deep. Of text and
    /// floating point numbers nothing is said.
    pub open spec fn survives(self, room: nat) -> bool
        decreases room,
    {
        &&& room > 0
        &&& match self {
            ValueTree::Nil => true,
            ValueTree::Bool(_) => true,
            ValueTree::UInt(_) => true,
            ValueTree::Int(value) => value < 0,
            ValueTree::Float(_) => false,
            ValueTree::Text(_) => false,
            ValueTree::Bin(bytes) => bytes.len() <= u32::MAX,
            ValueTree::List(items) => {
                &&& items.len() <= u32::MAX
                &&& forall|i: int|
                    0 <= i < items.len() ==> (#[trigger] items[i]).survives((room - 1) as nat)
            },
            ValueTree::Table(entries) => {
                &&& entries.len() <= u32::MAX
                &&& forall|i: int|
                    0 <= i < entries.len() ==> {
                        &&& (#[trigger] entries[i]).0.survives((room - 1) as nat)
                        &&& entries[i].1.survives((room - 1) as nat)
                    }
            },
        }
    }
}

/// How many levels of values can be unpacked: the outermost value and 32 levels
/// of nesting.
pub open spec fn nesting_room() -> nat {
    33
}

/// What a MessagePack value holds.
pub uninterp spec fn value_tree(value: Value) -> ValueTree;

/// The bytes that `rns_core::msgpack::pack` gives for a value without floating point
/// numbers.
pub uninterp spec fn packed_bytes(tree: ValueTree) -> Seq<u8>;

/// What `rns_core::msgpack::unpack_exact` makes of bytes: the value, or the text
/// of the error.
pub uninterp spec fn unpacked_tree(bytes: Seq<u8>) -> Result<ValueTree, Seq<char>>;

/// Whether an unpacking gave the value `tree`.
pub open spec fn gives_tree(outcome: Result<ValueTree, Seq<char>>, tree: ValueTree) -> bool {
    outcome matches Ok(found) && found == tree
}

/// Whether an unpacking failed with the error `text`.
pub open spec fn gives_error(outcome: Result<ValueTree, Seq<char>>, text: Seq<char>) -> bool {
    outcome matches Err(found) && found == text
}

/// The `Debug` text of a value.
pub uninterp spec fn value_debug_text(tree: ValueTree) -> Seq<char>;

/// What a sequence of values holds.
pub open spec fn value_trees(values: Seq<Value>) -> Seq<ValueTree> {
    values.map_values(|value: Value| value_tree(value))
}

/// What a sequence of entries holds.
pub open spec fn entry_trees(entries: Seq<(Value, Value)>) -> Seq<(ValueTree, ValueTree)> {
    entries.map_values(|entry: (Value, Value)| (value_tree(entry.0), value_tree(entry.1)))
}

/// `Value::as_uint`: the number of an unsigned integer, and nothing of any other value.
#[verifier::external_body]
pub(crate) fn value_as_uint(value: &Value) -> (number: Option<u64>)
    ensures
        number == match value_tree(*value) {
            ValueTree::UInt(number) => Some(number),
            _ => None,
        },
{
    value.as_uint()
}

/// `Value::as_int`: the number of a signed integer, and nothing of any other value.
#[verifier::external_body]
pub(crate) fn value_as_int(value: &Value) -> (number: Option<i64>)
    ensures
        number == match value_tree(*value) {
            ValueTree::Int(number) => Some(number),
            _ => None,
        },
{
    value.as_int()
}

/// `Value::as_bin`: the bytes of a binary value, and nothing of any other value.
#[verifier::external_body]
pub(crate) fn value_as_bin(value: &Value) -> (bytes: Option<&[u8]>)
    ensures
        bytes is Some <==> value_tree(*value) is Bin,
        bytes is Some ==> bytes->0@ == value_tree(*value)->Bin_0,
{
    value.as_bin()
}

/// `Value::as_array`: the items of a list, and nothing of any other value.
#[verifier::external_body]
pub(crate) fn value_as_list(value: &Value) -> (items: Option<&[Value]>)
    ensures
        items is Some <==> value_tree(*value) is List,
        items is Some ==> value_trees(items->0@) == value_tree(*value)->List_0,
{
    value.as_array()
}

/// `Value::as_map`: the entries of a table in their order, and nothing of any other value.
#[verifier::external_body]
pub(crate) fn value_as_table(value: &Value) -> (entries: Option<&[(Value, Value)]>)
    ensures
        entries is Some <==> value_tree(*value) is Table,
        entries is Some ==> entry_trees(entries->0@) == value_tree(*value)->Table_0,
{
    value.as_map()
}

/// `Value::UInt`: an unsigned integer.
#[verifier::external_body]
pub(crate) fn uint_value(number: u64) -> (value: Value)
    ensures
        value_tree(value) == ValueTree::UInt(number),
{
    Value::UInt(number)
}

/// `Value::Bin`: a binary value.
#[verifier::external_body]
pub(crate) fn bin_value(bytes: Vec<u8>) -> (value: Value)
    ensures
        value_tree(value) == ValueTree::Bin(bytes@),
{
    Value::Bin(bytes)
}

/// `Value::Array`: a list.
#[verifier::external_body]
pub(crate) fn list_value(items: Vec<Value>) -> (value: Value)
    ensures
        value_tree(value) == ValueTree::List(value_trees(items@)),
{
    Value::Array(items)
}

/// `Value::Map`: a table.
#[verifier::external_body]
pub(crate) fn table_value(entries: Vec<(Value, Value)>) -> (value: Value)
    ensures
        value_tree(value) == ValueTree::Table(entry_trees(entries@)),
{
    Value::Map(entries)
}

/// `Debug` of `Value`: its text.
#[verifier::external_body]
pub(crate) fn value_debug(value: &Value) -> (text: String)
    ensures
        text@ == value_debug_text(value_tree(*value)),
{
    format!("{value:?}")
}

/// `rns_core::msgpack::pack`: the bytes of a value. They rest on what it holds alone
/// wherever it is free of floating point numbers, and unpacking them gives the value back
/// wherever `survives` holds of it.
#[verifier::external_body]
pub(crate) fn pack_value(value: &Value) -> (bytes: Vec<u8>)
    ensures
        value_tree(*value).free_of_floats(nesting_room()) ==> bytes@ == packed_bytes(
            value_tree(*value),
        ),
        value_tree(*value).survives(nesting_room()) ==> gives_tree(
            unpacked_tree(bytes@),
            value_tree(*value),
        ),
{
    rns_core::msgpack::pack(value)
}

/// `rns_core::msgpack::unpack_exact`: the one value that the bytes hold, or the text of
/// the error.
#[verifier::external_body]
pub(crate) fn unpack_value(data: &[u8]) -> (value: Result<Value, String>)
    ensures
        match value {
            Ok(value) => gives_tree(unpacked_tree(data@), value_tree(value)),
            Err(text) => gives_error(unpacked_tree(data@), text@),
        },
{
    rns_core::msgpack::unpack_exact(data).map_err(|error| error.to_string())
}

} // verus!
