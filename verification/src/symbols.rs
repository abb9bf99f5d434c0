//! Serialization of the symbol table: each effective label name mapped to
//! its resolved 16-bit address, as a string-keyed JSON object.

use vstd::prelude::*;

use crate::compiler::label_map_of;
use crate::grammar::Label;

verus! {

/// The JSON object text that serializes a label-to-address map. Key order
/// inside the text is not significant and is not specified here.
pub uninterp spec fn json_object_of(m: Map<Seq<char>, u16>) -> Seq<char>;

/// Relies on serde_json: `Map::insert` and `to_string`. A `serde_json::Map`
/// keeps its entries ordered by key, so the text depends on the
/// key-to-address map alone; a later duplicate key overwrites an earlier
/// one, exactly as in `label_map_of`. With string keys and integer values
/// `to_string` cannot fail, so the `unwrap` cannot panic.
#[verifier::external_body]
pub(crate) fn symbols_to_json(entries: &Vec<(Label, u16)>) -> (r: String)
    ensures
        r@ == json_object_of(label_map_of(entries@)),
{
    let mut map = serde_json::Map::new();
    for (name, addr) in entries.iter() {
        map.insert(name.clone(), serde_json::Value::from(*addr));
    }
    serde_json::to_string(&map).unwrap()
}

} // verus!
