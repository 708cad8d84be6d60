use vstd::prelude::*;
use crate::common::utf8::string_from_utf8;

verus! {

/// The parameters of a key/value request on a table.
#[derive(Clone, Debug)]
pub struct KvOpParam {
    pub table_name: String,
    pub key: String,
    pub value: Option<String>,
}

impl KvOpParam {
    /// The bytes stored by a set request: the value's UTF-8 bytes, or nothing
    /// when there is no value.
    pub fn value_bytes(&self) -> (r: Vec<u8>)
        ensures
            match self.value {
                Some(v) => r@ == vstd::utf8::encode_utf8(v@),
                None => r@ == Seq::<u8>::empty(),
            },
    {
        match &self.value {
            Some(v) => v.as_str().as_bytes_vec(),
            None => Vec::new(),
        }
    }
}

/// The answer to a key/value read.
#[derive(Clone, Debug)]
pub struct KvValueResult {
    pub success: bool,
    pub value: String,
}

impl KvValueResult {
    /// The answer to a read that found `found`, or nothing: a found value is
    /// given back as text, a missing one as a failure with a message.
    pub fn from_lookup(found: Option<Vec<u8>>) -> (r: Self)
        requires
            found matches Some(v) ==> vstd::utf8::valid_utf8(v@),
        ensures
            match found {
                Some(v) => r.success && r.value@ == vstd::utf8::decode_utf8(v@),
                None => !r.success && r.value@ == "not found key value"@,
            },
    {
        match found {
            Some(v) => match string_from_utf8(v) {
                Some(s) => KvValueResult { success: true, value: s },
                None => KvValueResult { success: false, value: String::from_str("not found key value") },
            },
            None => KvValueResult { success: false, value: String::from_str("not found key value") },
        }
    }
}

} // verus!
