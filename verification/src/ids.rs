//! Names for temporary files.
use vstd::prelude::*;

verus! {

/// A hexadecimal digit in lower case.
pub open spec fn is_hex(c: char) -> bool {
    ('0' <= c && c <= '9') || ('a' <= c && c <= 'f')
}

/// The digits of a random UUID: 32 hexadecimal digits, of which one tells the
/// version and another the variant.
pub open spec fn is_uuid(id: Seq<char>) -> bool {
    &&& id.len() == 32
    &&& forall|i: int| 0 <= i < id.len() ==> is_hex(#[trigger] id[i])
    &&& id[12] == '4'
    &&& seq!['8', '9', 'a', 'b'].contains(id[16])
}

/// `uuid::Uuid::new_v4` and `uuid::Uuid::as_simple`: a random identifier, in
/// hexadecimal digits without hyphens. Which identifier it is rests on chance.
#[verifier::external_body]
pub(crate) fn fresh_id() -> (id: String)
    ensures
        is_uuid(id@),
{
    uuid::Uuid::new_v4().as_simple().to_string()
}

} // verus!
