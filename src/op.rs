use crate::time::Dt;
use vstd::prelude::*;

verus! {

/// A JSON document held as parsed, structured data.
#[verifier::external_type_specification]
#[verifier::external_body]
pub struct ExJsonValue(serde_json::Value);

/// Relies on serde_json's `Clone for Value`, a deep copy; nothing about the
/// copy is used here.
pub assume_specification[ <serde_json::Value as Clone>::clone ](v: &serde_json::Value) -> serde_json::Value;

/// The mathematical form of an operation's primary key: (did, cid).
pub type KeyView = (Seq<char>, Seq<char>);

/// One PLC log entry, with the directory's wrapping of timestamp and
/// nullified state. The signed `operation` document is kept as structured
/// JSON and not interpreted here.
#[derive(Clone, Debug, PartialEq)]
pub struct Op {
    pub did: String,
    pub cid: String,
    pub created_at: Dt,
    pub nullified: bool,
    pub operation: serde_json::Value,
}

/// Database primary key for an op.
#[derive(Clone, Debug, PartialEq, Eq)]
pub struct OpKey {
    pub did: String,
    pub cid: String,
}

impl View for OpKey {
    type V = KeyView;

    open spec fn view(&self) -> KeyView {
        (self.did@, self.cid@)
    }
}

/// The key of an op, as a value.
pub open spec fn op_key(op: Op) -> KeyView {
    (op.did@, op.cid@)
}

/// The values of a sequence of keys.
pub open spec fn keys_view(keys: Seq<OpKey>) -> Seq<KeyView> {
    keys.map_values(|k: OpKey| k@)
}

impl<'a> From<&'a Op> for OpKey {
    fn from(op: &'a Op) -> (r: OpKey)
        ensures
            r == (OpKey { did: op.did, cid: op.cid }),
            r@ == op_key(*op),
    {
        OpKey { did: op.did.clone(), cid: op.cid.clone() }
    }
}

impl<'a> vstd::std_specs::convert::FromSpecImpl<&'a Op> for OpKey {
    open spec fn obeys_from_spec() -> bool {
        true
    }

    open spec fn from_spec(op: &'a Op) -> OpKey {
        OpKey { did: op.did, cid: op.cid }
    }
}

/// Whether `keys` holds the key (`did`, `cid`).
pub fn keys_contain(keys: &Vec<OpKey>, did: &String, cid: &String) -> (r: bool)
    ensures
        r == keys_view(keys@).contains((did@, cid@)),
{
    let mut i: usize = 0;
    while i < keys.len()
        invariant
            i <= keys.len(),
            forall|k: int| 0 <= k < i ==> keys@[k]@ != (did@, cid@),
        decreases keys.len() - i,
    {
        if keys[i].did == *did && keys[i].cid == *cid {
            assert(keys_view(keys@)[i as int] == (did@, cid@));
            return true;
        }
        i += 1;
    }
    assert(!keys_view(keys@).contains((did@, cid@))) by {
        if keys_view(keys@).contains((did@, cid@)) {
            let k = choose|k: int| 0 <= k < keys_view(keys@).len() && keys_view(keys@)[k] == (did@, cid@);
            assert(keys@[k]@ == (did@, cid@));
        }
    }
    false
}

/// One page of a PLC export, in upstream order.
///
/// The upstream export caps a page at 1000 ops; bundle readers may send more.
#[derive(Debug)]
pub struct ExportPage {
    pub ops: Vec<Op>,
}

impl ExportPage {
    pub fn is_empty(&self) -> (r: bool)
        ensures
            r == (self.ops@.len() == 0),
    {
        self.ops.len() == 0
    }
}

} // verus!
