//! What a node tells the cluster about itself, and the key under which it is kept.

use vstd::prelude::*;
use crate::text::{append_decimal, decimal};

verus! {

/// Every key of a registered node starts with this.
pub const NODE_ID_PREFIX: &'static str = "nodeid_";

/// What a node registers about itself.
#[derive(Debug, Clone)]
pub struct NodeInfo {
    /// Identifier of the node.
    pub id: u64,
    /// Address of the node's RPC interface.
    pub rpc_addr: String,
    /// Address of the node's HTTP interface.
    pub http_addr: String,
    /// State of the node.
    pub status: u32,
}

/// The key under which the node with identifier `id` is registered: the prefix
/// followed by the identifier in decimal notation.
pub open spec fn registration_key(id: u64) -> Seq<char> {
    NODE_ID_PREFIX@ + decimal(id as nat)
}

/// What is reported of an entry that was read back from the store.
pub open spec fn entry_report(key: Seq<char>, value: Seq<char>) -> Seq<char> {
    "Get kv: {"@ + key + ": "@ + value + "}"@
}

/// Says which entry was read back from the store.
pub fn report_entry(key: &str, value: &str) -> (text: String)
    ensures
        text@ == entry_report(key@, value@),
{
    let mut text = String::new();
    text.append("Get kv: {");
    text.append(key);
    text.append(": ");
    text.append(value);
    text.append("}");
    assert(text@ =~= entry_report(key@, value@));
    text
}

impl NodeInfo {
    /// The key under which the node is registered.
    pub fn key(&self) -> (key: String)
        ensures
            key@ == registration_key(self.id),
    {
        let mut key = String::new();
        key.append(NODE_ID_PREFIX);
        append_decimal(&mut key, self.id);
        assert(key@ =~= registration_key(self.id));
        key
    }
}

} // verus!
