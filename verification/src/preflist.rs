//! Preference lists: the partitions, and the nodes that hold them, that are
//! responsible for an object.
//!
//! For more information: https://docs.basho.com/riak/kv/latest/learn/concepts/replication/
use crate::bytes::{text_from_bytes, utf8_lossy};
use crate::proto::kv::{RpbBucketKeyPreflistItem, RpbBucketKeyPreflistItemView};
use vstd::prelude::*;

verus! {

/// A partition of a preference list: its number, the node that holds it,
/// and whether that node is a primary one.
#[derive(Clone, Debug)]
pub struct PreflistItem {
    pub partition: i64,
    pub node: String,
    pub is_primary: bool,
}

impl PreflistItem {
    /// An item for `partition` held by `node`.
    pub fn new(partition: i64, node: &str, is_primary: bool) -> (r: PreflistItem)
        ensures
            r.partition == partition,
            r.node@ == node@,
            r.is_primary == is_primary,
    {
        PreflistItem { partition, node: node.to_owned(), is_primary }
    }

    /// The item of a message of the wire; the node's name is read as text.
    pub fn from_proto(item: &RpbBucketKeyPreflistItem) -> (r: PreflistItem)
        ensures
            r.partition == item@.partition,
            r.node@ == utf8_lossy(item@.node),
            r.is_primary == item@.primary,
    {
        PreflistItem {
            partition: item.partition,
            node: text_from_bytes(item.node.as_slice()),
            is_primary: item.primary,
        }
    }
}

} // verus!
