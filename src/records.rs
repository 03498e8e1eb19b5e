//! Plain records that the application hands to its front end.
use vstd::prelude::*;

verus! {

/// Whether a directory entry is a file or a directory.
#[derive(PartialEq, Eq, Structural, Clone, Copy, Debug)]
pub enum EntryType {
    File,
    Directory,
}

/// What the file browser shows of one entry.
pub struct NodeData {
    pub name: String,
    pub path: String,
    pub size: u64,
    pub formatted_size: String,
    pub entry_type: EntryType,
    pub file_type: String,
    pub created: String,
    pub modified: String,
    pub accessed: String,
    pub is_empty: bool,
}

/// One entry of the file browser's tree, with its children when it is a
/// directory that was walked.
pub struct TreeNode {
    pub key: String,
    pub data: NodeData,
    pub children: Option<Vec<TreeNode>>,
}

/// Totals over a walked directory, and its tree.
pub struct DirectoryStats {
    pub total_dirs: u64,
    pub total_files: u64,
    pub total_size: u64,
    pub is_empty: bool,
    pub tree: Vec<TreeNode>,
}

/// One page of query results.
pub struct Page<T> {
    pub data: Vec<T>,
    pub total: i32,
    pub current_page: i32,
    pub page_size: i32,
    pub page_count: i32,
}

/// An alarm definition of the application's configuration.
#[derive(Clone, Debug, Default)]
pub struct AlarmList {
    pub index: u32,
    pub name: String,
    pub enname: String,
    pub level: u32,
}

/// A shared value as it changed, with the time of the change.
#[derive(Clone)]
pub struct UpdateEvent {
    pub value: String,
    pub timestamp: String,
}

/// A datagram received by the broadcast listener, and its sender's address.
#[derive(Clone)]
pub struct BroadcastMessage {
    pub message: String,
    pub source: String,
}

/// A multicast datagram's content, with an optional timestamp.
#[derive(Clone, Debug)]
pub struct UdpMessage {
    pub content: String,
    pub timestamp: Option<i64>,
}

} // verus!
