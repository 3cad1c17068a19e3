//! Reactive nodes: nodes that act on changes of an outside source, such
//! as a watched file.
use vstd::prelude::*;

verus! {

/// Errors specific to reactive operations.
#[derive(Debug)]
pub enum ReactiveError {
    WatchError(String),
    StreamClosed,
    ConnectionError(String),
    ResourceNotFound(String),
}

/// Represents a file change detected by a file watcher.
#[derive(Debug)]
pub struct FileChange {
    /// Path of the changed file
    pub path: String,
    /// Last modified timestamp in seconds since the epoch
    pub modified_time: u64,
    /// Size of the file in bytes
    pub size: u64,
}

impl Clone for FileChange {
    fn clone(&self) -> (r: Self)
        ensures
            r == *self,
    {
        FileChange { path: self.path.clone(), modified_time: self.modified_time, size: self.size }
    }
}

/// Actions a reactive node reports: a change was detected, or none was.
pub trait ReactiveActionExt: Sized {
    /// Create an action indicating a change was detected.
    fn change_detected() -> Self;

    /// Create an action indicating no change was detected.
    fn no_change() -> Self;

    /// Check if this is a change_detected action.
    fn is_change_detected(&self) -> bool;

    /// Check if this is a no_change action.
    fn is_no_change(&self) -> bool;
}

/// A helper function to create an action from a change: a change is
/// always reported as detected.
pub fn action_from_change<Change, A: ReactiveActionExt>(_change: &Change) -> (a: A)
    ensures
        call_ensures(A::change_detected, (), a),
{
    A::change_detected()
}

/// What a file watcher last saw of its file: the modification time (in
/// seconds since the epoch) and the size; both start at zero.
#[derive(Debug, Clone, Copy, PartialEq, Eq, Structural)]
pub struct FileChangeTracker {
    pub last_modified: u64,
    pub last_size: u64,
}

impl FileChangeTracker {
    /// Nothing seen yet.
    pub fn new() -> (t: Self)
        ensures
            t.last_modified == 0,
            t.last_size == 0,
    {
        FileChangeTracker { last_modified: 0, last_size: 0 }
    }

    /// Whether a poll that saw `modified` and `size` reports a change: the
    /// file was modified later than last seen, or its size differs.
    pub open spec fn spec_is_change(self, modified: u64, size: u64) -> bool {
        modified > self.last_modified || size != self.last_size
    }

    /// Take in one poll of the file at `path`: report the change, and
    /// remember what was seen, when there is one; otherwise report nothing.
    pub fn observe(&mut self, path: &String, modified: u64, size: u64) -> (c: Option<FileChange>)
        ensures
            old(self).spec_is_change(modified, size) ==> {
                &&& c == Some(FileChange { path: *path, modified_time: modified, size })
                &&& *final(self) == (FileChangeTracker { last_modified: modified, last_size: size })
            },
            !old(self).spec_is_change(modified, size) ==> c is None && *final(self) == *old(self),
    {
        if modified > self.last_modified || size != self.last_size {
            self.last_modified = modified;
            self.last_size = size;
            Some(FileChange { path: path.clone(), modified_time: modified, size })
        } else {
            None
        }
    }
}

/// Seeing the same modification time and size twice in a row reports at
/// most the first: a change is reported once.
pub proof fn lemma_change_reported_once(t: FileChangeTracker, modified: u64, size: u64)
    ensures
        !(FileChangeTracker { last_modified: modified, last_size: size }).spec_is_change(modified, size),
{
}

} // verus!
