//! The progress registry: one live entry per in-flight transfer,
//! append-only, each entry advanced monotonically by the single task
//! that registered it. This is the model the display mirrors; drawing
//! the bars happens outside the library.

use vstd::prelude::*;

verus! {

/// The live byte-count state of one transfer.
#[derive(Clone, Copy, Debug, PartialEq, Eq, Structural)]
pub struct ProgressEntry {
    /// The transfer the entry belongs to.
    pub task_id: u32,
    /// The declared total, fixed at registration.
    pub total: u64,
    /// Bytes transferred so far; never decreases, never exceeds `total`.
    pub downloaded: u64,
    /// Whether the owning transfer has reached a terminal state.
    pub finished: bool,
}

/// The registry of progress entries. Entries are only ever appended;
/// a handle returned by `register` stays valid for the registry's
/// lifetime, and each update touches exactly the handled entry.
pub struct ProgressLog {
    entries: Vec<ProgressEntry>,
}

impl ProgressLog {
    pub closed spec fn entries(self) -> Seq<ProgressEntry> {
        self.entries@
    }

    /// Every entry's byte count is within its declared total.
    pub closed spec fn wf(self) -> bool {
        forall|i: int|
            0 <= i < self.entries@.len() ==> (#[trigger] self.entries@[i]).downloaded
                <= self.entries@[i].total
    }

    pub fn new() -> (log: Self)
        ensures
            log.wf(),
            log.entries().len() == 0,
    {
        ProgressLog { entries: Vec::new() }
    }

    pub fn len(&self) -> (n: usize)
        ensures
            n == self.entries().len(),
    {
        self.entries.len()
    }

    pub fn entry_at(&self, handle: usize) -> (e: ProgressEntry)
        requires
            handle < self.entries().len(),
        ensures
            e == self.entries()[handle as int],
    {
        self.entries[handle]
    }

    /// Add a live entry for `task_id` with the declared `total` and no
    /// bytes transferred. The handle is the entry's place in the
    /// registry; every existing entry is untouched.
    pub fn register(&mut self, task_id: u32, total: u64) -> (handle: usize)
        requires
            old(self).wf(),
        ensures
            final(self).wf(),
            handle == old(self).entries().len(),
            final(self).entries() == old(self).entries().push(
                ProgressEntry { task_id, total, downloaded: 0, finished: false },
            ),
    {
        let handle = self.entries.len();
        self.entries.push(ProgressEntry { task_id, total, downloaded: 0, finished: false });
        handle
    }

    /// Move the handled entry's byte count forward to `new_position`.
    /// The count is monotone: a task never reports a smaller position.
    /// Exactly the handled entry changes, and only its byte count.
    pub fn advance(&mut self, handle: usize, new_position: u64)
        requires
            old(self).wf(),
            handle < old(self).entries().len(),
            old(self).entries()[handle as int].downloaded <= new_position,
            new_position <= old(self).entries()[handle as int].total,
        ensures
            final(self).wf(),
            final(self).entries().len() == old(self).entries().len(),
            final(self).entries()[handle as int].downloaded == new_position,
            final(self).entries()[handle as int].task_id == old(self).entries()[
                handle as int
            ].task_id,
            final(self).entries()[handle as int].total == old(self).entries()[
                handle as int
            ].total,
            final(self).entries()[handle as int].finished == old(self).entries()[
                handle as int
            ].finished,
            forall|j: int|
                0 <= j < old(self).entries().len() && j != handle ==> final(self).entries()[j]
                    == old(self).entries()[j],
    {
        let e = self.entries[handle];
        self.entries[handle] = ProgressEntry {
            task_id: e.task_id,
            total: e.total,
            downloaded: new_position,
            finished: e.finished,
        };
    }

    /// Mark the handled entry finished: its owning transfer reached a
    /// terminal state. Exactly the handled entry changes.
    pub fn finish(&mut self, handle: usize)
        requires
            old(self).wf(),
            handle < old(self).entries().len(),
        ensures
            final(self).wf(),
            final(self).entries().len() == old(self).entries().len(),
            final(self).entries()[handle as int].finished,
            final(self).entries()[handle as int].task_id == old(self).entries()[
                handle as int
            ].task_id,
            final(self).entries()[handle as int].total == old(self).entries()[
                handle as int
            ].total,
            final(self).entries()[handle as int].downloaded == old(self).entries()[
                handle as int
            ].downloaded,
            forall|j: int|
                0 <= j < old(self).entries().len() && j != handle ==> final(self).entries()[j]
                    == old(self).entries()[j],
    {
        let e = self.entries[handle];
        self.entries[handle] = ProgressEntry {
            task_id: e.task_id,
            total: e.total,
            downloaded: e.downloaded,
            finished: true,
        };
    }
}

} // verus!
