//! Open handles.
use vstd::prelude::*;

use crate::entry::{Entry, Stat, StatView};

verus! {

/// What an opener holds: the entry, the stream of it if not the main one, and the times that are
/// written back when the file is closed.
#[derive(Clone, Copy, Debug)]
pub struct EntryHandle {
    pub entry: usize,
    pub alt_stream: Option<usize>,
    pub delete_on_close: bool,
    pub mtime_delayed: Option<u64>,
    pub atime_delayed: Option<u64>,
    pub ctime_enabled: bool,
    pub mtime_enabled: bool,
    pub atime_enabled: bool,
}

impl EntryHandle {
    /// A handle that nothing was done with yet.
    pub open spec fn fresh(entry: usize, alt_stream: Option<usize>, delete_on_close: bool) -> Self {
        EntryHandle {
            entry,
            alt_stream,
            delete_on_close,
            mtime_delayed: None,
            atime_delayed: None,
            ctime_enabled: true,
            mtime_enabled: true,
            atime_enabled: true,
        }
    }

    /// `stat` accessed at `t` through this handle.
    pub open spec fn accessed(self, stat: StatView, t: u64) -> StatView {
        if self.atime_enabled {
            stat.accessed(t)
        } else {
            stat
        }
    }

    /// `stat` changed at `t` through this handle.
    pub open spec fn modified(self, stat: StatView, t: u64) -> StatView {
        let stat = self.accessed(stat, t);
        if self.mtime_enabled {
            StatView { mtime: t, ..stat }
        } else {
            stat
        }
    }

    /// A handle on entry `entry`, or on stream `alt_stream` of it.
    pub fn new(entry: usize, alt_stream: Option<usize>, delete_on_close: bool) -> (r: Self)
        ensures
            r == Self::fresh(entry, alt_stream, delete_on_close),
    {
        Self {
            entry,
            alt_stream,
            delete_on_close,
            mtime_delayed: None,
            atime_delayed: None,
            ctime_enabled: true,
            mtime_enabled: true,
            atime_enabled: true,
        }
    }

    /// Whether this handle, which is on `entry`, is on a directory itself.
    pub fn is_dir(&self, entry: &Entry) -> (r: bool)
        ensures
            r == (self.alt_stream is None && entry@.is_dir()),
    {
        if self.alt_stream.is_some() {
            false
        } else {
            entry.is_dir()
        }
    }

    /// Notes the access time, unless its updates are switched off.
    pub fn update_atime(&self, stat: &mut Stat, atime: u64)
        ensures
            final(stat)@ == self.accessed(old(stat)@, atime),
    {
        if self.atime_enabled {
            stat.atime = atime;
        }
    }

    /// Notes the access and the change time, each unless its updates are switched off.
    pub fn update_mtime(&self, stat: &mut Stat, mtime: u64)
        ensures
            final(stat)@ == self.modified(old(stat)@, mtime),
    {
        self.update_atime(stat, mtime);
        if self.mtime_enabled {
            stat.mtime = mtime;
        }
    }
}

} // verus!
