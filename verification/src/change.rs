//! Changing attributes, times and what is to be deleted, through handles.
use vstd::prelude::*;

use crate::attributes::{has, has_flag, lemma_masked_supported, Attributes};
use crate::attributes::{FILE_ATTRIBUTE_READONLY, SUPPORTED_ATTRS};
use crate::entry::{SecurityDescriptor, StatView, StreamView};
use crate::handle::EntryHandle;
use crate::keep::{lemma_handle_counts, lemma_same_shape};
use crate::memfs::MemFsHandler;
use crate::model::{FsView, ROOT};
use crate::name::Link;
use crate::status::{
    nt_res, OperationError, STATUS_ACCESS_DENIED, STATUS_CANNOT_DELETE, STATUS_DIRECTORY_NOT_EMPTY,
    STATUS_INVALID_DEVICE_REQUEST,
};

verus! {

/// What is asked for a time of an entry.
#[derive(Clone, Copy, Debug, PartialEq, Eq, Structural)]
pub enum FileTimeInfo {
    /// Set it, unless its updates are switched off.
    SetTime(u64),
    /// Switch off its updates through this handle.
    DisableUpdate,
    /// Switch its updates through this handle on again.
    ResumeUpdate,
    DontChange,
}

impl FileTimeInfo {
    /// A time of an entry after this was asked for.
    pub open spec fn time_after(self, time: u64, enabled: bool) -> u64 {
        match self {
            FileTimeInfo::SetTime(new_time) => if enabled {
                new_time
            } else {
                time
            },
            _ => time,
        }
    }

    /// Whether updates of a time are on after this was asked for.
    pub open spec fn enabled_after(self, enabled: bool) -> bool {
        match self {
            FileTimeInfo::DisableUpdate => false,
            FileTimeInfo::ResumeUpdate => true,
            _ => enabled,
        }
    }

    /// The time, and whether its updates are on, after this was asked for.
    fn process(self, time: u64, enabled: bool) -> (r: (u64, bool))
        ensures
            r.0 == self.time_after(time, enabled),
            r.1 == self.enabled_after(enabled),
    {
        match self {
            FileTimeInfo::SetTime(new_time) => if enabled {
                (new_time, enabled)
            } else {
                (time, enabled)
            },
            FileTimeInfo::DisableUpdate => (time, false),
            FileTimeInfo::ResumeUpdate => (time, true),
            FileTimeInfo::DontChange => (time, enabled),
        }
    }
}

/// The later of a time and one that was held back.
pub open spec fn raised(time: u64, delayed: Option<u64>) -> u64 {
    match delayed {
        Some(t) => if t > time {
            t
        } else {
            time
        },
        None => time,
    }
}

/// `stat` with the times that were held back for `handle`.
pub open spec fn times_raised(stat: StatView, handle: EntryHandle) -> StatView {
    StatView {
        mtime: raised(stat.mtime, handle.mtime_delayed),
        atime: raised(stat.atime, handle.atime_delayed),
        ..stat
    }
}

/// The file system after times were set through handle `h`.
pub open spec fn times_set(
    fs: FsView,
    h: usize,
    creation_time: FileTimeInfo,
    last_access_time: FileTimeInfo,
    last_write_time: FileTimeInfo,
) -> FsView {
    let handle = fs.handles[h];
    let stat = fs.entries[handle.entry].stat;
    fs.with_stat(
        handle.entry,
        StatView {
            ctime: creation_time.time_after(stat.ctime, handle.ctime_enabled),
            mtime: last_write_time.time_after(stat.mtime, handle.mtime_enabled),
            atime: last_access_time.time_after(stat.atime, handle.atime_enabled),
            ..stat
        },
    ).with_handle(
        h,
        EntryHandle {
            ctime_enabled: creation_time.enabled_after(handle.ctime_enabled),
            mtime_enabled: last_write_time.enabled_after(handle.mtime_enabled),
            atime_enabled: last_access_time.enabled_after(handle.atime_enabled),
            ..handle
        },
    )
}

/// The file system after what handle `h` is on was marked to be deleted, or not to be.
pub open spec fn delete_marked(fs: FsView, h: usize, delete: bool) -> FsView {
    let handle = fs.handles[h];
    match handle.alt_stream {
        Some(s) => fs.with_stream(s, StreamView { delete_pending: delete, ..fs.streams[s] }),
        None => fs.with_stat(
            handle.entry,
            StatView { delete_pending: delete, ..fs.entries[handle.entry].stat },
        ),
    }
}

/// Why the directory under handle `h` is not marked to be deleted, or not to be.
pub open spec fn delete_directory_refusal(fs: FsView, h: usize, delete: bool) -> Option<u32> {
    let handle = fs.handles[h];
    let entry = fs.entries[handle.entry];
    if handle.alt_stream is Some || !entry.is_dir() {
        Some(STATUS_INVALID_DEVICE_REQUEST)
    } else if !fs.parent_live(handle.entry) {
        Some(STATUS_ACCESS_DENIED)
    } else if delete && entry.children() != Map::<Seq<u16>, Link>::empty() {
        Some(STATUS_DIRECTORY_NOT_EMPTY)
    } else {
        None
    }
}

impl MemFsHandler {
    /// Writes the times back that were held back for handle `h`. A time never goes back.
    pub fn close_file(&mut self, h: usize)
        requires
            old(self)@.wf(),
            old(self)@.handles.contains_key(h),
        ensures
            ({
                let e = old(self)@.handles[h].entry;
                final(self)@ == old(self)@.with_stat(
                    e,
                    times_raised(old(self)@.entries[e].stat, old(self)@.handles[h]),
                )
            }),
            final(self)@.wf(),
    {
        let ghost before = self@;
        proof {
            lemma_handle_counts(before, h);
        }
        let handle = self.handle(h);
        let stat = self.stat_mut(handle.entry);
        if let Some(mtime) = handle.mtime_delayed {
            if mtime > stat.mtime {
                stat.mtime = mtime;
            }
        }
        if let Some(atime) = handle.atime_delayed {
            if atime > stat.atime {
                stat.atime = atime;
            }
        }
        proof {
            lemma_same_shape(before, self@, ROOT);
        }
    }

    /// Sets the attributes of the entry that handle `h` is on.
    pub fn set_file_attributes(&mut self, h: usize, file_attributes: u32, now: u64) -> (r: Result<
        (),
        OperationError,
    >)
        requires
            old(self)@.wf(),
            old(self)@.handles.contains_key(h),
        ensures
            r == Ok::<(), OperationError>(()),
            ({
                let handle = old(self)@.handles[h];
                let stat = old(self)@.entries[handle.entry].stat;
                final(self)@ == old(self)@.with_stat(
                    handle.entry,
                    handle.accessed(
                        StatView { attrs: file_attributes & SUPPORTED_ATTRS, ..stat },
                        now,
                    ),
                )
            }),
            final(self)@.wf(),
    {
        let ghost before = self@;
        proof {
            lemma_handle_counts(before, h);
        }
        let handle = self.handle(h);
        let stat = self.stat_mut(handle.entry);
        stat.attrs = Attributes::new(file_attributes);
        handle.update_atime(stat, now);
        proof {
            lemma_masked_supported(file_attributes);
            lemma_same_shape(before, self@, ROOT);
        }
        Ok(())
    }

    /// Sets the times of the entry that handle `h` is on, or switches their updates through this
    /// handle off and on.
    pub fn set_file_time(
        &mut self,
        h: usize,
        creation_time: FileTimeInfo,
        last_access_time: FileTimeInfo,
        last_write_time: FileTimeInfo,
    ) -> (r: Result<(), OperationError>)
        requires
            old(self)@.wf(),
            old(self)@.handles.contains_key(h),
        ensures
            r == Ok::<(), OperationError>(()),
            final(self)@ == times_set(
                old(self)@,
                h,
                creation_time,
                last_access_time,
                last_write_time,
            ),
            final(self)@.wf(),
    {
        let ghost before = self@;
        proof {
            lemma_handle_counts(before, h);
        }
        let mut handle = self.handle(h);
        let stat = self.stat_mut(handle.entry);
        let (ctime, ctime_enabled) = creation_time.process(stat.ctime, handle.ctime_enabled);
        let (mtime, mtime_enabled) = last_write_time.process(stat.mtime, handle.mtime_enabled);
        let (atime, atime_enabled) = last_access_time.process(stat.atime, handle.atime_enabled);
        stat.ctime = ctime;
        stat.mtime = mtime;
        stat.atime = atime;
        handle.ctime_enabled = ctime_enabled;
        handle.mtime_enabled = mtime_enabled;
        handle.atime_enabled = atime_enabled;
        self.set_handle(h, handle);
        proof {
            lemma_same_shape(before, self@, ROOT);
        }
        Ok(())
    }

    /// Marks what handle `h` is on to be deleted when it is closed, or not to be.
    pub fn delete_file(&mut self, h: usize, delete_on_close: bool) -> (r: Result<
        (),
        OperationError,
    >)
        requires
            old(self)@.wf(),
            old(self)@.handles.contains_key(h),
        ensures
            ({
                let attrs = old(self)@.entries[old(self)@.handles[h].entry].stat.attrs;
                if has(attrs, FILE_ATTRIBUTE_READONLY) {
                    &&& r == Err::<(), OperationError>(
                        OperationError::NtStatus(STATUS_CANNOT_DELETE),
                    )
                    &&& final(self)@ == old(self)@
                } else {
                    &&& r == Ok::<(), OperationError>(())
                    &&& final(self)@ == delete_marked(old(self)@, h, delete_on_close)
                }
            }),
            final(self)@.wf(),
    {
        let ghost before = self@;
        proof {
            lemma_handle_counts(before, h);
        }
        let handle = self.handle(h);
        if has_flag(self.stat(handle.entry).attrs.value, FILE_ATTRIBUTE_READONLY) {
            return nt_res(STATUS_CANNOT_DELETE);
        }
        match handle.alt_stream {
            Some(s) => {
                self.stream_mut(s).delete_pending = delete_on_close;
            },
            None => {
                self.stat_mut(handle.entry).delete_pending = delete_on_close;
            },
        }
        proof {
            lemma_same_shape(before, self@, ROOT);
        }
        Ok(())
    }

    /// Marks the directory that handle `h` is on to be deleted when it is closed, or not to be.
    /// The root directory cannot be deleted, nor a directory that still holds something.
    pub fn delete_directory(&mut self, h: usize, delete_on_close: bool) -> (r: Result<
        (),
        OperationError,
    >)
        requires
            old(self)@.wf(),
            old(self)@.handles.contains_key(h),
        ensures
            match delete_directory_refusal(old(self)@, h, delete_on_close) {
                Some(status) => {
                    &&& r == Err::<(), OperationError>(OperationError::NtStatus(status))
                    &&& final(self)@ == old(self)@
                },
                None => {
                    &&& r == Ok::<(), OperationError>(())
                    &&& final(self)@ == delete_marked(old(self)@, h, delete_on_close)
                },
            },
            final(self)@.wf(),
    {
        let ghost before = self@;
        proof {
            lemma_handle_counts(before, h);
        }
        let handle = self.handle(h);
        let e: usize = handle.entry;
        if handle.alt_stream.is_some() || !self.entry(e).is_dir() {
            return nt_res(STATUS_INVALID_DEVICE_REQUEST);
        }
        match self.stat(e).parent {
            Some(d) => {
                if !self.has_entry(d) {
                    return nt_res(STATUS_ACCESS_DENIED);
                }
            },
            None => return nt_res(STATUS_ACCESS_DENIED),
        }
        if delete_on_close && !self.children(e).is_empty() {
            return nt_res(STATUS_DIRECTORY_NOT_EMPTY);
        }
        self.stat_mut(e).delete_pending = delete_on_close;
        proof {
            lemma_same_shape(before, self@, ROOT);
        }
        Ok(())
    }

    /// Sets the security descriptor of the entry that handle `h` is on to `changed`, unless that
    /// could not be made.
    pub fn set_file_security(
        &mut self,
        h: usize,
        changed: Result<SecurityDescriptor, OperationError>,
        now: u64,
    ) -> (r: Result<(), OperationError>)
        requires
            old(self)@.wf(),
            old(self)@.handles.contains_key(h),
        ensures
            match changed {
                Ok(sec_desc) => {
                    let handle = old(self)@.handles[h];
                    let stat = old(self)@.entries[handle.entry].stat;
                    &&& r == Ok::<(), OperationError>(())
                    &&& final(self)@ == old(self)@.with_stat(
                        handle.entry,
                        handle.accessed(StatView { sec_desc: sec_desc@, ..stat }, now),
                    )
                },
                Err(error) => {
                    &&& r == Err::<(), OperationError>(error)
                    &&& final(self)@ == old(self)@
                },
            },
            final(self)@.wf(),
    {
        let ghost before = self@;
        proof {
            lemma_handle_counts(before, h);
        }
        let handle = self.handle(h);
        match changed {
            Ok(sec_desc) => {
                let stat = self.stat_mut(handle.entry);
                stat.sec_desc = sec_desc;
                handle.update_atime(stat, now);
                proof {
                    lemma_same_shape(before, self@, ROOT);
                }
                Ok(())
            },
            Err(error) => Err(error),
        }
    }
}

} // verus!
