//! Reading and writing through handles.
use vstd::prelude::*;

use crate::attributes::{lemma_archive_supported, FILE_ATTRIBUTE_ARCHIVE};
use crate::data::{capped, low_u32, overwritten, read_at, read_len};
use crate::data::{resize, resized, set_alloc, write_at};
use crate::entry::{Entry, StatView, StreamView};
use crate::handle::EntryHandle;
use crate::keep::{lemma_handle_counts, lemma_same_shape};
use crate::memfs::MemFsHandler;
use crate::model::{FsView, ROOT};
use crate::status::{nt_res, OperationError, STATUS_ACCESS_DENIED, STATUS_INVALID_DEVICE_REQUEST};

verus! {

/// The bytes that handle `h` reads and writes: those of its stream, or of its file.
pub open spec fn bytes_of(fs: FsView, h: usize) -> Option<Seq<u8>> {
    let handle = fs.handles[h];
    match handle.alt_stream {
        Some(s) => Some(fs.streams[s].data),
        None => if fs.entries[handle.entry].is_dir() {
            None
        } else {
            Some(fs.entries[handle.entry].data())
        },
    }
}

/// The file system with `bytes` under handle `h`.
pub open spec fn with_bytes(fs: FsView, h: usize, bytes: Seq<u8>) -> FsView {
    let handle = fs.handles[h];
    match handle.alt_stream {
        Some(s) => fs.with_stream(s, StreamView { data: bytes, ..fs.streams[s] }),
        None => fs.with_data(handle.entry, bytes),
    }
}

/// Handle `h` after a write at `now`: the times are noted with it, each unless its updates are
/// switched off.
pub open spec fn write_noted(handle: EntryHandle, now: u64) -> EntryHandle {
    EntryHandle {
        mtime_delayed: if handle.mtime_enabled {
            Some(now)
        } else {
            handle.mtime_delayed
        },
        atime_delayed: if handle.atime_enabled {
            Some(now)
        } else {
            handle.atime_delayed
        },
        ..handle
    }
}

/// The file system after `buffer` was written through handle `h`.
pub open spec fn written(fs: FsView, h: usize, bytes: Seq<u8>, now: u64) -> FsView {
    let e = fs.handles[h].entry;
    let fs = with_bytes(fs, h, bytes);
    let stat = fs.entries[e].stat;
    fs.with_stat(e, StatView { attrs: stat.attrs | FILE_ATTRIBUTE_ARCHIVE, ..stat }).with_handle(
        h,
        write_noted(fs.handles[h], now),
    )
}

/// The file system after the length of what handle `h` is on was changed.
pub open spec fn resized_through(fs: FsView, h: usize, bytes: Seq<u8>, now: u64) -> FsView {
    let e = fs.handles[h].entry;
    let fs = with_bytes(fs, h, bytes);
    fs.with_stat(e, fs.handles[h].modified(fs.entries[e].stat, now))
}

/// Where a write through handle `h` starts.
pub open spec fn write_start(bytes: Seq<u8>, offset: i64, write_to_eof: bool) -> int {
    if write_to_eof {
        bytes.len() as int
    } else {
        offset as int
    }
}

impl MemFsHandler {
    /// The bytes under handle `h`.
    fn bytes(&self, h: usize) -> (r: Option<&Vec<u8>>)
        requires
            self@.wf(),
            self@.handles.contains_key(h),
        ensures
            match r {
                Some(bytes) => bytes_of(self@, h) == Some(bytes@),
                None => bytes_of(self@, h) is None,
            },
    {
        proof {
            lemma_handle_counts(self@, h);
        }
        let handle = self.handle(h);
        match handle.alt_stream {
            Some(s) => Some(&self.stream(s).data),
            None => match self.entry(handle.entry) {
                Entry::File(file) => Some(&file.data),
                Entry::Directory(_) => None,
            },
        }
    }

    /// The bytes under handle `h`, to be changed.
    fn bytes_mut(&mut self, h: usize) -> (r: &mut Vec<u8>)
        requires
            old(self)@.wf(),
            old(self)@.handles.contains_key(h),
            bytes_of(old(self)@, h) is Some,
        ensures
            bytes_of(old(self)@, h) == Some(r@),
            final(self)@ == with_bytes(old(self)@, h, final(r)@),
    {
        proof {
            lemma_handle_counts(self@, h);
        }
        let handle = self.handle(h);
        match handle.alt_stream {
            Some(s) => &mut self.stream_mut(s).data,
            None => self.data_mut(handle.entry),
        }
    }

    /// How many bytes are under handle `h`, where it can be read and written.
    pub fn len_of(&self, h: usize) -> (r: Option<usize>)
        requires
            self@.wf(),
            self@.handles.contains_key(h),
        ensures
            match r {
                Some(len) => bytes_of(self@, h) is Some && bytes_of(self@, h)->0.len() == len,
                None => bytes_of(self@, h) is None,
            },
    {
        match self.bytes(h) {
            Some(bytes) => Some(bytes.len()),
            None => None,
        }
    }

    /// Reads from `offset` on to the front of `buffer`, and gives the number of bytes read.
    pub fn read_file(&self, h: usize, offset: i64, buffer: &mut [u8]) -> (r: Result<
        u32,
        OperationError,
    >)
        requires
            self@.wf(),
            self@.handles.contains_key(h),
            bytes_of(self@, h) matches Some(bytes) ==> 0 <= offset <= bytes.len(),
        ensures
            match bytes_of(self@, h) {
                Some(bytes) => {
                    let n = read_len(bytes, offset as int, old(buffer)@.len() as int);
                    &&& r == Ok::<u32, OperationError>(low_u32(n))
                    &&& final(buffer)@ == bytes.subrange(offset as int, offset + n) + old(
                        buffer,
                    )@.skip(n)
                },
                None => {
                    &&& r == Err::<u32, OperationError>(
                        OperationError::NtStatus(STATUS_INVALID_DEVICE_REQUEST),
                    )
                    &&& final(buffer)@ == old(buffer)@
                },
            },
    {
        match self.bytes(h) {
            Some(bytes) => {
                let len: usize = bytes.len();
                assert(offset <= len);
                Ok(read_at(bytes, offset as usize, buffer))
            },
            None => nt_res(STATUS_INVALID_DEVICE_REQUEST),
        }
    }

    /// Writes `buffer` at `offset` or at the end, and gives the number of bytes written.
    pub fn write_file(
        &mut self,
        h: usize,
        offset: i64,
        buffer: &[u8],
        write_to_eof: bool,
        now: u64,
    ) -> (r: Result<u32, OperationError>)
        requires
            old(self)@.wf(),
            old(self)@.handles.contains_key(h),
            bytes_of(old(self)@, h) matches Some(bytes) ==> 0 <= write_start(
                bytes,
                offset,
                write_to_eof,
            ) && write_start(bytes, offset, write_to_eof) + buffer@.len() <= isize::MAX,
        ensures
            match bytes_of(old(self)@, h) {
                Some(bytes) => {
                    &&& r == Ok::<u32, OperationError>(low_u32(buffer@.len() as int))
                    &&& final(self)@ == written(
                        old(self)@,
                        h,
                        overwritten(bytes, write_start(bytes, offset, write_to_eof), buffer@),
                        now,
                    )
                },
                None => {
                    &&& r == Err::<u32, OperationError>(
                        OperationError::NtStatus(STATUS_ACCESS_DENIED),
                    )
                    &&& final(self)@ == old(self)@
                },
            },
            final(self)@.wf(),
    {
        let ghost before = self@;
        proof {
            lemma_handle_counts(before, h);
        }
        if self.bytes(h).is_none() {
            return nt_res(STATUS_ACCESS_DENIED);
        }
        let mut handle = self.handle(h);
        let start: usize = if write_to_eof {
            0
        } else {
            offset as usize
        };
        let r: u32 = write_at(self.bytes_mut(h), start, write_to_eof, buffer);
        let stat = self.stat_mut(handle.entry);
        stat.attrs.value = stat.attrs.value | FILE_ATTRIBUTE_ARCHIVE;
        if handle.mtime_enabled {
            handle.mtime_delayed = Some(now);
        }
        if handle.atime_enabled {
            handle.atime_delayed = Some(now);
        }
        self.set_handle(h, handle);
        proof {
            lemma_archive_supported(before.entries[handle.entry].stat.attrs);
            lemma_same_shape(before, self@, ROOT);
        }
        Ok(r)
    }

    /// Nothing is held back, so there is nothing to flush.
    pub fn flush_file_buffers(&self, h: usize) -> (r: Result<(), OperationError>)
        requires
            self@.handles.contains_key(h),
        ensures
            r == Ok::<(), OperationError>(()),
    {
        Ok(())
    }

    /// Makes what handle `h` is on `offset` bytes long.
    pub fn set_end_of_file(&mut self, h: usize, offset: i64, now: u64) -> (r: Result<
        (),
        OperationError,
    >)
        requires
            old(self)@.wf(),
            old(self)@.handles.contains_key(h),
            bytes_of(old(self)@, h) is Some ==> 0 <= offset <= isize::MAX,
        ensures
            match bytes_of(old(self)@, h) {
                Some(bytes) => {
                    &&& r == Ok::<(), OperationError>(())
                    &&& final(self)@ == resized_through(
                        old(self)@,
                        h,
                        resized(bytes, offset as int),
                        now,
                    )
                },
                None => {
                    &&& r == Err::<(), OperationError>(
                        OperationError::NtStatus(STATUS_INVALID_DEVICE_REQUEST),
                    )
                    &&& final(self)@ == old(self)@
                },
            },
            final(self)@.wf(),
    {
        let ghost before = self@;
        proof {
            lemma_handle_counts(before, h);
        }
        if self.bytes(h).is_none() {
            return nt_res(STATUS_INVALID_DEVICE_REQUEST);
        }
        let handle = self.handle(h);
        resize(self.bytes_mut(h), offset as usize);
        handle.update_mtime(self.stat_mut(handle.entry), now);
        proof {
            lemma_same_shape(before, self@, ROOT);
        }
        Ok(())
    }

    /// Makes room for `alloc_size` bytes under handle `h`; what lies behind them is cut off.
    pub fn set_allocation_size(&mut self, h: usize, alloc_size: i64, now: u64) -> (r: Result<
        (),
        OperationError,
    >)
        requires
            old(self)@.wf(),
            old(self)@.handles.contains_key(h),
            bytes_of(old(self)@, h) is Some ==> 0 <= alloc_size <= isize::MAX,
        ensures
            match bytes_of(old(self)@, h) {
                Some(bytes) => {
                    &&& r == Ok::<(), OperationError>(())
                    &&& final(self)@ == resized_through(
                        old(self)@,
                        h,
                        capped(bytes, alloc_size as int),
                        now,
                    )
                },
                None => {
                    &&& r == Err::<(), OperationError>(
                        OperationError::NtStatus(STATUS_INVALID_DEVICE_REQUEST),
                    )
                    &&& final(self)@ == old(self)@
                },
            },
            final(self)@.wf(),
    {
        let ghost before = self@;
        proof {
            lemma_handle_counts(before, h);
        }
        if self.bytes(h).is_none() {
            return nt_res(STATUS_INVALID_DEVICE_REQUEST);
        }
        let handle = self.handle(h);
        set_alloc(self.bytes_mut(h), alloc_size as usize);
        handle.update_mtime(self.stat_mut(handle.entry), now);
        proof {
            lemma_same_shape(before, self@, ROOT);
        }
        Ok(())
    }
}

} // verus!
