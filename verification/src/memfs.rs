//! The file system and its tables.
use vstd::prelude::*;

use crate::attributes::SUPPORTED_ATTRS;
use crate::entry::{AltStream, DirEntry, Entry, EntryView, SecurityDescriptor, Stat, StreamView};
use crate::handle::EntryHandle;
use crate::keep::{lemma_counts_bounded, lemma_empty_fs, lemma_opened};
use crate::model::{empty_fs, FsView};
use crate::name::NameMap;

verus! {

/// A file system that lives in memory.
#[derive(Debug)]
pub struct MemFsHandler {
    id_counter: u64,
    entries: Vec<Option<Box<Entry>>>,
    streams: Vec<Option<Box<AltStream>>>,
    handles: Vec<Option<EntryHandle>>,
}

spec fn entry_table(slots: Seq<Option<Box<Entry>>>) -> Map<usize, EntryView> {
    Map::new(
        |i: usize| i < slots.len() && slots[i as int] is Some,
        |i: usize| slots[i as int]->0@,
    )
}

spec fn stream_table(slots: Seq<Option<Box<AltStream>>>) -> Map<usize, StreamView> {
    Map::new(
        |i: usize| i < slots.len() && slots[i as int] is Some,
        |i: usize| slots[i as int]->0@,
    )
}

spec fn handle_table(slots: Seq<Option<EntryHandle>>) -> Map<usize, EntryHandle> {
    Map::new(|i: usize| i < slots.len() && slots[i as int] is Some, |i: usize| slots[i as int]->0)
}

impl MemFsHandler {
    pub closed spec fn view(&self) -> FsView {
        FsView {
            id_counter: self.id_counter,
            entries: entry_table(self.entries@),
            next_entry: self.entries@.len(),
            streams: stream_table(self.streams@),
            next_stream: self.streams@.len(),
            handles: handle_table(self.handles@),
        }
    }

    /// A file system with nothing but a root directory.
    pub fn new(sec_desc: SecurityDescriptor, now: u64) -> (r: Self)
        ensures
            r@ == empty_fs(sec_desc@, now),
            r@.wf(),
    {
        let stat = Stat::new(0, 0, sec_desc, None, now);
        let mut r = MemFsHandler {
            id_counter: 1,
            entries: Vec::new(),
            streams: Vec::new(),
            handles: Vec::new(),
        };
        r.entries.push(Some(Box::new(Entry::Directory(DirEntry::new(stat)))));
        proof {
            assert(0u32 & SUPPORTED_ATTRS == 0) by (bit_vector);
            assert(r@ =~= empty_fs(sec_desc@, now));
            lemma_empty_fs(sec_desc@, now);
        }
        r
    }

    pub(crate) fn has_entry(&self, e: usize) -> (r: bool)
        ensures
            r == self@.entries.contains_key(e),
    {
        e < self.entries.len() && self.entries[e].is_some()
    }

    /// Whether `h` is the number of an open handle.
    pub fn is_open(&self, h: usize) -> (r: bool)
        ensures
            r == self@.handles.contains_key(h),
    {
        h < self.handles.len() && self.handles[h].is_some()
    }

    /// Whether `e` is the number of a directory.
    pub fn is_directory(&self, e: usize) -> (r: bool)
        ensures
            r == (self@.entries.contains_key(e) && self@.entries[e].is_dir()),
    {
        self.has_entry(e) && self.entry(e).is_dir()
    }

    pub(crate) fn entry(&self, e: usize) -> (r: &Entry)
        requires
            self@.entries.contains_key(e),
        ensures
            r@ == self@.entries[e],
    {
        match &self.entries[e] {
            Some(entry) => entry,
            None => vstd::pervasive::unreached(),
        }
    }

    pub(crate) fn stat(&self, e: usize) -> (r: &Stat)
        requires
            self@.entries.contains_key(e),
        ensures
            r@ == self@.entries[e].stat,
    {
        self.entry(e).stat()
    }

    pub(crate) fn stat_mut(&mut self, e: usize) -> (r: &mut Stat)
        requires
            old(self)@.entries.contains_key(e),
        ensures
            r@ == old(self)@.entries[e].stat,
            final(self)@ == old(self)@.with_stat(e, final(r)@),
    {
        match &mut self.entries[e] {
            Some(entry) => {
                let r = entry.stat_mut();
                proof {
                    assert(after_borrow(self)@.entries =~= old(self)@.with_stat(e, final(r)@).entries);
                }
                r
            },
            None => vstd::pervasive::unreached(),
        }
    }

    pub(crate) fn data_mut(&mut self, e: usize) -> (r: &mut Vec<u8>)
        requires
            old(self)@.entries.contains_key(e),
            !old(self)@.entries[e].is_dir(),
        ensures
            r@ == old(self)@.entries[e].data(),
            final(self)@ == old(self)@.with_data(e, final(r)@),
    {
        match &mut self.entries[e] {
            Some(entry) => match &mut **entry {
                Entry::File(file) => {
                    let r = &mut file.data;
                    proof {
                        assert(after_borrow(self)@.entries =~= old(self)@.with_data(
                            e,
                            final(r)@,
                        ).entries);
                    }
                    r
                },
                Entry::Directory(_) => vstd::pervasive::unreached(),
            },
            None => vstd::pervasive::unreached(),
        }
    }

    pub(crate) fn children_mut(&mut self, e: usize) -> (r: &mut NameMap)
        requires
            old(self)@.entries.contains_key(e),
            old(self)@.entries[e].is_dir(),
        ensures
            r@ == old(self)@.entries[e].children(),
            final(self)@ == old(self)@.with_children(e, final(r)@),
    {
        match &mut self.entries[e] {
            Some(entry) => match &mut **entry {
                Entry::Directory(dir) => {
                    let r = &mut dir.children;
                    proof {
                        assert(after_borrow(self)@.entries =~= old(self)@.with_children(
                            e,
                            final(r)@,
                        ).entries);
                    }
                    r
                },
                Entry::File(_) => vstd::pervasive::unreached(),
            },
            None => vstd::pervasive::unreached(),
        }
    }

    pub(crate) fn children(&self, e: usize) -> (r: &NameMap)
        requires
            self@.entries.contains_key(e),
            self@.entries[e].is_dir(),
        ensures
            r@ == self@.entries[e].children(),
    {
        match self.entry(e) {
            Entry::Directory(dir) => &dir.children,
            Entry::File(_) => vstd::pervasive::unreached(),
        }
    }

    pub(crate) fn stream(&self, s: usize) -> (r: &AltStream)
        requires
            self@.streams.contains_key(s),
        ensures
            r@ == self@.streams[s],
    {
        match &self.streams[s] {
            Some(stream) => stream,
            None => vstd::pervasive::unreached(),
        }
    }

    pub(crate) fn stream_mut(&mut self, s: usize) -> (r: &mut AltStream)
        requires
            old(self)@.streams.contains_key(s),
        ensures
            r@ == old(self)@.streams[s],
            final(self)@ == old(self)@.with_stream(s, final(r)@),
    {
        match &mut self.streams[s] {
            Some(stream) => {
                let r = &mut **stream;
                proof {
                    assert(after_borrow(self)@.streams =~= old(self)@.with_stream(
                        s,
                        final(r)@,
                    ).streams);
                }
                r
            },
            None => vstd::pervasive::unreached(),
        }
    }

    pub(crate) fn handle(&self, h: usize) -> (r: EntryHandle)
        requires
            self@.handles.contains_key(h),
        ensures
            r == self@.handles[h],
    {
        match self.handles[h] {
            Some(handle) => handle,
            None => vstd::pervasive::unreached(),
        }
    }

    pub(crate) fn set_handle(&mut self, h: usize, handle: EntryHandle)
        requires
            old(self)@.handles.contains_key(h),
        ensures
            final(self)@ == old(self)@.with_handle(h, handle),
    {
        self.handles[h] = Some(handle);
        proof {
            assert(self@.handles =~= old(self)@.with_handle(h, handle).handles);
        }
    }

    pub(crate) fn add_entry(&mut self, entry: Entry) -> (r: usize)
        ensures
            r == old(self)@.next_entry,
            r < usize::MAX,
            final(self)@ == old(self)@.plus_entry(entry@),
    {
        let r: usize = self.entries.len();
        self.entries.push(Some(Box::new(entry)));
        proof {
            assert(self.entries.len() == r + 1);
            assert(self@.entries =~= old(self)@.plus_entry(entry@).entries);
        }
        r
    }

    pub(crate) fn add_stream(&mut self, stream: AltStream) -> (r: usize)
        ensures
            r == old(self)@.next_stream,
            r < usize::MAX,
            final(self)@ == old(self)@.plus_stream(stream@),
    {
        let r: usize = self.streams.len();
        self.streams.push(Some(Box::new(stream)));
        proof {
            assert(self.streams.len() == r + 1);
            assert(self@.streams =~= old(self)@.plus_stream(stream@).streams);
        }
        r
    }

    /// Puts `handle` under a number that no handle has.
    pub(crate) fn add_handle(&mut self, handle: EntryHandle) -> (r: usize)
        ensures
            !old(self)@.handles.contains_key(r),
            final(self)@ == old(self)@.with_handle(r, handle),
    {
        let mut h: usize = 0;
        while h < self.handles.len() && self.handles[h].is_some()
            invariant
                h <= self.handles@.len(),
                self == old(self),
            decreases self.handles@.len() - h,
        {
            h += 1;
        }
        if h < self.handles.len() {
            self.handles[h] = Some(handle);
        } else {
            self.handles.push(Some(handle));
        }
        proof {
            assert(self@.handles =~= old(self)@.with_handle(h, handle).handles);
        }
        h
    }

    pub(crate) fn take_entry(&mut self, e: usize) -> (r: Entry)
        requires
            old(self)@.entries.contains_key(e),
        ensures
            r@ == old(self)@.entries[e],
            final(self)@ == old(self)@.minus_entry(e),
    {
        let mut slot: Option<Box<Entry>> = None;
        std::mem::swap(&mut slot, &mut self.entries[e]);
        proof {
            assert(self@.entries =~= old(self)@.minus_entry(e).entries);
        }
        match slot {
            Some(entry) => *entry,
            None => vstd::pervasive::unreached(),
        }
    }

    pub(crate) fn remove_stream(&mut self, s: usize)
        requires
            old(self)@.streams.contains_key(s),
        ensures
            final(self)@ == old(self)@.minus_stream(s),
    {
        self.streams[s] = None;
        proof {
            assert(self@.streams =~= old(self)@.minus_stream(s).streams);
        }
    }

    pub(crate) fn remove_handle(&mut self, h: usize)
        requires
            old(self)@.handles.contains_key(h),
        ensures
            final(self)@ == old(self)@.minus_handle(h),
    {
        self.handles[h] = None;
        proof {
            assert(self@.handles =~= old(self)@.minus_handle(h).handles);
        }
    }

    /// Opens a handle on entry `e`, or on stream `alt_stream` of it.
    pub(crate) fn open_handle(
        &mut self,
        e: usize,
        alt_stream: Option<usize>,
        delete_on_close: bool,
    ) -> (r: usize)
        requires
            old(self)@.wf(),
            old(self)@.entries.contains_key(e),
            old(self)@.has_handle_room(e),
            alt_stream is Some ==> old(self)@.owned(e, alt_stream->0),
        ensures
            !old(self)@.handles.contains_key(r),
            final(self)@ == old(self)@.opened(r, e, alt_stream, delete_on_close),
            final(self)@.wf(),
    {
        let ghost before = self@;
        proof {
            if let Some(s) = alt_stream {
                lemma_counts_bounded(self@, e, s);
            }
        }
        let count: u32 = self.stat(e).handle_count;
        self.stat_mut(e).handle_count = count + 1;
        if let Some(s) = alt_stream {
            let count: u32 = self.stream(s).handle_count;
            self.stream_mut(s).handle_count = count + 1;
        }
        let r: usize = self.add_handle(EntryHandle::new(e, alt_stream, delete_on_close));
        proof {
            assert(self@ == before.opened(r, e, alt_stream, delete_on_close));
            lemma_opened(before, r, e, alt_stream, delete_on_close);
        }
        r
    }

    /// The identifier for a new entry. The counter starts again behind the largest number.
    pub fn next_id(&mut self) -> (r: u64)
        ensures
            r == old(self)@.id_counter,
            final(self)@ == old(self)@.with_id_spent(),
    {
        let r: u64 = self.id_counter;
        self.id_counter = self.id_counter.wrapping_add(1);
        r
    }
}

} // verus!
