//! Closing handles.
use vstd::prelude::*;

use crate::entry::{Names, StatView, StreamView};
use crate::handle::EntryHandle;
use crate::keep::{handle_gone, lemma_handle_counts, lemma_handle_gone, lemma_hangs};
use crate::keep::{lemma_same_shape, lemma_stream_gone, lemma_unlinked, stream_gone};
use crate::memfs::MemFsHandler;
use crate::model::{FsView, ROOT};
use crate::name::folded;
use crate::release::{freed, without};

verus! {

/// The name under which `names` leads to `id`.
pub open spec fn key_of(names: Names, id: usize) -> Seq<u16> {
    choose|key: Seq<u16>| #[trigger] names.contains_key(key) && names[key].id == id
}

/// Closing handle `h` takes its entry out of its directory: the entry is to be deleted, and no
/// other handle is on it. The root directory stays.
pub open spec fn unlinks(fs: FsView, h: usize) -> bool {
    let handle = fs.handles[h];
    let stat = fs.entries[handle.entry].stat;
    &&& handle.entry != ROOT
    &&& stat.delete_pending || handle.delete_on_close && handle.alt_stream is None
    &&& stat.handle_count == 1
}

/// Closing handle `h` leaves nothing that holds its entry.
pub open spec fn lets_go(fs: FsView, h: usize) -> bool {
    let e = fs.handles[h].entry;
    &&& fs.entries[e].stat.handle_count == 1
    &&& unlinks(fs, h) || e != ROOT && !fs.parent_live(e)
}

/// Handle `h` can be closed. The entry of the last handle on it is not to be deleted where there
/// is no directory to take it from, nor where the directory is the entry itself.
pub open spec fn can_close(fs: FsView, h: usize) -> bool {
    let e = fs.handles[h].entry;
    unlinks(fs, h) ==> fs.parent_live(e) && fs.entries[e].stat.parent != Some(e)
}

/// Closing a handle on stream `s` deletes the stream.
pub open spec fn drops_stream(stream: StreamView, handle: EntryHandle) -> bool {
    (stream.delete_pending || handle.delete_on_close) && stream.handle_count == 1
}

/// Stream `s` after `handle`, which was on it, is closed.
pub open spec fn stream_closed(
    fs: FsView,
    handle: EntryHandle,
    s: usize,
    stream_now: u64,
    removal_now: u64,
) -> FsView {
    let e = handle.entry;
    let stat = StatView { mtime: stream_now, ..fs.entries[e].stat };
    if drops_stream(fs.streams[s], handle) {
        fs.with_stat(
            e,
            handle.accessed(
                StatView { alt_streams: stat.alt_streams.remove(key_of(stat.alt_streams, s)), ..stat },
                removal_now,
            ),
        ).minus_stream(s)
    } else {
        fs.with_stat(e, stat).with_stream(
            s,
            StreamView {
                handle_count: (fs.streams[s].handle_count - 1) as u32,
                delete_pending: fs.streams[s].delete_pending || handle.delete_on_close,
                ..fs.streams[s]
            },
        )
    }
}

/// Directory `d` without entry `e`.
pub open spec fn unlinked(fs: FsView, d: usize, e: usize, parent_now: u64) -> FsView {
    let children = fs.entries[d].children();
    fs.with_children(d, children.remove(key_of(children, e))).with_stat(
        d,
        fs.entries[d].stat.modified(parent_now),
    )
}

/// The file system after handle `h` is closed, before entries that nothing holds go.
pub open spec fn handle_closed(
    fs: FsView,
    h: usize,
    parent_now: u64,
    stream_now: u64,
    removal_now: u64,
) -> FsView {
    let handle = fs.handles[h];
    let e = handle.entry;
    let stat = fs.entries[e].stat;
    let less = fs.minus_handle(h).with_stat(
        e,
        StatView {
            handle_count: (stat.handle_count - 1) as u32,
            delete_pending: unlinks(fs, h),
            ..stat
        },
    );
    let less = match handle.alt_stream {
        Some(s) => stream_closed(less, handle, s, stream_now, removal_now),
        None => less,
    };
    if unlinks(fs, h) {
        unlinked(less, stat.parent->0, e, parent_now)
    } else {
        less
    }
}

/// The file system after handle `h` is closed.
pub open spec fn closed(
    fs: FsView,
    h: usize,
    parent_now: u64,
    stream_now: u64,
    removal_now: u64,
) -> FsView {
    let less = handle_closed(fs, h, parent_now, stream_now, removal_now);
    if lets_go(fs, h) {
        without(less, freed(less, fs.handles[h].entry))
    } else {
        less
    }
}

impl MemFsHandler {
    /// Whether handle `h` can be closed.
    pub fn can_drop(&self, h: usize) -> (r: bool)
        requires
            self@.wf(),
            self@.handles.contains_key(h),
        ensures
            r == can_close(self@, h),
    {
        proof {
            lemma_handle_counts(self@, h);
        }
        let handle = self.handle(h);
        let stat = self.stat(handle.entry);
        let pending = stat.delete_pending || handle.delete_on_close && handle.alt_stream.is_none();
        if handle.entry != ROOT && pending && stat.handle_count == 1 {
            match stat.parent {
                Some(d) => self.has_entry(d) && d != handle.entry,
                None => false,
            }
        } else {
            true
        }
    }

    /// Closes handle `h`. `parent_now` is the time at which the entry is taken out of its
    /// directory, `stream_now` that at which the stream is let go of, and `removal_now` that at
    /// which the stream is deleted.
    pub fn drop_handle(&mut self, h: usize, parent_now: u64, stream_now: u64, removal_now: u64)
        requires
            old(self)@.wf(),
            old(self)@.handles.contains_key(h),
            can_close(old(self)@, h),
        ensures
            final(self)@ == closed(old(self)@, h, parent_now, stream_now, removal_now),
            final(self)@.wf(),
    {
        let ghost before = self@;
        proof {
            lemma_handle_counts(before, h);
        }
        let handle = self.handle(h);
        let e: usize = handle.entry;
        let parent: Option<usize> = self.stat(e).parent;
        let count: u32 = self.stat(e).handle_count - 1;
        let pending = self.stat(e).delete_pending || handle.delete_on_close
            && handle.alt_stream.is_none();
        let remove = e != ROOT && pending && count == 0;
        self.remove_handle(h);
        let stat = self.stat_mut(e);
        stat.handle_count = count;
        stat.delete_pending = remove;
        proof {
            if handle.alt_stream is None {
                lemma_handle_gone(before, self@, h);
            }
        }
        if let Some(s) = handle.alt_stream {
            self.drop_stream(s, handle, stream_now, removal_now, Ghost(before), Ghost(h));
        }
        let ghost less = self@;
        if remove {
            if let Some(d) = parent {
                proof {
                    let key = choose|key: Seq<u16>| #[trigger] before.links(d, key, e);
                    assert(less.links(d, key, e));
                }
                self.unlink(d, e, parent_now);
            }
        }
        let orphan = e != ROOT && match parent {
            Some(d) => !self.has_entry(d),
            None => true,
        };
        if count == 0 && (remove || orphan) {
            self.release(e);
        } else {
            proof {
                let d = before.entries[e].stat.parent->0;
                if e != ROOT && self@.entries.contains_key(d) {
                    let key = choose|key: Seq<u16>| #[trigger] before.links(d, key, e);
                    assert(before.links(d, key, e));
                    assert(self@.links(d, key, e));
                }
                lemma_hangs(self@, e);
            }
        }
    }

    /// Lets go of stream `s` for `handle`, which was number `h` and is away already.
    fn drop_stream(
        &mut self,
        s: usize,
        handle: EntryHandle,
        stream_now: u64,
        removal_now: u64,
        Ghost(before): Ghost<FsView>,
        Ghost(h): Ghost<usize>,
    )
        requires
            before.wf(),
            before.handles.contains_key(h),
            before.handles[h] == handle,
            handle.alt_stream == Some(s),
            old(self)@.streams == before.streams,
            handle_gone(
                before,
                old(self)@.with_stream(
                    s,
                    (StreamView {
                        handle_count: (before.streams[s].handle_count - 1) as u32,
                        ..before.streams[s]
                    }),
                ),
                h,
            ),
        ensures
            final(self)@ == stream_closed(old(self)@, handle, s, stream_now, removal_now),
            final(self)@.wf_but(handle.entry),
    {
        let ghost start = self@;
        let e: usize = handle.entry;
        proof {
            lemma_handle_counts(before, h);
            assert(before.entries.dom().contains(e));
            assert(start.entries.contains_key(e));
        }
        self.stat_mut(e).mtime = stream_now;
        let pending = self.stream(s).delete_pending || handle.delete_on_close;
        let count: u32 = self.stream(s).handle_count - 1;
        let stream = self.stream_mut(s);
        stream.delete_pending = pending;
        stream.handle_count = count;
        let ghost mid = self@;
        proof {
            assert(handle_gone(before, mid, h));
            lemma_handle_gone(before, mid, h);
        }
        if pending && count == 0 {
            proof {
                let key = choose|key: Seq<u16>| #[trigger] before.owns(e, key, s);
                assert(before.owns(e, key, s));
                assert(mid.owns(e, key, s));
            }
            match self.stat(e).alt_streams.find(s) {
                Some(name) => {
                    let ghost key = folded(name@);
                    proof {
                        assert(mid.owns(e, key, s));
                        let names = mid.entries[e].stat.alt_streams;
                        assert(names.contains_key(key) && names[key].id == s);
                        assert(mid.owns(e, key_of(names, s), s));
                    }
                    let stat = self.stat_mut(e);
                    let _ = stat.alt_streams.remove(name.borrow());
                    handle.update_atime(stat, removal_now);
                    self.remove_stream(s);
                    proof {
                        assert(stream_gone(mid, self@, e, key, s));
                        lemma_stream_gone(mid, self@, e, key, s, e);
                        assert(self@ =~= stream_closed(start, handle, s, stream_now, removal_now));
                    }
                },
                None => vstd::pervasive::unreached(),
            }
        }
    }

    /// Takes entry `e` out of directory `d`.
    fn unlink(&mut self, d: usize, e: usize, parent_now: u64)
        requires
            old(self)@.wf_but(e),
            old(self)@.linked(d, e),
        ensures
            final(self)@ == unlinked(old(self)@, d, e, parent_now),
            final(self)@.wf_but(e),
            forall|x: usize, key: Seq<u16>| !#[trigger] final(self)@.links(x, key, e),
    {
        let ghost start = self@;
        proof {
            let key = choose|key: Seq<u16>| #[trigger] start.links(d, key, e);
            assert(start.links(d, key, e));
        }
        match self.children(d).find(e) {
            Some(name) => {
                let ghost key = folded(name@);
                proof {
                    assert(start.links(d, key, e));
                    let names = start.entries[d].children();
                    assert(names.contains_key(key) && names[key].id == e);
                    assert(start.links(d, key_of(names, e), e));
                    lemma_unlinked(start, d, key, e);
                }
                let _ = self.children_mut(d).remove(name.borrow());
                let ghost mid = self@;
                self.stat_mut(d).update_mtime(parent_now);
                proof {
                    lemma_same_shape(mid, self@, e);
                    assert forall|x: usize, k: Seq<u16>| !#[trigger] self@.links(x, k, e) by {
                        assert(!mid.links(x, k, e));
                    }
                }
            },
            None => vstd::pervasive::unreached(),
        }
    }
}

} // verus!
