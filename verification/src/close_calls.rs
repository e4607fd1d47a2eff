//! What a call that closes a handle does, told by what it finds and leaves.
use vstd::prelude::*;

use crate::calls::{entries_but, same_numbers, streams_but};
use crate::close::{handle_closed, key_of};
use crate::entry::{StatView, StreamView};
use crate::keep::lemma_handle_counts;
use crate::memfs::MemFsHandler;
use crate::model::{FsView, ROOT};
use crate::release::{freed, lemma_freed_from, lemma_freed_self, lemma_freed_step};

verus! {

/// Handle `h` is the only one on its entry, and the entry is to be deleted: it was marked, or the
/// handle was opened on the entry itself to delete it.
pub open spec fn last_to_delete(fs: FsView, h: usize) -> bool {
    let handle = fs.handles[h];
    let stat = fs.entries[handle.entry].stat;
    &&& stat.delete_pending || (handle.delete_on_close && handle.alt_stream is None)
    &&& stat.handle_count == 1
}

/// Handle `h` is the only one on its entry, and the directory of the entry is gone.
pub open spec fn last_outside(fs: FsView, h: usize) -> bool {
    let stat = fs.entries[fs.handles[h].entry].stat;
    &&& stat.handle_count == 1
    &&& stat.parent is None || !fs.entries.contains_key(stat.parent->0)
}

/// The directory of what handle `h` is on is there, and is not that itself, or is not needed.
pub open spec fn droppable(fs: FsView, h: usize) -> bool {
    let e = fs.handles[h].entry;
    let parent = fs.entries[e].stat.parent;
    e != ROOT && last_to_delete(fs, h) ==> parent is Some && parent->0 != e
        && fs.entries.contains_key(parent->0)
}

/// A handle can be closed, unless it is the last one on an entry to be deleted whose directory is
/// gone or the entry itself.
pub proof fn law_can_drop(fs: &MemFsHandler, h: usize, r: bool)
    requires
        fs@.wf(),
        fs@.handles.contains_key(h),
        call_ensures(MemFsHandler::can_drop, (fs, h), r),
    ensures
        r == droppable(fs@, h),
{
}

/// When the last handle on an entry that is to be deleted is closed, the entry is gone, whatever it
/// holds, and nothing is found under the name that it had. The root directory stays.
pub proof fn law_last_close_removes(
    fs: &mut MemFsHandler,
    h: usize,
    parent_now: u64,
    stream_now: u64,
    removal_now: u64,
)
    requires
        old(fs)@.wf(),
        old(fs)@.handles.contains_key(h),
        old(fs)@.handles[h].entry != ROOT,
        old(fs)@.entries[old(fs)@.handles[h].entry].stat.handle_count == 1,
        old(fs)@.entries[old(fs)@.handles[h].entry].stat.delete_pending || (old(
            fs,
        )@.handles[h].delete_on_close && old(fs)@.handles[h].alt_stream is None),
        call_ensures(MemFsHandler::drop_handle, (fs, h, parent_now, stream_now, removal_now), ()),
    ensures
        ({
            let a = old(fs)@;
            let b = final(fs)@;
            let e = a.handles[h].entry;
            &&& a.entries.contains_key(e)
            &&& !b.entries.contains_key(e)
            &&& forall|d: usize, key: Seq<u16>| #[trigger]
                a.links(d, key, e) && b.entries.contains_key(d)
                    ==> !b.entries[d].children().contains_key(key)
        }),
{
    let a = old(fs)@;
    let b = final(fs)@;
    let e = a.handles[h].entry;
    lemma_handle_counts(a, h);
    let less = handle_closed(a, h, parent_now, stream_now, removal_now);
    lemma_freed_self(less, e);
    assert forall|d: usize, key: Seq<u16>| #[trigger]
        a.links(d, key, e) && b.entries.contains_key(
            d,
        ) implies !b.entries[d].children().contains_key(key) by {
        let names = a.entries[d].children();
        assert(names.contains_key(key) && names[key].id == e);
        assert(a.links(d, key_of(names, e), e));
        assert(d != e);
    }
}

/// Closing takes away the handle and no other, and numbers nothing.
pub proof fn law_close_takes_handle(
    fs: &mut MemFsHandler,
    h: usize,
    parent_now: u64,
    stream_now: u64,
    removal_now: u64,
)
    requires
        old(fs)@.handles.contains_key(h),
        call_ensures(MemFsHandler::drop_handle, (fs, h, parent_now, stream_now, removal_now), ()),
    ensures
        final(fs)@.handles == old(fs)@.handles.remove(h),
        same_numbers(old(fs)@, final(fs)@),
{
}

/// Closing a handle on an entry itself, where the entry stays, counts it off and takes the mark of
/// deletion away; nothing else changes.
pub proof fn law_close_keeps_entry(
    fs: &mut MemFsHandler,
    h: usize,
    parent_now: u64,
    stream_now: u64,
    removal_now: u64,
)
    requires
        old(fs)@.wf(),
        old(fs)@.handles.contains_key(h),
        old(fs)@.handles[h].alt_stream is None,
        old(fs)@.handles[h].entry == ROOT || !(last_to_delete(old(fs)@, h) || last_outside(
            old(fs)@,
            h,
        )),
        call_ensures(MemFsHandler::drop_handle, (fs, h, parent_now, stream_now, removal_now), ()),
    ensures
        ({
            let a = old(fs)@;
            let b = final(fs)@;
            let e = a.handles[h].entry;
            &&& entries_but(a, b, e)
            &&& b.entries[e].content == a.entries[e].content
            &&& b.entries[e].stat == StatView {
                handle_count: (a.entries[e].stat.handle_count - 1) as u32,
                delete_pending: false,
                ..a.entries[e].stat
            }
            &&& b.streams == a.streams
        }),
{
    lemma_handle_counts(old(fs)@, h);
}

/// Closing a handle on a stream, where its entry stays, counts it off both. The stream goes when
/// its last handle does, if it is to be deleted, and then its name goes too; until then it is only
/// marked. The entry counts as changed, and as accessed where the stream goes.
pub proof fn law_close_stream(
    fs: &mut MemFsHandler,
    h: usize,
    parent_now: u64,
    stream_now: u64,
    removal_now: u64,
    s: usize,
)
    requires
        old(fs)@.wf(),
        old(fs)@.handles.contains_key(h),
        old(fs)@.handles[h].alt_stream == Some(s),
        old(fs)@.handles[h].entry == ROOT || !(last_to_delete(old(fs)@, h) || last_outside(
            old(fs)@,
            h,
        )),
        call_ensures(MemFsHandler::drop_handle, (fs, h, parent_now, stream_now, removal_now), ()),
    ensures
        ({
            let a = old(fs)@;
            let b = final(fs)@;
            let handle = a.handles[h];
            let e = handle.entry;
            let stat = a.entries[e].stat;
            let pending = a.streams[s].delete_pending || handle.delete_on_close;
            &&& entries_but(a, b, e)
            &&& b.entries[e].content == a.entries[e].content
            &&& if pending && a.streams[s].handle_count == 1 {
                &&& b.streams == a.streams.remove(s)
                &&& forall|key: Seq<u16>| #[trigger]
                    b.entries[e].stat.alt_streams.contains_key(key)
                        <==> stat.alt_streams.contains_key(key) && stat.alt_streams[key].id != s
                &&& forall|key: Seq<u16>| #[trigger]
                    b.entries[e].stat.alt_streams.contains_key(key)
                        ==> b.entries[e].stat.alt_streams[key] == stat.alt_streams[key]
                &&& b.entries[e].stat == StatView {
                    mtime: stream_now,
                    atime: if handle.atime_enabled {
                        removal_now
                    } else {
                        stat.atime
                    },
                    handle_count: (stat.handle_count - 1) as u32,
                    delete_pending: false,
                    alt_streams: b.entries[e].stat.alt_streams,
                    ..stat
                }
            } else {
                &&& streams_but(a, b, s)
                &&& b.streams[s] == StreamView {
                    handle_count: (a.streams[s].handle_count - 1) as u32,
                    delete_pending: pending,
                    data: a.streams[s].data,
                }
                &&& b.entries[e].stat == StatView {
                    mtime: stream_now,
                    handle_count: (stat.handle_count - 1) as u32,
                    delete_pending: false,
                    ..stat
                }
            }
        }),
{
    let a = old(fs)@;
    let b = final(fs)@;
    let e = a.handles[h].entry;
    lemma_handle_counts(a, h);
    let names = a.entries[e].stat.alt_streams;
    let gone = key_of(names, s);
    let own = choose|key: Seq<u16>| #[trigger] a.owns(e, key, s);
    assert(a.owns(e, own, s));
    assert(names.contains_key(own) && names[own].id == s);
    assert(a.owns(e, gone, s));
    assert forall|key: Seq<u16>| #[trigger] names.contains_key(key) && names[key].id == s implies key
        == gone by {
        assert(a.owns(e, key, s));
    }
}

/// When the last handle on an entry that is to be deleted is closed, its directory no longer holds
/// it, still holds the rest under the same names, and counts as changed.
pub proof fn law_close_unlinks(
    fs: &mut MemFsHandler,
    h: usize,
    parent_now: u64,
    stream_now: u64,
    removal_now: u64,
)
    requires
        old(fs)@.wf(),
        old(fs)@.handles.contains_key(h),
        droppable(old(fs)@, h),
        old(fs)@.handles[h].entry != ROOT,
        last_to_delete(old(fs)@, h),
        call_ensures(MemFsHandler::drop_handle, (fs, h, parent_now, stream_now, removal_now), ()),
    ensures
        ({
            let a = old(fs)@;
            let b = final(fs)@;
            let e = a.handles[h].entry;
            let d = a.entries[e].stat.parent->0;
            let was = a.entries[d].children();
            let is = b.entries[d].children();
            b.entries.contains_key(d) ==> {
                &&& b.entries[d].stat == StatView {
                    mtime: parent_now,
                    atime: parent_now,
                    ..a.entries[d].stat
                }
                &&& b.entries[d].content is Directory
                &&& forall|key: Seq<u16>| #[trigger]
                    is.contains_key(key) <==> was.contains_key(key) && was[key].id != e
                &&& forall|key: Seq<u16>| #[trigger] is.contains_key(key) ==> is[key] == was[key]
            }
        }),
{
    let a = old(fs)@;
    let b = final(fs)@;
    let e = a.handles[h].entry;
    lemma_handle_counts(a, h);
    let less = handle_closed(a, h, parent_now, stream_now, removal_now);
    lemma_freed_self(less, e);
    let d = a.entries[e].stat.parent->0;
    if b.entries.contains_key(d) {
        assert(a.hangs(e));
        let names = a.entries[d].children();
        let key = choose|key: Seq<u16>| #[trigger] a.links(d, key, e);
        assert(a.links(d, key, e));
        assert(names.contains_key(key) && names[key].id == e);
        assert(a.links(d, key_of(names, e), e));
        assert forall|k: Seq<u16>| #[trigger] names.contains_key(k) && names[k].id == e implies k
            == key by {
            assert(a.links(d, k, e));
        }
    }
}

/// What goes with an entry: what a directory that goes holds, unless it is open; and nothing else
/// but the entry. Streams go with the entries that have them.
pub proof fn law_close_takes_what_it_holds(
    fs: &mut MemFsHandler,
    h: usize,
    parent_now: u64,
    stream_now: u64,
    removal_now: u64,
)
    requires
        old(fs)@.wf(),
        old(fs)@.handles.contains_key(h),
        droppable(old(fs)@, h),
        old(fs)@.handles[h].entry != ROOT,
        last_to_delete(old(fs)@, h) || last_outside(old(fs)@, h),
        call_ensures(MemFsHandler::drop_handle, (fs, h, parent_now, stream_now, removal_now), ()),
    ensures
        ({
            let a = old(fs)@;
            let b = final(fs)@;
            let e = a.handles[h].entry;
            &&& !b.entries.contains_key(e)
            &&& forall|x: usize| #[trigger] b.entries.contains_key(x) ==> a.entries.contains_key(x)
            &&& forall|d: usize, key: Seq<u16>, c: usize| #[trigger]
                a.links(d, key, c) && !b.entries.contains_key(d) && a.entries[c].stat.handle_count
                    == 0 ==> !b.entries.contains_key(c)
            &&& forall|c: usize| #[trigger]
                a.entries.contains_key(c) && c != e && !b.entries.contains_key(c)
                    ==> a.entries[c].stat.handle_count == 0 && held_by_gone(a, b, c)
            &&& forall|x: usize| #[trigger]
                b.entries.contains_key(x) && (a.entries[e].stat.parent != Some(x)
                    || !last_to_delete(a, h)) ==> b.entries[x] == a.entries[x]
        }),
{
    let a = old(fs)@;
    let b = final(fs)@;
    let e = a.handles[h].entry;
    lemma_handle_counts(a, h);
    let less = handle_closed(a, h, parent_now, stream_now, removal_now);
    lemma_freed_self(less, e);
    assert(less.entries.dom() =~= a.entries.dom());
    assert forall|d: usize, key: Seq<u16>, c: usize| #[trigger]
        a.links(d, key, c) && !b.entries.contains_key(d) && a.entries[c].stat.handle_count
            == 0 implies !b.entries.contains_key(c) by {
        let names = a.entries[d].children();
        assert(c != e);
        assert(freed(less, e).contains(d));
        if last_to_delete(a, h) && a.entries[e].stat.parent == Some(d) {
            assert(a.hangs(e));
            let own = choose|k: Seq<u16>| #[trigger] a.links(d, k, e);
            assert(a.links(d, own, e));
            assert(names.contains_key(own) && names[own].id == e);
            assert(a.links(d, key_of(names, e), e));
        }
        assert(less.links(d, key, c));
        lemma_freed_step(less, e, d, c);
    }
    assert forall|c: usize| #[trigger]
        a.entries.contains_key(c) && c != e && !b.entries.contains_key(
            c,
        ) implies a.entries[c].stat.handle_count == 0 && held_by_gone(a, b, c) by {
        let d = lemma_freed_from(less, e, c);
        let key = choose|key: Seq<u16>| #[trigger] less.links(d, key, c);
        assert(less.links(d, key, c));
        assert(a.links(d, key, c));
    }
}

/// Some directory that holds entry `c` went.
pub open spec fn held_by_gone(a: FsView, b: FsView, c: usize) -> bool {
    exists|d: usize, key: Seq<u16>| #[trigger] a.links(d, key, c) && !b.entries.contains_key(d)
}

/// Streams go with the entries that have them; those of other entries stay as they are.
pub proof fn law_close_takes_streams(
    fs: &mut MemFsHandler,
    h: usize,
    parent_now: u64,
    stream_now: u64,
    removal_now: u64,
)
    requires
        old(fs)@.wf(),
        old(fs)@.handles.contains_key(h),
        droppable(old(fs)@, h),
        old(fs)@.handles[h].entry != ROOT,
        last_to_delete(old(fs)@, h) || last_outside(old(fs)@, h),
        call_ensures(MemFsHandler::drop_handle, (fs, h, parent_now, stream_now, removal_now), ()),
    ensures
        ({
            let a = old(fs)@;
            let b = final(fs)@;
            &&& forall|s: usize| #[trigger] b.streams.contains_key(s) ==> a.streams.contains_key(s)
            &&& forall|x: usize, key: Seq<u16>, s: usize| #[trigger]
                a.owns(x, key, s) ==> (b.streams.contains_key(s) <==> b.entries.contains_key(x))
            &&& forall|s: usize| #[trigger]
                b.streams.contains_key(s) ==> b.streams[s] == a.streams[s]
        }),
{
    let a = old(fs)@;
    let b = final(fs)@;
    let e = a.handles[h].entry;
    lemma_handle_counts(a, h);
    let less = handle_closed(a, h, parent_now, stream_now, removal_now);
    lemma_freed_self(less, e);
    assert(less.entries.dom() =~= a.entries.dom());
    let gone = freed(less, e);
    let names = a.entries[e].stat.alt_streams;
    if a.handles[h].alt_stream is Some {
        let s = a.handles[h].alt_stream->0;
        let own = choose|key: Seq<u16>| #[trigger] a.owns(e, key, s);
        assert(a.owns(e, own, s));
        assert(names.contains_key(own) && names[own].id == s);
        assert(a.owns(e, key_of(names, s), s));
    }
    assert forall|x: usize, key: Seq<u16>, s: usize| #[trigger] a.owns(x, key, s) implies (
    b.streams.contains_key(s) <==> b.entries.contains_key(x)) by {
        if a.handles[h].alt_stream == Some(s) {
            assert(x == e);
            if less.streams.contains_key(s) {
                assert(less.owns(e, key, s));
                assert(gone.contains(e) && less.owned(e, s));
            }
        } else {
            assert(less.streams.contains_key(s));
            assert(less.owns(x, key, s));
            if gone.contains(x) {
                assert(gone.contains(x) && less.owned(x, s));
            }
            if !b.streams.contains_key(s) {
                let c = choose|c: usize| #[trigger] gone.contains(c) && less.owned(c, s);
                let k = choose|k: Seq<u16>| #[trigger] less.owns(c, k, s);
                assert(less.owns(c, k, s));
                assert(a.owns(c, k, s));
            }
        }
    }
    assert forall|s: usize| #[trigger] b.streams.contains_key(s) implies b.streams[s]
        == a.streams[s] by {
        if a.handles[h].alt_stream == Some(s) {
            let own = choose|key: Seq<u16>| #[trigger] a.owns(e, key, s);
            assert(a.owns(e, own, s));
        }
    }
}

} // verus!
