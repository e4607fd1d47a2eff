//! Proofs that the steps of operations keep [`FsView::wf`].
use vstd::prelude::*;

use crate::attributes::{supported, SUPPORTED_ATTRS};
use crate::entry::{EntryView, StatView};
use crate::model::{empty_fs, FsView, ROOT};
use crate::name::{folded, no_nul, Link};

verus! {

/// The same handles are on the same entries and streams in `a` and in `b`.
pub open spec fn same_handles(a: FsView, b: FsView) -> bool {
    &&& a.handles.dom() =~= b.handles.dom()
    &&& forall|h: usize| #[trigger]
        a.handles.contains_key(h) ==> {
            &&& a.handles[h].entry == b.handles[h].entry
            &&& a.handles[h].alt_stream == b.handles[h].alt_stream
        }
}

proof fn lemma_same_handles(a: FsView, b: FsView)
    requires
        same_handles(a, b),
    ensures
        forall|e: usize| #[trigger] b.handles_on(e) == a.handles_on(e),
        forall|s: usize| #[trigger] b.handles_on_stream(s) == a.handles_on_stream(s),
{
    assert forall|e: usize| #[trigger] b.handles_on(e) == a.handles_on(e) by {
        assert(b.handles_on(e) =~= a.handles_on(e));
    }
    assert forall|s: usize| #[trigger] b.handles_on_stream(s) == a.handles_on_stream(s) by {
        assert(b.handles_on_stream(s) =~= a.handles_on_stream(s));
    }
}

/// What was in `a` is in `b` and stays where it was: an entry in its directory, and a stream, where
/// it is still there, with its owner, under that name or another. Nothing is said of where entry
/// `x` hangs.
spec fn carries(a: FsView, b: FsView, x: usize) -> bool {
    &&& a.next_entry <= b.next_entry
    &&& forall|e: usize|
        e < a.next_entry ==> #[trigger] b.entries.contains_key(e) == a.entries.contains_key(e)
    &&& forall|e: usize| #[trigger]
        a.entries.contains_key(e) && e != x ==> {
            &&& b.entries[e].stat.parent == a.entries[e].stat.parent
            &&& a.entries[e].stat.handle_count > 0 ==> b.entries[e].stat.handle_count > 0
        }
    &&& forall|d: usize, key: Seq<u16>, c: usize| #[trigger]
        a.links(d, key, c) && c != x ==> b.links(d, key, c)
    &&& forall|e: usize, key: Seq<u16>, s: usize| #[trigger]
        a.owns(e, key, s) && b.streams.contains_key(s) ==> b.owns(e, key, s) || b.owned(e, s)
}

/// The step that all changes share: what `b` carries over from `a` still hangs, is owned, and is
/// there for the handles on it.
proof fn lemma_carried(a: FsView, b: FsView, x: usize)
    requires
        a.wf_but(x),
        carries(a, b, x),
    ensures
        forall|e: usize| #[trigger]
            b.entries.contains_key(e) && a.entries.contains_key(e) && e != ROOT && e != x
                ==> b.hangs(e),
        forall|e: usize, s: usize| #[trigger]
            a.owned(e, s) && b.streams.contains_key(s) ==> b.owned(e, s),
        forall|s: usize| #[trigger]
            b.streams.contains_key(s) && a.streams.contains_key(s) ==> exists|
                e: usize,
                key: Seq<u16>,
            | b.owns(e, key, s),
        forall|h: usize| #[trigger]
            b.handles.contains_key(h) && a.handles.contains_key(h) && b.handles[h].entry
                == a.handles[h].entry ==> {
                let handle = b.handles[h];
                &&& b.entries.contains_key(handle.entry)
                &&& handle.alt_stream == a.handles[h].alt_stream && handle.alt_stream is Some
                    && b.streams.contains_key(handle.alt_stream->0) ==> b.owned(
                    handle.entry,
                    handle.alt_stream->0,
                )
            },
{
    assert forall|e: usize| #[trigger]
        b.entries.contains_key(e) && a.entries.contains_key(e) && e != ROOT && e
            != x implies b.hangs(e) by {
        let parent = a.entries[e].stat.parent;
        if a.entries.contains_key(parent->0) {
            let key = choose|key: Seq<u16>| #[trigger] a.links(parent->0, key, e);
            assert(b.links(parent->0, key, e));
        }
    }
    assert forall|e: usize, s: usize| #[trigger]
        a.owned(e, s) && b.streams.contains_key(s) implies b.owned(e, s) by {
        let key = choose|key: Seq<u16>| #[trigger] a.owns(e, key, s);
        assert(a.owns(e, key, s));
    }
    assert forall|s: usize| #[trigger]
        b.streams.contains_key(s) && a.streams.contains_key(s) implies exists|
        e: usize,
        key: Seq<u16>,
    | b.owns(e, key, s) by {
        let (e, key) = choose|e: usize, key: Seq<u16>| a.owns(e, key, s);
        assert(b.owned(e, s));
    }
}

/// `a` and `b` differ only in what the invariant does not speak of.
pub open spec fn same_shape(a: FsView, b: FsView) -> bool {
    &&& a.next_entry == b.next_entry
    &&& a.next_stream == b.next_stream
    &&& a.entries.dom() =~= b.entries.dom()
    &&& a.streams.dom() =~= b.streams.dom()
    &&& same_handles(a, b)
    &&& forall|e: usize| #[trigger]
        a.entries.contains_key(e) ==> {
            &&& a.entries[e].stat.parent == b.entries[e].stat.parent
            &&& a.entries[e].stat.handle_count == b.entries[e].stat.handle_count
            &&& a.entries[e].stat.alt_streams == b.entries[e].stat.alt_streams
            &&& a.entries[e].children() == b.entries[e].children()
            &&& a.entries[e].is_dir() == b.entries[e].is_dir()
            &&& supported(a.entries[e].stat.attrs) ==> supported(b.entries[e].stat.attrs)
        }
    &&& forall|s: usize| #[trigger]
        a.streams.contains_key(s) ==> a.streams[s].handle_count == b.streams[s].handle_count
}

pub proof fn lemma_same_shape(a: FsView, b: FsView, x: usize)
    requires
        a.wf_but(x),
        same_shape(a, b),
    ensures
        b.wf_but(x),
{
    lemma_same_handles(a, b);
    assert forall|e: usize| b.entries.contains_key(e) == a.entries.contains_key(e) by {
        assert(b.entries.dom().contains(e) == a.entries.dom().contains(e));
    }
    assert forall|s: usize| b.streams.contains_key(s) == a.streams.contains_key(s) by {
        assert(b.streams.dom().contains(s) == a.streams.dom().contains(s));
    }
    assert forall|h: usize| b.handles.contains_key(h) == a.handles.contains_key(h) by {
        assert(b.handles.dom().contains(h) == a.handles.dom().contains(h));
    }
    assert forall|d: usize, key: Seq<u16>, c: usize| #[trigger]
        b.links(d, key, c) == a.links(d, key, c) by {}
    assert forall|e: usize, key: Seq<u16>, s: usize| #[trigger]
        b.owns(e, key, s) == a.owns(e, key, s) by {}
    lemma_carried(a, b, x);
}

pub proof fn lemma_empty_fs(sec_desc: Seq<u8>, now: u64)
    ensures
        empty_fs(sec_desc, now).wf(),
{
    let fs = empty_fs(sec_desc, now);
    assert(0u32 & SUPPORTED_ATTRS == 0) by (bit_vector);
    assert(fs.handles_on(ROOT) =~= Set::empty());
}

/// The handles on an entry or stream after handle `h` was added.
pub proof fn lemma_handle_added(a: FsView, b: FsView, h: usize)
    requires
        a.handles.dom().finite(),
        !a.handles.contains_key(h),
        b.handles == a.handles.insert(h, b.handles[h]),
    ensures
        b.handles.dom().finite(),
        forall|e: usize| #[trigger]
            b.handles_on(e).len() == a.handles_on(e).len() + (if b.handles[h].entry == e {
                1int
            } else {
                0
            }),
        forall|s: usize| #[trigger]
            b.handles_on_stream(s).len() == a.handles_on_stream(s).len() + (
            if b.handles[h].alt_stream == Some(s) {
                1int
            } else {
                0
            }),
{
    assert forall|e: usize| #[trigger]
        b.handles_on(e).len() == a.handles_on(e).len() + (if b.handles[h].entry == e {
            1int
        } else {
            0
        }) by {
        if b.handles[h].entry == e {
            assert(b.handles_on(e) =~= a.handles_on(e).insert(h));
        } else {
            assert(b.handles_on(e) =~= a.handles_on(e));
        }
    }
    assert forall|s: usize| #[trigger]
        b.handles_on_stream(s).len() == a.handles_on_stream(s).len() + (
        if b.handles[h].alt_stream == Some(s) {
            1int
        } else {
            0
        }) by {
        if b.handles[h].alt_stream == Some(s) {
            assert(b.handles_on_stream(s) =~= a.handles_on_stream(s).insert(h));
        } else {
            assert(b.handles_on_stream(s) =~= a.handles_on_stream(s));
        }
    }
}

/// No stream has more handles than its entry.
pub proof fn lemma_counts_bounded(a: FsView, e: usize, s: usize)
    requires
        a.wf(),
        a.owned(e, s),
    ensures
        a.streams.contains_key(s),
        a.streams[s].handle_count <= a.entries[e].stat.handle_count,
{
    let key = choose|key: Seq<u16>| #[trigger] a.owns(e, key, s);
    assert(a.owns(e, key, s));
    assert forall|h: usize| #[trigger] a.handles_on_stream(s).contains(h) implies a.handles_on(
        e,
    ).contains(h) by {
        assert(a.handles.contains_key(h));
        let other = choose|other: Seq<u16>| #[trigger] a.owns(a.handles[h].entry, other, s);
        assert(a.owns(a.handles[h].entry, other, s));
    }
    vstd::set_lib::lemma_len_subset(a.handles_on_stream(s), a.handles_on(e));
}

pub proof fn lemma_opened(
    a: FsView,
    h: usize,
    e: usize,
    alt_stream: Option<usize>,
    delete_on_close: bool,
)
    requires
        a.wf(),
        !a.handles.contains_key(h),
        a.entries.contains_key(e),
        a.has_handle_room(e),
        alt_stream is Some ==> a.owned(e, alt_stream->0),
    ensures
        a.opened(h, e, alt_stream, delete_on_close).wf(),
{
    let b = a.opened(h, e, alt_stream, delete_on_close);
    lemma_handle_added(a, b, h);
    if let Some(s) = alt_stream {
        lemma_counts_bounded(a, e, s);
    }
    assert forall|d: usize, key: Seq<u16>, c: usize| #[trigger]
        b.links(d, key, c) == a.links(d, key, c) by {}
    assert forall|x: usize, key: Seq<u16>, s: usize| #[trigger]
        b.owns(x, key, s) == a.owns(x, key, s) by {}
    lemma_carried(a, b, ROOT);
}

pub proof fn lemma_new_stream(a: FsView, e: usize, name: Seq<u16>)
    requires
        a.wf(),
        a.entries.contains_key(e),
        !a.entries[e].stat.alt_streams.contains_key(folded(name)),
        no_nul(name),
        a.next_stream < usize::MAX,
    ensures
        a.with_new_stream(e, name).wf(),
        a.with_new_stream(e, name).owns(e, folded(name), a.next_stream as usize),
{
    let b = a.with_new_stream(e, name);
    let s0 = a.next_stream as usize;
    assert(!a.streams.contains_key(s0));
    lemma_same_handles(a, b);
    assert(a.handles_on_stream(s0) =~= Set::empty()) by {
        assert forall|h: usize| !a.handles_on_stream(s0).contains(h) by {
            if a.handles_on_stream(s0).contains(h) {
                assert(a.handles.contains_key(h));
                let key = choose|key: Seq<u16>| #[trigger] a.owns(a.handles[h].entry, key, s0);
                assert(a.owns(a.handles[h].entry, key, s0));
            }
        }
    }
    assert forall|d: usize, key: Seq<u16>, c: usize| #[trigger]
        b.links(d, key, c) == a.links(d, key, c) by {}
    assert forall|x: usize, key: Seq<u16>, s: usize| #[trigger] b.owns(x, key, s) == (a.owns(
        x,
        key,
        s,
    ) || (x == e && key == folded(name) && s == s0)) by {}
    assert forall|x: usize, key: Seq<u16>| !a.owns(x, key, s0) by {}
    assert(b.owns(e, folded(name), s0));
    lemma_carried(a, b, ROOT);
}

pub proof fn lemma_new_entry(a: FsView, d: usize, name: Seq<u16>, entry: EntryView)
    requires
        a.wf(),
        a.entries.contains_key(d),
        a.entries[d].is_dir(),
        !a.entries[d].children().contains_key(folded(name)),
        no_nul(name),
        a.next_entry < usize::MAX,
        entry.stat.parent == Some(d),
        entry.stat.handle_count == 0,
        supported(entry.stat.attrs),
        entry.stat.alt_streams == Map::<Seq<u16>, Link>::empty(),
        entry.children() == Map::<Seq<u16>, Link>::empty(),
    ensures
        a.with_new_entry(d, name, entry).wf(),
{
    let b = a.with_new_entry(d, name, entry);
    let e0 = a.next_entry as usize;
    assert(!a.entries.contains_key(e0));
    lemma_same_handles(a, b);
    assert(a.handles_on(e0) =~= Set::empty()) by {
        assert forall|h: usize| !a.handles_on(e0).contains(h) by {
            if a.handles_on(e0).contains(h) {
                assert(a.handles.contains_key(h));
            }
        }
    }
    assert forall|x: usize, key: Seq<u16>, c: usize| #[trigger] b.links(x, key, c) == (a.links(
        x,
        key,
        c,
    ) || (x == d && key == folded(name) && c == e0)) by {}
    assert forall|x: usize, key: Seq<u16>| !a.links(x, key, e0) by {}
    assert forall|x: usize, key: Seq<u16>, s: usize| #[trigger]
        b.owns(x, key, s) == a.owns(x, key, s) by {}
    assert(b.links(d, folded(name), e0));
    lemma_carried(a, b, ROOT);
}

/// What a handle is on counts it.
pub proof fn lemma_handle_counts(a: FsView, h: usize)
    requires
        a.wf(),
        a.handles.contains_key(h),
    ensures
        a.entries.contains_key(a.handles[h].entry),
        a.entries[a.handles[h].entry].stat.handle_count > 0,
        a.handles[h].alt_stream matches Some(s) ==> a.streams.contains_key(s)
            && a.streams[s].handle_count > 0,
{
    let handle = a.handles[h];
    assert(a.handles_on(handle.entry).contains(h));
    vstd::set_lib::lemma_set_empty_equivalency_len(a.handles_on(handle.entry));
    if let Some(s) = handle.alt_stream {
        let key = choose|key: Seq<u16>| #[trigger] a.owns(handle.entry, key, s);
        assert(a.owns(handle.entry, key, s));
        assert(a.handles_on_stream(s).contains(h));
        vstd::set_lib::lemma_set_empty_equivalency_len(a.handles_on_stream(s));
    }
}

/// `b` is `a` without handle `h`, up to what the invariant does not speak of.
pub open spec fn handle_gone(a: FsView, b: FsView, h: usize) -> bool {
    let handle = a.handles[h];
    &&& a.handles.contains_key(h)
    &&& a.next_entry == b.next_entry
    &&& a.next_stream == b.next_stream
    &&& a.entries.dom() =~= b.entries.dom()
    &&& a.streams.dom() =~= b.streams.dom()
    &&& b.handles =~= a.handles.remove(h)
    &&& forall|e: usize| #[trigger]
        a.entries.contains_key(e) ==> {
            &&& a.entries[e].stat.parent == b.entries[e].stat.parent
            &&& b.entries[e].stat.handle_count == a.entries[e].stat.handle_count - (if e
                == handle.entry {
                1int
            } else {
                0
            })
            &&& a.entries[e].stat.alt_streams == b.entries[e].stat.alt_streams
            &&& a.entries[e].children() == b.entries[e].children()
            &&& a.entries[e].is_dir() == b.entries[e].is_dir()
            &&& supported(a.entries[e].stat.attrs) ==> supported(b.entries[e].stat.attrs)
        }
    &&& forall|s: usize| #[trigger]
        a.streams.contains_key(s) ==> b.streams[s].handle_count == a.streams[s].handle_count - (
        if handle.alt_stream == Some(s) {
            1int
        } else {
            0
        })
}

pub proof fn lemma_handle_gone(a: FsView, b: FsView, h: usize)
    requires
        a.wf(),
        handle_gone(a, b, h),
    ensures
        b.wf_but(a.handles[h].entry),
{
    let e0 = a.handles[h].entry;
    assert(b.handles.dom() =~= a.handles.dom().remove(h));
    assert(a.handles =~= b.handles.insert(h, a.handles[h]));
    lemma_handle_added(b, a, h);
    assert forall|e: usize| b.entries.contains_key(e) == a.entries.contains_key(e) by {
        assert(b.entries.dom().contains(e) == a.entries.dom().contains(e));
    }
    assert forall|s: usize| b.streams.contains_key(s) == a.streams.contains_key(s) by {
        assert(b.streams.dom().contains(s) == a.streams.dom().contains(s));
    }
    assert forall|d: usize, key: Seq<u16>, c: usize| #[trigger]
        b.links(d, key, c) == a.links(d, key, c) by {}
    assert forall|e: usize, key: Seq<u16>, s: usize| #[trigger]
        b.owns(e, key, s) == a.owns(e, key, s) by {}
    lemma_carried(a, b, e0);
}

pub proof fn lemma_hangs(a: FsView, x: usize)
    requires
        a.wf_but(x),
        x == ROOT || a.hangs(x),
    ensures
        a.wf(),
{
}

/// `b` is `a` without stream `s`, which entry `e` had under `key`, up to what the invariant does
/// not speak of.
pub open spec fn stream_gone(a: FsView, b: FsView, e: usize, key: Seq<u16>, s: usize) -> bool {
    &&& a.owns(e, key, s)
    &&& a.streams[s].handle_count == 0
    &&& b.streams =~= a.streams.remove(s)
    &&& same_shape(
        a.with_stat(
            e,
            StatView {
                alt_streams: a.entries[e].stat.alt_streams.remove(key),
                ..a.entries[e].stat
            },
        ).minus_stream(s),
        b,
    )
}

pub proof fn lemma_stream_gone(a: FsView, b: FsView, e: usize, key: Seq<u16>, s: usize, x: usize)
    requires
        a.wf_but(x),
        stream_gone(a, b, e, key, s),
    ensures
        b.wf_but(x),
{
    let m = a.with_stat(
        e,
        StatView { alt_streams: a.entries[e].stat.alt_streams.remove(key), ..a.entries[e].stat },
    ).minus_stream(s);
    assert(a.entries.contains_key(e));
    lemma_same_handles(a, m);
    assert(m.entries.dom() =~= a.entries.dom());
    assert forall|d: usize, k: Seq<u16>, c: usize| #[trigger]
        m.links(d, k, c) == a.links(d, k, c) by {}
    assert forall|y: usize, k: Seq<u16>, t: usize| #[trigger]
        m.owns(y, k, t) == (a.owns(y, k, t) && !(y == e && k == key)) by {}
    lemma_carried(a, m, x);
    assert forall|h: usize| #[trigger] a.handles.contains_key(h) implies a.handles[h].alt_stream
        != Some(s) by {
        if a.handles[h].alt_stream == Some(s) {
            assert(a.handles_on_stream(s).contains(h));
            vstd::set_lib::lemma_set_empty_equivalency_len(a.handles_on_stream(s));
            assert(a.streams.contains_key(s));
        }
    }
    lemma_same_shape(m, b, x);
}

/// After directory `d` let go of entry `e`, only where `e` hangs is out of order.
pub proof fn lemma_unlinked(a: FsView, d: usize, key: Seq<u16>, e: usize)
    requires
        a.wf_but(e),
        a.links(d, key, e),
    ensures
        a.with_children(d, a.entries[d].children().remove(key)).wf_but(e),
        forall|x: usize, k: Seq<u16>| !#[trigger]
            a.with_children(d, a.entries[d].children().remove(key)).links(x, k, e),
{
    let b = a.with_children(d, a.entries[d].children().remove(key));
    lemma_same_handles(a, b);
    assert(b.entries.dom() =~= a.entries.dom());
    assert forall|x: usize, k: Seq<u16>, c: usize| #[trigger]
        b.links(x, k, c) == (a.links(x, k, c) && !(x == d && k == key)) by {}
    assert forall|y: usize, k: Seq<u16>, t: usize| #[trigger]
        b.owns(y, k, t) == a.owns(y, k, t) by {}
    lemma_carried(a, b, e);
}

/// After entry `e`, which hung nowhere, is put into directory `d`, everything is in order.
pub proof fn lemma_relinked(a: FsView, b: FsView, d: usize, name: Seq<u16>, e: usize)
    requires
        a.wf_but(e),
        e != ROOT,
        a.entries.contains_key(e),
        forall|x: usize, k: Seq<u16>| !#[trigger] a.links(x, k, e),
        a.entries.contains_key(d),
        a.entries[d].is_dir(),
        !a.entries[d].children().contains_key(folded(name)),
        no_nul(name),
        ({
            let m = a.with_stat(e, StatView { parent: Some(d), ..a.entries[e].stat });
            same_shape(
                m.with_children(
                    d,
                    m.entries[d].children().insert(folded(name), Link { name, id: e }),
                ),
                b,
            )
        }),
    ensures
        b.wf(),
{
    let m = a.with_stat(e, StatView { parent: Some(d), ..a.entries[e].stat });
    let c = m.with_children(d, m.entries[d].children().insert(folded(name), Link { name, id: e }));
    let key = folded(name);
    lemma_same_handles(a, c);
    assert(c.entries.dom() =~= a.entries.dom());
    assert forall|x: usize, k: Seq<u16>, y: usize| #[trigger]
        c.links(x, k, y) == (a.links(x, k, y) || (x == d && k == key && y == e)) by {}
    assert forall|y: usize, k: Seq<u16>, t: usize| #[trigger]
        c.owns(y, k, t) == a.owns(y, k, t) by {}
    assert(c.links(d, key, e));
    lemma_carried(a, c, e);
    lemma_same_shape(c, b, ROOT);
}

/// `b` is `a` with handle `h` turned to another stream of its entry, or to none, up to what the
/// invariant does not speak of.
pub open spec fn handle_turned(a: FsView, b: FsView, h: usize) -> bool {
    let old_alt = a.handles[h].alt_stream;
    let new_alt = b.handles[h].alt_stream;
    &&& a.handles.contains_key(h)
    &&& b.handles[h].entry == a.handles[h].entry
    &&& new_alt is Some ==> a.owned(a.handles[h].entry, new_alt->0)
    &&& b.handles =~= a.handles.insert(h, b.handles[h])
    &&& a.next_entry == b.next_entry
    &&& a.next_stream == b.next_stream
    &&& a.entries.dom() =~= b.entries.dom()
    &&& a.streams.dom() =~= b.streams.dom()
    &&& forall|e: usize| #[trigger]
        a.entries.contains_key(e) ==> {
            &&& a.entries[e].stat.parent == b.entries[e].stat.parent
            &&& a.entries[e].stat.handle_count == b.entries[e].stat.handle_count
            &&& a.entries[e].stat.alt_streams == b.entries[e].stat.alt_streams
            &&& a.entries[e].children() == b.entries[e].children()
            &&& a.entries[e].is_dir() == b.entries[e].is_dir()
            &&& supported(a.entries[e].stat.attrs) ==> supported(b.entries[e].stat.attrs)
        }
    &&& forall|s: usize| #[trigger]
        a.streams.contains_key(s) ==> b.streams[s].handle_count == a.streams[s].handle_count - (
        if old_alt == Some(s) {
            1int
        } else {
            0
        }) + (if new_alt == Some(s) {
            1int
        } else {
            0
        })
}

pub proof fn lemma_handle_turned(a: FsView, b: FsView, h: usize)
    requires
        a.wf(),
        handle_turned(a, b, h),
    ensures
        b.wf(),
{
    let m = a.minus_handle(h);
    assert(m.handles.dom() =~= a.handles.dom().remove(h));
    assert(a.handles =~= m.handles.insert(h, a.handles[h]));
    assert(b.handles =~= m.handles.insert(h, b.handles[h]));
    lemma_handle_added(m, a, h);
    lemma_handle_added(m, b, h);
    assert forall|e: usize| b.entries.contains_key(e) == a.entries.contains_key(e) by {
        assert(b.entries.dom().contains(e) == a.entries.dom().contains(e));
    }
    assert forall|s: usize| b.streams.contains_key(s) == a.streams.contains_key(s) by {
        assert(b.streams.dom().contains(s) == a.streams.dom().contains(s));
    }
    assert forall|e: usize| #[trigger] b.handles_on(e).len() == a.handles_on(e).len() by {
        assert(a.handles_on(e).len() == m.handles_on(e).len() + (if a.handles[h].entry == e {
            1int
        } else {
            0
        }));
    }
    assert forall|s: usize| #[trigger]
        b.streams.contains_key(s) implies b.streams[s].handle_count == b.handles_on_stream(
        s,
    ).len() by {
        assert(a.streams.contains_key(s));
        assert(a.handles_on_stream(s).len() == m.handles_on_stream(s).len() + (
        if a.handles[h].alt_stream == Some(s) {
            1int
        } else {
            0
        }));
    }
    assert forall|d: usize, key: Seq<u16>, c: usize| #[trigger]
        b.links(d, key, c) == a.links(d, key, c) by {}
    assert forall|e: usize, key: Seq<u16>, s: usize| #[trigger]
        b.owns(e, key, s) == a.owns(e, key, s) by {}
    lemma_carried(a, b, ROOT);
}

/// After stream `s` of entry `e` got another name, everything is in order.
pub proof fn lemma_stream_renamed(
    a: FsView,
    b: FsView,
    e: usize,
    key: Seq<u16>,
    name: Seq<u16>,
    s: usize,
)
    requires
        a.wf(),
        a.owns(e, key, s),
        no_nul(name),
        !a.entries[e].stat.alt_streams.remove(key).contains_key(folded(name)),
        same_shape(
            a.with_stat(
                e,
                StatView {
                    alt_streams: a.entries[e].stat.alt_streams.remove(key).insert(
                        folded(name),
                        Link { name, id: s },
                    ),
                    ..a.entries[e].stat
                },
            ),
            b,
        ),
    ensures
        b.wf(),
{
    let c = a.with_stat(
        e,
        StatView {
            alt_streams: a.entries[e].stat.alt_streams.remove(key).insert(
                folded(name),
                Link { name, id: s },
            ),
            ..a.entries[e].stat
        },
    );
    lemma_same_handles(a, c);
    assert(c.entries.dom() =~= a.entries.dom());
    assert forall|d: usize, k: Seq<u16>, y: usize| #[trigger]
        c.links(d, k, y) == a.links(d, k, y) by {}
    assert forall|y: usize, k: Seq<u16>, t: usize| #[trigger]
        c.owns(y, k, t) == ((a.owns(y, k, t) && !(y == e && k == key)) || (y == e && k == folded(
            name,
        ) && t == s)) by {}
    assert(c.owns(e, folded(name), s));
    lemma_carried(a, c, ROOT);
    lemma_same_shape(c, b, ROOT);
}

} // verus!
