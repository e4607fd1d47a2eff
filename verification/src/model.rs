//! The file system as a value, and what holds of it between operations.
use vstd::prelude::*;

use crate::attributes::supported;
use crate::entry::{new_stream, Content, EntryView, Names, StatView, StreamView};
use crate::handle::EntryHandle;
use crate::name::{folded, no_nul, Link};

verus! {

/// The number of the root directory.
pub const ROOT: usize = 0;

/// The entries, streams and handles that there are, by number.
#[verifier::ext_equal]
pub struct FsView {
    /// The identifier that the next new entry gets.
    pub id_counter: u64,
    pub entries: Map<usize, EntryView>,
    /// The number that the next new entry gets. Numbers of entries are never used again.
    pub next_entry: nat,
    pub streams: Map<usize, StreamView>,
    /// The number that the next new stream gets.
    pub next_stream: nat,
    pub handles: Map<usize, EntryHandle>,
}

/// The name that a link carries belongs under `key`, and it can be handed out.
pub open spec fn well_named(link: Link, key: Seq<u16>) -> bool {
    folded(link.name) == key && no_nul(link.name)
}

impl FsView {
    /// Directory `d` holds entry `c` under `key`.
    pub open spec fn links(self, d: usize, key: Seq<u16>, c: usize) -> bool {
        &&& self.entries.contains_key(d)
        &&& self.entries[d].children().contains_key(key)
        &&& self.entries[d].children()[key].id == c
    }

    /// Directory `d` holds entry `c`.
    pub open spec fn linked(self, d: usize, c: usize) -> bool {
        exists|key: Seq<u16>| #[trigger] self.links(d, key, c)
    }

    /// Entry `e` has stream `s` under `key`.
    pub open spec fn owns(self, e: usize, key: Seq<u16>, s: usize) -> bool {
        &&& self.entries.contains_key(e)
        &&& self.entries[e].stat.alt_streams.contains_key(key)
        &&& self.entries[e].stat.alt_streams[key].id == s
    }

    /// Entry `e` has stream `s`.
    pub open spec fn owned(self, e: usize, s: usize) -> bool {
        exists|key: Seq<u16>| #[trigger] self.owns(e, key, s)
    }

    /// The handles on entry `e`.
    pub open spec fn handles_on(self, e: usize) -> Set<usize> {
        self.handles.dom().filter(|h: usize| self.handles[h].entry == e)
    }

    /// The handles on stream `s`.
    pub open spec fn handles_on_stream(self, s: usize) -> Set<usize> {
        self.handles.dom().filter(|h: usize| self.handles[h].alt_stream == Some(s))
    }

    /// The directory that entry `e` was put into is still there.
    pub open spec fn parent_live(self, e: usize) -> bool {
        &&& self.entries[e].stat.parent is Some
        &&& self.entries.contains_key(self.entries[e].stat.parent->0)
    }

    /// Entry `e` is in the directory that it was put into, or, where that is gone, open.
    pub open spec fn hangs(self, e: usize) -> bool {
        let parent = self.entries[e].stat.parent;
        &&& parent is Some
        &&& parent->0 < self.next_entry
        &&& self.entries.contains_key(parent->0) ==> self.linked(parent->0, e)
        &&& !self.entries.contains_key(parent->0) ==> self.entries[e].stat.handle_count > 0
    }

    /// The tables hold what was made so far, with supported attributes, and the root directory.
    pub open spec fn tables_wf(self) -> bool {
        &&& self.next_entry <= usize::MAX
        &&& self.next_stream <= usize::MAX
        &&& self.entries.dom().finite()
        &&& self.streams.dom().finite()
        &&& self.handles.dom().finite()
        &&& forall|e: usize| #[trigger] self.entries.contains_key(e) ==> e < self.next_entry
        &&& forall|s: usize| #[trigger] self.streams.contains_key(s) ==> s < self.next_stream
        &&& forall|e: usize| #[trigger]
            self.entries.contains_key(e) ==> supported(self.entries[e].stat.attrs)
        &&& self.entries.contains_key(ROOT)
        &&& self.entries[ROOT].is_dir()
        &&& self.entries[ROOT].stat.parent is None
    }

    /// What a directory holds knows the directory and is held once; an entry outside any
    /// directory is there because it is still open. Nothing is said of where entry `x` hangs.
    pub open spec fn tree_wf(self, x: usize) -> bool {
        &&& forall|d: usize, key: Seq<u16>, c: usize| #[trigger]
            self.links(d, key, c) ==> {
                &&& self.entries.contains_key(c)
                &&& self.entries[c].stat.parent == Some(d)
                &&& well_named(self.entries[d].children()[key], key)
            }
        &&& forall|d: usize, key1: Seq<u16>, key2: Seq<u16>, c: usize|
            #![trigger self.links(d, key1, c), self.links(d, key2, c)]
            self.links(d, key1, c) && self.links(d, key2, c) ==> key1 == key2
        &&& forall|e: usize| #[trigger]
            self.entries.contains_key(e) && e != ROOT && e != x ==> self.hangs(e)
    }

    /// Every stream belongs to one entry, under one name.
    pub open spec fn streams_wf(self) -> bool {
        &&& forall|e: usize, key: Seq<u16>, s: usize| #[trigger]
            self.owns(e, key, s) ==> {
                &&& self.streams.contains_key(s)
                &&& well_named(self.entries[e].stat.alt_streams[key], key)
            }
        &&& forall|e1: usize, key1: Seq<u16>, e2: usize, key2: Seq<u16>, s: usize|
            #![trigger self.owns(e1, key1, s), self.owns(e2, key2, s)]
            self.owns(e1, key1, s) && self.owns(e2, key2, s) ==> e1 == e2 && key1 == key2
        &&& forall|s: usize| #[trigger]
            self.streams.contains_key(s) ==> exists|e: usize, key: Seq<u16>| self.owns(e, key, s)
    }

    /// What a handle is on is there, and handles are counted.
    pub open spec fn handles_wf(self) -> bool {
        &&& forall|h: usize| #[trigger]
            self.handles.contains_key(h) ==> {
                let handle = self.handles[h];
                &&& self.entries.contains_key(handle.entry)
                &&& handle.alt_stream is Some ==> self.owned(handle.entry, handle.alt_stream->0)
            }
        &&& forall|e: usize| #[trigger]
            self.entries.contains_key(e) ==> self.entries[e].stat.handle_count == self.handles_on(
                e,
            ).len()
        &&& forall|s: usize| #[trigger]
            self.streams.contains_key(s) ==> self.streams[s].handle_count
                == self.handles_on_stream(s).len()
    }

    /// What holds while entry `x` is on its way out of the tree.
    pub open spec fn wf_but(self, x: usize) -> bool {
        &&& self.tables_wf()
        &&& self.tree_wf(x)
        &&& self.streams_wf()
        &&& self.handles_wf()
    }

    /// What every operation keeps.
    pub open spec fn wf(self) -> bool {
        self.wf_but(ROOT)
    }

    /// One more handle on entry `e` can be counted.
    pub open spec fn has_handle_room(self, e: usize) -> bool {
        self.entries[e].stat.handle_count < u32::MAX
    }

    /// With handle `h` opened on entry `e`, or on stream `alt_stream` of it.
    pub open spec fn opened(
        self,
        h: usize,
        e: usize,
        alt_stream: Option<usize>,
        delete_on_close: bool,
    ) -> FsView {
        let stat = self.entries[e].stat;
        let fs = self.with_stat(
            e,
            StatView { handle_count: (stat.handle_count + 1) as u32, ..stat },
        );
        let fs = match alt_stream {
            Some(s) => fs.with_stream(
                s,
                StreamView {
                    handle_count: (fs.streams[s].handle_count + 1) as u32,
                    ..fs.streams[s]
                },
            ),
            None => fs,
        };
        fs.with_handle(h, EntryHandle::fresh(e, alt_stream, delete_on_close))
    }

    pub open spec fn with_entry(self, e: usize, entry: EntryView) -> FsView {
        FsView { entries: self.entries.insert(e, entry), ..self }
    }

    pub open spec fn with_stat(self, e: usize, stat: StatView) -> FsView {
        self.with_entry(e, EntryView { stat, ..self.entries[e] })
    }

    pub open spec fn with_data(self, e: usize, data: Seq<u8>) -> FsView {
        self.with_entry(e, EntryView { content: Content::File { data }, ..self.entries[e] })
    }

    pub open spec fn with_children(self, e: usize, children: Names) -> FsView {
        self.with_entry(
            e,
            EntryView { content: Content::Directory { children }, ..self.entries[e] },
        )
    }

    pub open spec fn with_stream(self, s: usize, stream: StreamView) -> FsView {
        FsView { streams: self.streams.insert(s, stream), ..self }
    }

    pub open spec fn with_handle(self, h: usize, handle: EntryHandle) -> FsView {
        FsView { handles: self.handles.insert(h, handle), ..self }
    }

    /// With a new entry, under the next number.
    pub open spec fn plus_entry(self, entry: EntryView) -> FsView {
        FsView {
            entries: self.entries.insert(self.next_entry as usize, entry),
            next_entry: self.next_entry + 1,
            ..self
        }
    }

    /// With a new stream, under the next number.
    pub open spec fn plus_stream(self, stream: StreamView) -> FsView {
        FsView {
            streams: self.streams.insert(self.next_stream as usize, stream),
            next_stream: self.next_stream + 1,
            ..self
        }
    }

    /// With one identifier used up.
    pub open spec fn with_id_spent(self) -> FsView {
        FsView { id_counter: self.id_counter.wrapping_add(1), ..self }
    }

    /// With a new stream of entry `e`.
    pub open spec fn with_new_stream(self, e: usize, name: Seq<u16>) -> FsView {
        let fs = self.plus_stream(new_stream());
        let stat = fs.entries[e].stat;
        fs.with_stat(
            e,
            StatView {
                alt_streams: stat.alt_streams.insert(
                    folded(name),
                    Link { name, id: self.next_stream as usize },
                ),
                ..stat
            },
        )
    }

    /// With a new entry in directory `d`.
    pub open spec fn with_new_entry(self, d: usize, name: Seq<u16>, entry: EntryView) -> FsView {
        let fs = self.plus_entry(entry);
        fs.with_children(
            d,
            fs.entries[d].children().insert(
                folded(name),
                Link { name, id: self.next_entry as usize },
            ),
        )
    }

    pub open spec fn minus_entry(self, e: usize) -> FsView {
        FsView { entries: self.entries.remove(e), ..self }
    }

    pub open spec fn minus_stream(self, s: usize) -> FsView {
        FsView { streams: self.streams.remove(s), ..self }
    }

    pub open spec fn minus_handle(self, h: usize) -> FsView {
        FsView { handles: self.handles.remove(h), ..self }
    }
}

/// A file system with nothing but a root directory, made at `now`.
pub open spec fn empty_fs(sec_desc: Seq<u8>, now: u64) -> FsView {
    FsView {
        id_counter: 1,
        entries: Map::empty().insert(
            ROOT,
            EntryView {
                stat: StatView { attrs: 0, ..StatView::fresh(0, 0, sec_desc, None, now) },
                content: Content::Directory { children: Map::empty() },
            },
        ),
        next_entry: 1,
        streams: Map::empty(),
        next_stream: 0,
        handles: Map::empty(),
    }
}

} // verus!
