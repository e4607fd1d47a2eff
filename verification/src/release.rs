//! Letting go of entries that nothing holds any more.
use vstd::prelude::*;

use crate::entry::{Entry, Names};
use crate::memfs::MemFsHandler;
use crate::model::{FsView, ROOT};
use crate::name::{folded, lists, EntryName, NameMap};

verus! {

/// `path` goes down from entry `e`, each step into a child that is not open.
pub open spec fn goes_down(fs: FsView, e: usize, path: Seq<usize>) -> bool {
    &&& path.len() > 0
    &&& path[0] == e
    &&& forall|i: int|
        0 < i < path.len() ==> fs.linked(path[i - 1], #[trigger] path[i])
            && fs.entries[path[i]].stat.handle_count == 0
}

/// Entry `c` is held, directly or not, by entry `e` alone.
pub open spec fn held_by(fs: FsView, e: usize, c: usize) -> bool {
    exists|path: Seq<usize>| #[trigger] goes_down(fs, e, path) && path.last() == c
}

/// What goes when entry `e` goes: itself, and what it holds and nobody has open.
pub open spec fn freed(fs: FsView, e: usize) -> Set<usize> {
    Set::new(|c: usize| held_by(fs, e, c))
}

/// The streams of the entries in `gone`.
pub open spec fn streams_of(fs: FsView, gone: Set<usize>) -> Set<usize> {
    Set::new(|s: usize| exists|c: usize| #[trigger] gone.contains(c) && fs.owned(c, s))
}

/// Without the entries in `gone` and their streams.
pub open spec fn without(fs: FsView, gone: Set<usize>) -> FsView {
    FsView {
        entries: fs.entries.remove_keys(gone),
        streams: fs.streams.remove_keys(streams_of(fs, gone)),
        ..fs
    }
}

/// The numbers that `names` leads to.
pub open spec fn ids(names: Names) -> Set<usize> {
    Set::new(|s: usize| exists|key: Seq<u16>| #[trigger] names.contains_key(key) && names[key].id == s)
}

/// Entry `e` can be let go of: no directory holds it, and it is not open.
pub open spec fn loose(fs: FsView, e: usize) -> bool {
    &&& fs.entries.contains_key(e)
    &&& e != ROOT
    &&& fs.entries[e].stat.handle_count == 0
    &&& forall|d: usize, key: Seq<u16>| !#[trigger] fs.links(d, key, e)
}

pub proof fn lemma_freed_self(fs: FsView, e: usize)
    ensures
        freed(fs, e).contains(e),
{
    let path = seq![e];
    assert(goes_down(fs, e, path));
    assert(path.last() == e);
}

pub proof fn lemma_freed_step(fs: FsView, e: usize, d: usize, c: usize)
    requires
        freed(fs, e).contains(d),
        fs.linked(d, c),
        fs.entries[c].stat.handle_count == 0,
    ensures
        freed(fs, e).contains(c),
{
    let path = choose|path: Seq<usize>| #[trigger] goes_down(fs, e, path) && path.last() == d;
    let longer = path.push(c);
    assert forall|i: int| 0 < i < longer.len() implies fs.linked(longer[i - 1], #[trigger] longer[i])
        && fs.entries[longer[i]].stat.handle_count == 0 by {
        if i < path.len() {
            assert(longer[i] == path[i]);
        }
    }
    assert(goes_down(fs, e, longer));
    assert(longer.last() == c);
}

/// Whatever goes with `e`, other than `e`, is held by something that goes.
pub proof fn lemma_freed_from(fs: FsView, e: usize, c: usize) -> (d: usize)
    requires
        freed(fs, e).contains(c),
        c != e,
    ensures
        freed(fs, e).contains(d),
        fs.linked(d, c),
        fs.entries[c].stat.handle_count == 0,
{
    let path = choose|path: Seq<usize>| #[trigger] goes_down(fs, e, path) && path.last() == c;
    let shorter = path.drop_last();
    assert(path.len() > 1);
    assert(fs.linked(path[path.len() - 2], path[path.len() - 1]));
    assert forall|i: int| 0 < i < shorter.len() implies fs.linked(
        shorter[i - 1],
        #[trigger] shorter[i],
    ) && fs.entries[shorter[i]].stat.handle_count == 0 by {
        assert(shorter[i] == path[i]);
    }
    assert(goes_down(fs, e, shorter));
    shorter.last()
}

/// A set that holds `e`, and with an entry every child of it that is not open, holds all that
/// goes with `e`.
proof fn lemma_freed_within(fs: FsView, e: usize, gone: Set<usize>, path: Seq<usize>)
    requires
        gone.contains(e),
        forall|d: usize, c: usize| #[trigger]
            fs.linked(d, c) && gone.contains(d) && fs.entries[c].stat.handle_count == 0
                ==> gone.contains(c),
        goes_down(fs, e, path),
    ensures
        gone.contains(path.last()),
    decreases path.len(),
{
    if path.len() > 1 {
        let shorter = path.drop_last();
        assert forall|i: int| 0 < i < shorter.len() implies fs.linked(
            shorter[i - 1],
            #[trigger] shorter[i],
        ) && fs.entries[shorter[i]].stat.handle_count == 0 by {
            assert(shorter[i] == path[i]);
        }
        lemma_freed_within(fs, e, gone, shorter);
        assert(fs.linked(path[path.len() - 2], path[path.len() - 1]));
    }
}

/// After a loose entry is let go of, everything is in order.
pub proof fn lemma_released(a: FsView, e: usize)
    requires
        a.wf_but(e),
        loose(a, e),
    ensures
        without(a, freed(a, e)).wf(),
{
    let gone = freed(a, e);
    let b = without(a, gone);
    lemma_freed_self(a, e);
    assert forall|c: usize| #[trigger] gone.contains(c) implies {
        &&& a.entries.contains_key(c)
        &&& a.entries[c].stat.handle_count == 0
        &&& c != ROOT
        &&& c != e ==> a.entries[c].stat.parent is Some && gone.contains(
            a.entries[c].stat.parent->0,
        )
    } by {
        if c != e {
            let d = lemma_freed_from(a, e, c);
            let key = choose|key: Seq<u16>| #[trigger] a.links(d, key, c);
            assert(a.links(d, key, c));
        }
    }
    assert(b.entries.dom() =~= a.entries.dom().difference(gone));
    assert(b.streams.dom() =~= a.streams.dom().difference(streams_of(a, gone)));
    assert forall|x: usize| #[trigger] b.handles_on(x) == a.handles_on(x) by {
        assert(b.handles_on(x) =~= a.handles_on(x));
    }
    assert forall|s: usize| #[trigger] b.handles_on_stream(s) == a.handles_on_stream(s) by {
        assert(b.handles_on_stream(s) =~= a.handles_on_stream(s));
    }
    assert forall|d: usize, key: Seq<u16>, c: usize| #[trigger] b.links(d, key, c) == (a.links(
        d,
        key,
        c,
    ) && !gone.contains(d)) by {}
    assert forall|x: usize, key: Seq<u16>, s: usize| #[trigger] b.owns(x, key, s) == (a.owns(
        x,
        key,
        s,
    ) && !gone.contains(x)) by {}
    assert forall|x: usize, key: Seq<u16>, s: usize| #[trigger] b.owns(x, key, s) implies {
        &&& b.streams.contains_key(s)
        &&& b.streams[s] == a.streams[s]
    } by {
        assert(a.owns(x, key, s));
        if streams_of(a, gone).contains(s) {
            let c = choose|c: usize| #[trigger] gone.contains(c) && a.owned(c, s);
            let key2 = choose|key2: Seq<u16>| #[trigger] a.owns(c, key2, s);
            assert(a.owns(c, key2, s));
        }
    }
    assert forall|x: usize| #[trigger] b.entries.contains_key(x) && x != ROOT implies b.hangs(x) by {
        assert(a.entries.contains_key(x));
        let parent = a.entries[x].stat.parent;
        if a.entries.contains_key(parent->0) {
            let key = choose|key: Seq<u16>| #[trigger] a.links(parent->0, key, x);
            if gone.contains(parent->0) {
                if a.entries[x].stat.handle_count == 0 {
                    lemma_freed_step(a, e, parent->0, x);
                }
            } else {
                assert(b.links(parent->0, key, x));
            }
        }
    }
    assert forall|s: usize| #[trigger] b.streams.contains_key(s) implies exists|
        x: usize,
        key: Seq<u16>,
    | b.owns(x, key, s) by {
        assert(a.streams.contains_key(s));
        let (x, key) = choose|x: usize, key: Seq<u16>| a.owns(x, key, s);
        assert(a.owned(x, s));
        assert(b.owns(x, key, s));
    }
    assert forall|h: usize| #[trigger] b.handles.contains_key(h) implies {
        let handle = b.handles[h];
        &&& b.entries.contains_key(handle.entry)
        &&& handle.alt_stream is Some ==> b.owned(handle.entry, handle.alt_stream->0)
    } by {
        assert(a.handles.contains_key(h));
        let handle = a.handles[h];
        assert(a.handles_on(handle.entry).contains(h));
        assert(a.handles_on(handle.entry).len() > 0) by {
            vstd::set_lib::lemma_set_empty_equivalency_len(a.handles_on(handle.entry));
        }
        if handle.alt_stream is Some {
            let key = choose|key: Seq<u16>| #[trigger]
                a.owns(handle.entry, key, handle.alt_stream->0);
            assert(b.owns(handle.entry, key, handle.alt_stream->0));
        }
    }
}

/// Of `items`, the numbers before place `i`.
spec fn ids_before(items: Seq<(EntryName, usize)>, i: int) -> Set<usize> {
    Set::new(|s: usize| exists|j: int| 0 <= j < i && #[trigger] items[j].1 == s)
}

/// How far [`MemFsHandler::release`] has come from `fs`: the entries in `gone` are away, those on
/// `stack` are next.
spec fn on_the_way(fs: FsView, e: usize, gone: Set<usize>, stack: Seq<usize>) -> bool {
    &&& fs.wf_but(e)
    &&& loose(fs, e)
    &&& gone.finite()
    &&& gone.contains(e) || stack.contains(e)
    &&& forall|c: usize| #[trigger]
        gone.contains(c) ==> {
            &&& freed(fs, e).contains(c)
            &&& fs.entries.contains_key(c)
            &&& c != e ==> gone.contains(fs.entries[c].stat.parent->0)
        }
    &&& forall|i: int|
        0 <= i < stack.len() ==> {
            &&& freed(fs, e).contains(#[trigger] stack[i])
            &&& fs.entries.contains_key(stack[i])
            &&& !gone.contains(stack[i])
            &&& stack[i] != e ==> gone.contains(fs.entries[stack[i]].stat.parent->0)
        }
    &&& forall|i: int, j: int| 0 <= i < j < stack.len() ==> #[trigger] stack[i] != #[trigger] stack[j]
}

/// Children of gone entries that are not open are gone or wait on the stack.
spec fn closed_under(fs: FsView, gone: Set<usize>, stack: Seq<usize>) -> bool {
    forall|d: usize, c: usize| #[trigger]
        fs.linked(d, c) && gone.contains(d) && fs.entries[c].stat.handle_count == 0
            ==> gone.contains(c) || stack.contains(c)
}

/// Nothing that is gone or waits was put there as a child of `c`.
spec fn no_child_of(fs: FsView, e: usize, gone: Set<usize>, stack: Seq<usize>, c: usize) -> bool {
    &&& forall|x: usize| #[trigger]
        gone.contains(x) ==> x == e || fs.entries[x].stat.parent != Some(c)
    &&& forall|i: int|
        0 <= i < stack.len() ==> #[trigger] stack[i] == e || fs.entries[stack[i]].stat.parent
            != Some(c)
}

/// The streams of the entry that is next are still there.
proof fn lemma_take(fs: FsView, e: usize, gone: Set<usize>, stack: Seq<usize>)
    requires
        on_the_way(fs, e, gone, stack),
        stack.len() > 0,
    ensures
        without(fs, gone).entries.contains_key(stack.last()),
        without(fs, gone).entries[stack.last()] == fs.entries[stack.last()],
        ({
            let names = fs.entries[stack.last()].stat.alt_streams;
            &&& forall|key: Seq<u16>| #[trigger]
                names.contains_key(key) ==> without(fs, gone).streams.contains_key(names[key].id)
            &&& forall|key1: Seq<u16>, key2: Seq<u16>|
                #![trigger names.contains_key(key1), names.contains_key(key2)]
                names.contains_key(key1) && names.contains_key(key2) && names[key1].id
                    == names[key2].id ==> key1 == key2
        }),
{
    let c = stack.last();
    assert(stack[stack.len() - 1] == c);
    let names = fs.entries[c].stat.alt_streams;
    assert forall|key: Seq<u16>| #[trigger] names.contains_key(key) implies without(
        fs,
        gone,
    ).streams.contains_key(names[key].id) by {
        assert(fs.owns(c, key, names[key].id));
        if streams_of(fs, gone).contains(names[key].id) {
            let d = choose|d: usize| #[trigger] gone.contains(d) && fs.owned(d, names[key].id);
            let other = choose|other: Seq<u16>| #[trigger] fs.owns(d, other, names[key].id);
            assert(fs.owns(d, other, names[key].id));
        }
    }
    assert forall|key1: Seq<u16>, key2: Seq<u16>|
        #![trigger names.contains_key(key1), names.contains_key(key2)]
        names.contains_key(key1) && names.contains_key(key2) && names[key1].id
            == names[key2].id implies key1 == key2 by {
        assert(fs.owns(c, key1, names[key1].id));
        assert(fs.owns(c, key2, names[key1].id));
    }
}

/// The entry that was next is gone too.
proof fn lemma_gone_more(fs: FsView, e: usize, gone: Set<usize>, stack: Seq<usize>)
    requires
        on_the_way(fs, e, gone, stack),
        stack.len() > 0,
    ensures
        without(fs, gone.insert(stack.last())).entries =~= without(fs, gone).entries.remove(
            stack.last(),
        ),
        without(fs, gone.insert(stack.last())).streams =~= without(fs, gone).streams.remove_keys(
            ids(fs.entries[stack.last()].stat.alt_streams),
        ),
        on_the_way(fs, e, gone.insert(stack.last()), stack.drop_last()),
        no_child_of(fs, e, gone.insert(stack.last()), stack.drop_last(), stack.last()),
{
    let c = stack.last();
    let more = gone.insert(c);
    let rest = stack.drop_last();
    assert(stack[stack.len() - 1] == c);
    assert forall|s: usize| #[trigger] streams_of(fs, more).contains(s) == (streams_of(
        fs,
        gone,
    ).contains(s) || ids(fs.entries[c].stat.alt_streams).contains(s)) by {
        let names = fs.entries[c].stat.alt_streams;
        if ids(names).contains(s) {
            let key = choose|key: Seq<u16>| #[trigger] names.contains_key(key) && names[key].id == s;
            assert(fs.owns(c, key, s));
            assert(more.contains(c));
        }
        if streams_of(fs, gone).contains(s) {
            let d = choose|d: usize| #[trigger] gone.contains(d) && fs.owned(d, s);
            assert(more.contains(d));
        }
        if streams_of(fs, more).contains(s) {
            let d = choose|d: usize| #[trigger] more.contains(d) && fs.owned(d, s);
            if d == c {
                let key = choose|key: Seq<u16>| #[trigger] fs.owns(c, key, s);
                assert(names.contains_key(key));
            } else {
                assert(gone.contains(d));
            }
        }
    }
    if c != e && !gone.contains(e) {
        let i = choose|i: int| 0 <= i < stack.len() && stack[i] == e;
        assert(rest[i] == e);
    }
    assert forall|i: int| 0 <= i < rest.len() implies {
        &&& freed(fs, e).contains(#[trigger] rest[i])
        &&& fs.entries.contains_key(rest[i])
        &&& !more.contains(rest[i])
        &&& rest[i] != e ==> more.contains(fs.entries[rest[i]].stat.parent->0)
        &&& rest[i] != e ==> gone.contains(fs.entries[rest[i]].stat.parent->0)
    } by {
        assert(rest[i] == stack[i]);
    }
}

impl MemFsHandler {
    /// Puts the children of `c` that are not open on the stack.
    fn queue_children(
        &self,
        children: &NameMap,
        stack: &mut Vec<usize>,
        Ghost(fs): Ghost<FsView>,
        Ghost(e): Ghost<usize>,
        Ghost(gone): Ghost<Set<usize>>,
        Ghost(c): Ghost<usize>,
    )
        requires
            self@ == without(fs, gone),
            on_the_way(fs, e, gone, old(stack)@),
            no_child_of(fs, e, gone, old(stack)@, c),
            gone.contains(c),
            fs.entries[c].children() == children@,
            forall|d: usize, x: usize| #[trigger]
                fs.linked(d, x) && gone.contains(d) && d != c && fs.entries[x].stat.handle_count
                    == 0 ==> gone.contains(x) || old(stack)@.contains(x),
        ensures
            on_the_way(fs, e, gone, final(stack)@),
            closed_under(fs, gone, final(stack)@),
    {
        let items: &Vec<(EntryName, usize)> = children.items();
        let ghost waiting = stack@;
        let mut i: usize = 0;
        while i < items.len()
            invariant
                i <= items@.len(),
                lists(items@, children@),
                self@ == without(fs, gone),
                on_the_way(fs, e, gone, stack@),
                no_child_of(fs, e, gone, waiting, c),
                gone.contains(c),
                fs.entries[c].children() == children@,
                waiting.len() <= stack@.len(),
                forall|k: int| 0 <= k < waiting.len() ==> #[trigger] stack@[k] == waiting[k],
                forall|k: int|
                    waiting.len() <= k < stack@.len() ==> exists|j: int|
                        0 <= j < i && #[trigger] items@[j].1 == #[trigger] stack@[k],
                forall|j: int|
                    0 <= j < i && fs.entries[(#[trigger] items@[j]).1].stat.handle_count == 0
                        ==> stack@.contains(items@[j].1),
            decreases items@.len() - i,
        {
            let x: usize = items[i].1;
            let ghost key = folded(items@[i as int].0@);
            proof {
                assert(fs.links(c, key, x));
            }
            if self.stat(x).handle_count == 0 {
                let ghost shorter = stack@;
                proof {
                    lemma_freed_step(fs, e, c, x);
                    assert forall|k: int| 0 <= k < shorter.len() implies #[trigger] shorter[k] != x by {
                        if k < waiting.len() {
                            assert(shorter[k] == waiting[k]);
                        } else {
                            let j = choose|j: int|
                                0 <= j < i && #[trigger] items@[j].1 == #[trigger] shorter[k];
                            assert(items@[j].1 == shorter[k]);
                            assert(fs.links(c, folded(items@[j].0@), items@[j].1));
                        }
                    }
                }
                stack.push(x);
                proof {
                    assert forall|k: int| 0 <= k < shorter.len() implies #[trigger] stack@[k]
                        == shorter[k] by {}
                    assert(stack@[shorter.len() as int] == x);
                    assert forall|y: usize| shorter.contains(y) implies #[trigger] stack@.contains(
                        y,
                    ) by {
                        let k = choose|k: int| 0 <= k < shorter.len() && shorter[k] == y;
                        assert(stack@[k] == y);
                    }
                    assert forall|k: int| waiting.len() <= k < stack@.len() implies exists|j: int|
                        0 <= j < i + 1 && #[trigger] items@[j].1 == #[trigger] stack@[k] by {
                        if k < shorter.len() {
                            let j = choose|j: int|
                                0 <= j < i && #[trigger] items@[j].1 == #[trigger] shorter[k];
                            assert(items@[j].1 == stack@[k]);
                        } else {
                            assert(items@[i as int].1 == stack@[k]);
                        }
                    }
                }
            }
            i += 1;
        }
        proof {
            assert forall|d: usize, x: usize| #[trigger]
                fs.linked(d, x) && gone.contains(d) && fs.entries[x].stat.handle_count
                    == 0 implies gone.contains(x) || stack@.contains(x) by {
                if d == c {
                    let key = choose|key: Seq<u16>| #[trigger] fs.links(c, key, x);
                    assert(children@.contains_key(key));
                    let j = choose|j: int|
                        0 <= j < items@.len() && folded(#[trigger] items@[j].0@) == key;
                    assert(items@[j].1 == x);
                } else if !gone.contains(x) {
                    let k = choose|k: int| 0 <= k < waiting.len() && waiting[k] == x;
                    assert(stack@[k] == x);
                }
            }
        }
    }

    /// Removes the streams that `names` leads to.
    fn remove_streams(&mut self, names: &NameMap)
        requires
            forall|key: Seq<u16>| #[trigger]
                names@.contains_key(key) ==> old(self)@.streams.contains_key(names@[key].id),
            forall|key1: Seq<u16>, key2: Seq<u16>|
                #![trigger names@.contains_key(key1), names@.contains_key(key2)]
                names@.contains_key(key1) && names@.contains_key(key2) && names@[key1].id
                    == names@[key2].id ==> key1 == key2,
        ensures
            final(self)@ == (FsView {
                streams: old(self)@.streams.remove_keys(ids(names@)),
                ..old(self)@
            }),
    {
        let ghost before = self@;
        let items: &Vec<(EntryName, usize)> = names.items();
        let mut i: usize = 0;
        proof {
            assert(before.streams.remove_keys(ids_before(items@, 0)) =~= before.streams);
        }
        while i < items.len()
            invariant
                i <= items@.len(),
                lists(items@, names@),
                forall|key: Seq<u16>| #[trigger]
                    names@.contains_key(key) ==> before.streams.contains_key(names@[key].id),
                forall|key1: Seq<u16>, key2: Seq<u16>|
                    #![trigger names@.contains_key(key1), names@.contains_key(key2)]
                    names@.contains_key(key1) && names@.contains_key(key2) && names@[key1].id
                        == names@[key2].id ==> key1 == key2,
                self@ == (FsView {
                    streams: before.streams.remove_keys(ids_before(items@, i as int)),
                    ..before
                }),
            decreases items@.len() - i,
        {
            let s: usize = items[i].1;
            proof {
                assert(names@.contains_key(folded(items@[i as int].0@)));
                assert(before.streams.contains_key(s));
                assert forall|j: int| 0 <= j < i implies #[trigger] items@[j].1 != s by {
                    assert(names@.contains_key(folded(items@[j].0@)));
                }
            }
            self.remove_stream(s);
            proof {
                assert forall|x: usize| #[trigger]
                    ids_before(items@, i + 1).contains(x) == (ids_before(items@, i as int).contains(
                        x,
                    ) || x == s) by {
                    assert(items@[i as int].1 == s);
                }
                assert(self@.streams =~= before.streams.remove_keys(ids_before(items@, i + 1)));
            }
            i += 1;
        }
        proof {
            assert forall|s: usize| #[trigger]
                ids_before(items@, items@.len() as int).contains(s) == ids(names@).contains(s) by {
                if ids(names@).contains(s) {
                    let key = choose|key: Seq<u16>| #[trigger]
                        names@.contains_key(key) && names@[key].id == s;
                    let j = choose|j: int|
                        0 <= j < items@.len() && folded(#[trigger] items@[j].0@) == key;
                    assert(items@[j].1 == s);
                }
                if ids_before(items@, items@.len() as int).contains(s) {
                    let j = choose|j: int| 0 <= j < items@.len() && #[trigger] items@[j].1 == s;
                    assert(names@.contains_key(folded(items@[j].0@)));
                }
            }
            assert(ids_before(items@, items@.len() as int) =~= ids(names@));
        }
    }

    /// Lets go of an entry that no directory holds and that is not open, and of what it alone
    /// held.
    pub(crate) fn release(&mut self, e: usize)
        requires
            old(self)@.wf_but(e),
            loose(old(self)@, e),
        ensures
            final(self)@ == without(old(self)@, freed(old(self)@, e)),
            final(self)@.wf(),
    {
        let ghost before = self@;
        let mut stack: Vec<usize> = Vec::new();
        stack.push(e);
        let ghost mut gone: Set<usize> = Set::empty();
        proof {
            lemma_freed_self(before, e);
            assert(stack@[0] == e);
            assert(without(before, gone) =~= before) by {
                assert(streams_of(before, gone) =~= Set::empty());
            }
        }
        while stack.len() > 0
            invariant
                on_the_way(before, e, gone, stack@),
                closed_under(before, gone, stack@),
                self@ == without(before, gone),
            decreases self@.entries.dom().len(),
        {
            let ghost waiting = stack@;
            let c: usize = match stack.pop() {
                Some(c) => c,
                None => vstd::pervasive::unreached(),
            };
            assert(waiting[waiting.len() - 1] == c);
            assert(stack@ =~= waiting.drop_last());
            let ghost mid = self@;
            let entry = self.take_entry(c);
            proof {
                lemma_take(before, e, gone, waiting);
            }
            let names: &NameMap = &entry.stat().alt_streams;
            assert(names@ == before.entries[c].stat.alt_streams);
            self.remove_streams(names);
            proof {
                assert(mid.entries.dom() =~= before.entries.dom().difference(gone));
                assert(mid.entries.dom().contains(c));
                lemma_gone_more(before, e, gone, waiting);
                assert(self@ =~= without(before, gone.insert(c)));
                assert(self@.entries.dom() =~= mid.entries.dom().remove(c));
                gone = gone.insert(c);
            }
            proof {
                assert forall|d: usize, x: usize| #[trigger]
                    before.linked(d, x) && gone.contains(d) && d != c
                        && before.entries[x].stat.handle_count == 0 implies gone.contains(x)
                    || stack@.contains(x) by {
                    if !gone.contains(x) {
                        let i = choose|i: int| 0 <= i < waiting.len() && waiting[i] == x;
                        assert(stack@[i] == x);
                    }
                }
            }
            match &entry {
                Entry::Directory(dir) => self.queue_children(
                    &dir.children,
                    &mut stack,
                    Ghost(before),
                    Ghost(e),
                    Ghost(gone),
                    Ghost(c),
                ),
                Entry::File(_) => {
                    assert forall|x: usize| !#[trigger] before.linked(c, x) by {}
                },
            }
        }
        proof {
            assert forall|c: usize| #[trigger] freed(before, e).contains(c) implies gone.contains(
                c,
            ) by {
                let path = choose|path: Seq<usize>| #[trigger]
                    goes_down(before, e, path) && path.last() == c;
                lemma_freed_within(before, e, gone, path);
            }
            assert(gone =~= freed(before, e));
            lemma_released(before, e);
        }
    }
}

} // verus!
