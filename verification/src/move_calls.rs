//! What a call that moves does, told by what it finds, gives back and leaves.
use vstd::prelude::*;

use crate::attributes::FILE_ATTRIBUTE_READONLY;
use crate::calls::{entries_but, handles_but, same_numbers};
use crate::entry::{Content, StatView, StreamView};
use crate::handle::EntryHandle;
use crate::keep::lemma_handle_counts;
use crate::memfs::MemFsHandler;
use crate::model::FsView;
use crate::name::{folded, Link};
use crate::open_calls::{asks_main, asks_stream};
use crate::path::{find_name, name_start, FullName, PathInfo};
use crate::rename::{is_stream_name, Destination};
use crate::status::{
    OperationError, STATUS_ACCESS_DENIED, STATUS_INVALID_DEVICE_REQUEST, STATUS_INVALID_PARAMETER,
    STATUS_OBJECT_NAME_COLLISION, STATUS_OBJECT_NAME_INVALID, STATUS_SHARING_VIOLATION,
};

verus! {

/// `name` is what stands behind the last backslash of `path`.
pub open spec fn ends_in(path: Seq<u16>, name: Seq<u16>) -> bool {
    exists|dir: Seq<u16>| path == #[trigger] (dir + seq![0x5cu16]) + name && !name.contains(0x5c)
}

/// There is a backslash in `path`.
pub open spec fn has_parts(path: Seq<u16>) -> bool {
    path.contains(0x5c)
}

proof fn lemma_no_parts(path: Seq<u16>)
    ensures
        has_parts(path) == (name_start(path) is Some),
    decreases path.len(),
{
    if path.len() > 0 {
        lemma_no_parts(path.drop_last());
        let shorter = path.drop_last();
        if path.last() == 0x5c {
            assert(path[path.len() - 1] == 0x5c);
        } else if has_parts(path) {
            let i = choose|i: int| 0 <= i < path.len() && path[i] == 0x5c;
            assert(shorter[i] == 0x5c);
        } else if has_parts(shorter) {
            let i = choose|i: int| 0 <= i < shorter.len() && shorter[i] == 0x5c;
            assert(path[i] == 0x5c);
        }
    }
}

proof fn lemma_start(dir: Seq<u16>, name: Seq<u16>)
    requires
        !name.contains(0x5c),
    ensures
        name_start(dir + seq![0x5cu16] + name) == Some(dir.len() as int + 1),
    decreases name.len(),
{
    let path = dir + seq![0x5cu16] + name;
    if name.len() > 0 {
        let shorter = name.drop_last();
        assert(path.last() == name[name.len() - 1]);
        assert forall|i: int| 0 <= i < shorter.len() implies shorter[i] != 0x5c by {
            assert(name.contains(name[i]));
        }
        assert(path.drop_last() =~= dir + seq![0x5cu16] + shorter);
        lemma_start(dir, shorter);
    } else {
        assert(path.last() == 0x5c);
        assert(path.len() == dir.len() + 1);
    }
}

proof fn lemma_ends_in(path: Seq<u16>, name: Seq<u16>)
    requires
        ends_in(path, name),
    ensures
        name_start(path) is Some,
        path.skip(name_start(path)->0) == name,
        has_parts(path),
{
    let dir = choose|dir: Seq<u16>|
        path == #[trigger] (dir + seq![0x5cu16]) + name && !name.contains(0x5c);
    lemma_start(dir, name);
    assert(path.skip(dir.len() as int + 1) =~= name);
    lemma_no_parts(path);
}

/// The last part of a path starts behind its last backslash, and there is none without one.
pub proof fn law_find_name(path: &[u16], r: Option<usize>)
    requires
        call_ensures(find_name, (path,), r),
    ensures
        r is Some <==> path@.contains(0x5c),
        r matches Some(start) ==> ends_in(path@, path@.skip(start as int)),
{
    if r is Some {
        let start = r->0 as int;
        assert(path@[start - 1] == 0x5c);
        let dir = path@.take(start - 1);
        assert(path@ =~= (dir + seq![0x5cu16]) + path@.skip(start));
    }
}

/// A new name is that of a stream just if it starts with a colon.
pub proof fn law_stream_name(name: &[u16], r: bool)
    requires
        call_ensures(is_stream_name, (name,), r),
    ensures
        r <==> exists|rest: Seq<u16>| name@ == #[trigger] (seq![0x3au16] + rest),
{
    if r {
        assert(name@ =~= seq![0x3au16] + name@.skip(1));
    }
}

/// The directory that what handle `h` is on was put into is there.
pub open spec fn inside(fs: FsView, h: usize) -> bool {
    let parent = fs.entries[fs.handles[h].entry].stat.parent;
    parent is Some && fs.entries.contains_key(parent->0)
}

/// When an entry is not moved, and why. Nothing changes then.
pub proof fn law_move_refused(
    fs: &mut MemFsHandler,
    h: usize,
    file_name: &[u16],
    new_file_name: &[u16],
    path: Result<Option<PathInfo>, OperationError>,
    replace: bool,
    now: u64,
    r: Result<(), OperationError>,
)
    requires
        old(fs)@.wf(),
        old(fs)@.handles.contains_key(h),
        call_ensures(
            MemFsHandler::move_file,
            (fs, h, file_name, new_file_name, &Destination::Path(path), replace, now),
            r,
        ),
    ensures
        ({
            let a = old(fs)@;
            let e = a.handles[h].entry;
            let found = path->Ok_0->0;
            let names = a.entries[found.parent].children();
            let key = folded(found.name.file_name@);
            let t = names[key].id;
            let told = |status: u32|
                r == Err::<(), OperationError>(OperationError::NtStatus(status));
            if !has_parts(file_name@) {
                told(STATUS_INVALID_PARAMETER)
            } else if !inside(a, h) {
                told(STATUS_INVALID_DEVICE_REQUEST)
            } else if a.handles[h].alt_stream is Some {
                told(STATUS_OBJECT_NAME_INVALID)
            } else if path is Err {
                r == Err::<(), OperationError>(path->Err_0)
            } else if path->Ok_0 is None || found.name.stream_info is Some {
                told(STATUS_OBJECT_NAME_INVALID)
            } else if !names.contains_key(key) || t == e {
                r is Ok
            } else if !replace {
                told(STATUS_OBJECT_NAME_COLLISION)
            } else if a.entries[e].content is Directory || a.entries[t].content is Directory
                || a.entries[t].stat.handle_count != 0 || a.entries[t].stat.attrs
                & FILE_ATTRIBUTE_READONLY != 0 {
                told(STATUS_ACCESS_DENIED)
            } else {
                r is Ok
            }
        }),
        r is Err ==> final(fs)@ == old(fs)@,
{
    lemma_no_parts(file_name@);
}

/// An entry that is moved stays what it is: its identifier, attributes, creation time, security
/// descriptor, pending deletion, handle count and streams are as before, and so are its change time
/// and what it holds unless it is one of the two directories. Only its directory and its access
/// time are new.
pub proof fn law_move_keeps_entry(
    fs: &mut MemFsHandler,
    h: usize,
    file_name: &[u16],
    new_file_name: &[u16],
    path: PathInfo,
    replace: bool,
    now: u64,
    r: Result<(), OperationError>,
)
    requires
        old(fs)@.wf(),
        old(fs)@.handles.contains_key(h),
        old(fs)@.entries.contains_key(path.parent),
        old(fs)@.entries[path.parent].content is Directory,
        r is Ok,
        call_ensures(
            MemFsHandler::move_file,
            (fs, h, file_name, new_file_name, &Destination::Path(Ok(Some(path))), replace, now),
            r,
        ),
    ensures
        ({
            let a = old(fs)@;
            let b = final(fs)@;
            let e = a.handles[h].entry;
            let was = a.entries[e].stat;
            let is = b.entries[e].stat;
            let src = was.parent->0;
            &&& b.entries.contains_key(e)
            &&& is.id == was.id
            &&& is.attrs == was.attrs
            &&& is.ctime == was.ctime
            &&& is.sec_desc == was.sec_desc
            &&& is.delete_pending == was.delete_pending
            &&& is.handle_count == was.handle_count
            &&& is.alt_streams == was.alt_streams
            &&& is.parent == Some(path.parent)
            &&& e != src && e != path.parent ==> {
                &&& is.mtime == was.mtime
                &&& is.atime == if a.handles[h].atime_enabled {
                    now
                } else {
                    was.atime
                }
                &&& b.entries[e].content == a.entries[e].content
            }
            &&& e == src || e == path.parent ==> is.mtime == now && is.atime == now
            &&& b.handles == a.handles
            &&& same_numbers(a, b)
        }),
{
    lemma_handle_counts(old(fs)@, h);
    let a = old(fs)@;
    let e = a.handles[h].entry;
    lemma_no_parts(file_name@);
    assert(a.hangs(e));
    let key = choose|key: Seq<u16>| #[trigger] a.links(a.entries[e].stat.parent->0, key, e);
    assert(a.links(a.entries[e].stat.parent->0, key, e));
}

/// A file that stood in the place of what is moved.
pub open spec fn replaced(fs: FsView, e: usize, path: PathInfo, t: usize) -> bool {
    &&& fs.links(path.parent, folded(path.name.file_name@), t)
    &&& t != e
}

/// What stands under the old name of an entry that is moved leaves it and has the new one, as it is
/// spelled; all other names in the two directories stay, and both count as changed.
pub proof fn law_move_renames(
    fs: &mut MemFsHandler,
    h: usize,
    file_name: &[u16],
    new_file_name: &[u16],
    path: PathInfo,
    replace: bool,
    now: u64,
    r: Result<(), OperationError>,
    src_name: Seq<u16>,
)
    requires
        old(fs)@.wf(),
        old(fs)@.handles.contains_key(h),
        old(fs)@.entries.contains_key(path.parent),
        old(fs)@.entries[path.parent].content is Directory,
        ends_in(file_name@, src_name),
        ({
            let e = old(fs)@.handles[h].entry;
            let names = old(fs)@.entries[old(fs)@.entries[e].stat.parent->0].children();
            names.contains_key(folded(src_name)) && !replaced(
                old(fs)@,
                e,
                path,
                names[folded(src_name)].id,
            )
        }),
        r is Ok,
        call_ensures(
            MemFsHandler::move_file,
            (fs, h, file_name, new_file_name, &Destination::Path(Ok(Some(path))), replace, now),
            r,
        ),
    ensures
        ({
            let a = old(fs)@;
            let b = final(fs)@;
            let e = a.handles[h].entry;
            let src = a.entries[e].stat.parent->0;
            let dst = path.parent;
            let dst_name = path.name.file_name@;
            let id = a.entries[src].children()[folded(src_name)].id;
            let link = Link { name: dst_name, id };
            &&& b.entries.contains_key(src)
            &&& b.entries.contains_key(dst)
            &&& b.entries[src].content is Directory
            &&& b.entries[dst].content is Directory
            &&& src != dst ==> {
                &&& b.entries[src].children() == a.entries[src].children().remove(folded(src_name))
                &&& b.entries[dst].children() == a.entries[dst].children().insert(
                    folded(dst_name),
                    link,
                )
            }
            &&& src == dst ==> b.entries[dst].children() == a.entries[dst].children().remove(
                folded(src_name),
            ).insert(folded(dst_name), link)
            &&& src != e ==> b.entries[src].stat == StatView {
                mtime: now,
                atime: now,
                ..a.entries[src].stat
            }
            &&& dst != e ==> b.entries[dst].stat == StatView {
                mtime: now,
                atime: now,
                ..a.entries[dst].stat
            }
        }),
{
    let a = old(fs)@;
    let b = final(fs)@;
    let e = a.handles[h].entry;
    let src = a.entries[e].stat.parent->0;
    let dst = path.parent;
    let dst_name = path.name.file_name@;
    let id = a.entries[src].children()[folded(src_name)].id;
    let link = Link { name: dst_name, id };
    lemma_handle_counts(a, h);
    lemma_ends_in(file_name@, src_name);
    assert(a.hangs(e));
    if src != dst {
        assert(b.entries[src].children() =~= a.entries[src].children().remove(folded(src_name)));
        assert(b.entries[dst].children() =~= a.entries[dst].children().insert(
            folded(dst_name),
            link,
        ));
    } else {
        assert(b.entries[dst].children() =~= a.entries[dst].children().remove(
            folded(src_name),
        ).insert(folded(dst_name), link));
    }
}

/// Of the other entries and streams a move takes away a file whose place is taken, and its streams;
/// everything else stays as it is.
pub proof fn law_move_leaves_the_rest(
    fs: &mut MemFsHandler,
    h: usize,
    file_name: &[u16],
    new_file_name: &[u16],
    path: PathInfo,
    replace: bool,
    now: u64,
    r: Result<(), OperationError>,
)
    requires
        old(fs)@.wf(),
        old(fs)@.handles.contains_key(h),
        old(fs)@.entries.contains_key(path.parent),
        old(fs)@.entries[path.parent].content is Directory,
        r is Ok,
        call_ensures(
            MemFsHandler::move_file,
            (fs, h, file_name, new_file_name, &Destination::Path(Ok(Some(path))), replace, now),
            r,
        ),
    ensures
        ({
            let a = old(fs)@;
            let b = final(fs)@;
            let e = a.handles[h].entry;
            let src = a.entries[e].stat.parent->0;
            &&& forall|x: usize| #[trigger]
                b.entries.contains_key(x) <==> a.entries.contains_key(x) && !replaced(a, e, path, x)
            &&& forall|x: usize| #[trigger]
                b.entries.contains_key(x) && x != e && x != src && x != path.parent
                    ==> b.entries[x] == a.entries[x]
            &&& forall|x: usize, key: Seq<u16>, s: usize| #[trigger]
                a.owns(x, key, s) ==> (b.streams.contains_key(s) <==> !replaced(a, e, path, x))
            &&& forall|s: usize| #[trigger]
                b.streams.contains_key(s) ==> a.streams.contains_key(s) && b.streams[s]
                    == a.streams[s]
        }),
{
    let a = old(fs)@;
    let b = final(fs)@;
    let e = a.handles[h].entry;
    let src = a.entries[e].stat.parent->0;
    lemma_handle_counts(a, h);
    lemma_no_parts(file_name@);
    assert(a.hangs(e));
    let own = choose|key: Seq<u16>| #[trigger] a.links(src, key, e);
    assert(a.links(src, own, e));
    let key = folded(path.name.file_name@);
    if a.entries[path.parent].children().contains_key(key) {
        let t = a.entries[path.parent].children()[key].id;
        assert(a.links(path.parent, key, t));
        let cut = a.with_children(path.parent, a.entries[path.parent].children().remove(key));
        let gone = Set::empty().insert(t);
        if t != e {
            assert forall|x: usize, k: Seq<u16>, s: usize| #[trigger] a.owns(x, k, s) implies (
            b.streams.contains_key(s) <==> !replaced(a, e, path, x)) by {
                assert(cut.owns(x, k, s));
                assert(gone.contains(t));
                if x == t {
                    assert(cut.owned(t, s));
                }
                if cut.owned(t, s) {
                    let k2 = choose|k2: Seq<u16>| #[trigger] cut.owns(t, k2, s);
                    assert(cut.owns(t, k2, s));
                    assert(a.owns(t, k2, s));
                }
            }
        }
    }
}

/// When a stream is not moved, and why. Nothing changes then.
pub proof fn law_stream_move_refused(
    fs: &mut MemFsHandler,
    h: usize,
    file_name: &[u16],
    new_file_name: &[u16],
    src: Result<FullName, OperationError>,
    dst: Result<FullName, OperationError>,
    replace: bool,
    now: u64,
    r: Result<(), OperationError>,
)
    requires
        old(fs)@.wf(),
        old(fs)@.handles.contains_key(h),
        call_ensures(
            MemFsHandler::move_file,
            (fs, h, file_name, new_file_name, &Destination::Stream { src, dst }, replace, now),
            r,
        ),
    ensures
        ({
            let a = old(fs)@;
            let e = a.handles[h].entry;
            let alt = a.handles[h].alt_stream;
            let is_dir = a.entries[e].content is Directory;
            let info = dst->Ok_0.stream_info;
            let on_it = if is_dir {
                info->0.on_dir
            } else {
                info->0.on_file
            };
            let to_main = asks_main(dst->Ok_0, is_dir);
            let key = folded(info->0.name@);
            let names = a.entries[e].stat.alt_streams;
            let t = names[key].id;
            let told = |status: u32|
                r == Err::<(), OperationError>(OperationError::NtStatus(status));
            if !has_parts(file_name@) {
                told(STATUS_INVALID_PARAMETER)
            } else if !inside(a, h) {
                told(STATUS_INVALID_DEVICE_REQUEST)
            } else if src is Err {
                r == Err::<(), OperationError>(src->Err_0)
            } else if dst is Err {
                r == Err::<(), OperationError>(dst->Err_0)
            } else if info is Some && on_it is Err {
                r == Err::<(), OperationError>(on_it->Err_0)
            } else if is_dir && (alt is None || to_main) {
                told(STATUS_OBJECT_NAME_INVALID)
            } else if !to_main && names.contains_key(key) && alt != Some(t) && !replace {
                told(STATUS_OBJECT_NAME_COLLISION)
            } else if !to_main && names.contains_key(key) && alt != Some(t)
                && a.streams[t].handle_count != 0 {
                told(STATUS_ACCESS_DENIED)
            } else if to_main && alt is Some && a.streams[alt->0].handle_count > 1 {
                told(STATUS_SHARING_VIOLATION)
            } else if to_main && alt is Some && !replace {
                told(STATUS_OBJECT_NAME_COLLISION)
            } else {
                r is Ok
            }
        }),
        r is Err ==> final(fs)@ == old(fs)@,
{
    lemma_no_parts(file_name@);
}

/// The streams of `fs` without the one that entry `e` has under `name`, unless that is `alt`.
pub open spec fn streams_less(
    fs: FsView,
    e: usize,
    name: Seq<u16>,
    alt: Option<usize>,
) -> Map<usize, StreamView> {
    let names = fs.entries[e].stat.alt_streams;
    if names.contains_key(folded(name)) && alt != Some(names[folded(name)].id) {
        fs.streams.remove(names[folded(name)].id)
    } else {
        fs.streams
    }
}

/// The bytes of a file become a stream under a name, in place of a stream that had it; the file is
/// then empty. A pending deletion goes with the bytes, and so does the handle. A file that is moved
/// to its own bytes is only accessed.
pub proof fn law_main_becomes_stream(
    fs: &mut MemFsHandler,
    h: usize,
    file_name: &[u16],
    new_file_name: &[u16],
    src: FullName,
    dst: FullName,
    replace: bool,
    now: u64,
    r: Result<(), OperationError>,
)
    requires
        old(fs)@.wf(),
        old(fs)@.handles.contains_key(h),
        old(fs)@.handles[h].alt_stream is None,
        r is Ok,
        call_ensures(
            MemFsHandler::move_file,
            (
                fs,
                h,
                file_name,
                new_file_name,
                &(Destination::Stream { src: Ok(src), dst: Ok(dst) }),
                replace,
                now,
            ),
            r,
        ),
    ensures
        ({
            let a = old(fs)@;
            let b = final(fs)@;
            let e = a.handles[h].entry;
            let was = a.entries[e];
            let name = dst.stream_info->0.name@;
            let s = a.next_stream as usize;
            &&& was.content is File
            &&& entries_but(a, b, e)
            &&& b.id_counter == a.id_counter
            &&& b.next_entry == a.next_entry
            &&& asks_main(dst, false) ==> {
                &&& b.entries[e].content == was.content
                &&& b.entries[e].stat == StatView { atime: now, ..was.stat }
                &&& b.streams == a.streams
                &&& b.next_stream == a.next_stream
                &&& b.handles == a.handles
            }
            &&& !asks_main(dst, false) ==> {
                &&& b.entries[e].content == (Content::File { data: Seq::empty() })
                &&& b.entries[e].stat == StatView {
                    atime: now,
                    delete_pending: false,
                    alt_streams: was.stat.alt_streams.insert(folded(name), Link { name, id: s }),
                    ..was.stat
                }
                &&& b.streams == streams_less(a, e, name, None).insert(
                    s,
                    StreamView {
                        handle_count: 1,
                        delete_pending: was.stat.delete_pending,
                        data: was.content->data,
                    },
                )
                &&& b.next_stream == a.next_stream + 1
                &&& handles_but(a, b, h)
                &&& b.handles[h] == EntryHandle { alt_stream: Some(s), ..a.handles[h] }
            }
        }),
{
    let a = old(fs)@;
    let b = final(fs)@;
    let e = a.handles[h].entry;
    lemma_handle_counts(a, h);
    lemma_no_parts(file_name@);
    let name = dst.stream_info->0.name@;
    let s = a.next_stream as usize;
    if !asks_main(dst, false) {
        assert(b.entries[e].stat.alt_streams =~= a.entries[e].stat.alt_streams.insert(
            folded(name),
            Link { name, id: s },
        ));
        assert(b.streams =~= streams_less(a, e, name, None).insert(
            s,
            StreamView {
                handle_count: 1,
                delete_pending: a.entries[e].stat.delete_pending,
                data: a.entries[e].content->data,
            },
        ));
    }
}

/// The bytes of a stream become those of its file, and its pending deletion that of the file; the
/// stream is gone, and the handle is on the file.
pub proof fn law_stream_becomes_main(
    fs: &mut MemFsHandler,
    h: usize,
    file_name: &[u16],
    new_file_name: &[u16],
    src: FullName,
    dst: FullName,
    replace: bool,
    now: u64,
    r: Result<(), OperationError>,
    s: usize,
)
    requires
        old(fs)@.wf(),
        old(fs)@.handles.contains_key(h),
        old(fs)@.handles[h].alt_stream == Some(s),
        src.stream_info is Some,
        old(fs)@.owns(old(fs)@.handles[h].entry, folded(src.stream_info->0.name@), s),
        old(fs)@.entries[old(fs)@.handles[h].entry].content is File,
        asks_main(dst, false),
        r is Ok,
        call_ensures(
            MemFsHandler::move_file,
            (
                fs,
                h,
                file_name,
                new_file_name,
                &(Destination::Stream { src: Ok(src), dst: Ok(dst) }),
                replace,
                now,
            ),
            r,
        ),
    ensures
        ({
            let a = old(fs)@;
            let b = final(fs)@;
            let e = a.handles[h].entry;
            let was = a.entries[e];
            let key = folded(src.stream_info->0.name@);
            &&& entries_but(a, b, e)
            &&& same_numbers(a, b)
            &&& b.entries[e].content == (Content::File { data: a.streams[s].data })
            &&& b.entries[e].stat == StatView {
                atime: now,
                delete_pending: a.streams[s].delete_pending,
                alt_streams: was.stat.alt_streams.remove(key),
                ..was.stat
            }
            &&& b.streams == a.streams.remove(s)
            &&& handles_but(a, b, h)
            &&& b.handles[h] == EntryHandle { alt_stream: None, ..a.handles[h] }
        }),
{
    let a = old(fs)@;
    let b = final(fs)@;
    lemma_handle_counts(a, h);
    lemma_no_parts(file_name@);
    assert(b.streams =~= a.streams.remove(s));
}

/// A stream that is moved to another name, in place of a stream that had it, is the same stream
/// under the new name as it is spelled.
pub proof fn law_stream_is_renamed(
    fs: &mut MemFsHandler,
    h: usize,
    file_name: &[u16],
    new_file_name: &[u16],
    src: FullName,
    dst: FullName,
    replace: bool,
    now: u64,
    r: Result<(), OperationError>,
    s: usize,
)
    requires
        old(fs)@.wf(),
        old(fs)@.handles.contains_key(h),
        old(fs)@.handles[h].alt_stream == Some(s),
        src.stream_info is Some,
        old(fs)@.owns(old(fs)@.handles[h].entry, folded(src.stream_info->0.name@), s),
        asks_stream(dst, old(fs)@.entries[old(fs)@.handles[h].entry].content is Directory),
        r is Ok,
        call_ensures(
            MemFsHandler::move_file,
            (
                fs,
                h,
                file_name,
                new_file_name,
                &(Destination::Stream { src: Ok(src), dst: Ok(dst) }),
                replace,
                now,
            ),
            r,
        ),
    ensures
        ({
            let a = old(fs)@;
            let b = final(fs)@;
            let e = a.handles[h].entry;
            let was = a.entries[e];
            let name = dst.stream_info->0.name@;
            &&& entries_but(a, b, e)
            &&& same_numbers(a, b)
            &&& b.entries[e].content == was.content
            &&& b.entries[e].stat == StatView {
                atime: now,
                alt_streams: was.stat.alt_streams.remove(
                    folded(src.stream_info->0.name@),
                ).insert(folded(name), Link { name, id: s }),
                ..was.stat
            }
            &&& b.streams == streams_less(a, e, name, Some(s))
            &&& b.handles == a.handles
        }),
{
    let a = old(fs)@;
    let b = final(fs)@;
    let e = a.handles[h].entry;
    lemma_handle_counts(a, h);
    lemma_no_parts(file_name@);
    let name = dst.stream_info->0.name@;
    let names = a.entries[e].stat.alt_streams;
    if names.contains_key(folded(name)) {
        assert(a.owns(e, folded(name), names[folded(name)].id));
    }
    assert(b.entries[e].stat.alt_streams =~= names.remove(
        folded(src.stream_info->0.name@),
    ).insert(folded(name), Link { name, id: s }));
    assert(b.handles =~= a.handles);
}

/// A path is that of what handle `h` is on just if its last part is the name of the entry in its
/// directory; then a move that is not refused can be done.
pub proof fn law_own_name(
    fs: &MemFsHandler,
    h: usize,
    file_name: &[u16],
    path: PathInfo,
    replace: bool,
    own: bool,
    can: bool,
    src_name: Seq<u16>,
)
    requires
        fs@.wf(),
        fs@.handles.contains_key(h),
        fs@.handles[h].alt_stream is None,
        inside(fs@, h),
        ends_in(file_name@, src_name),
        path.name.stream_info is None,
        fs@.entries[path.parent].content is Directory,
        !fs@.entries[path.parent].children().contains_key(folded(path.name.file_name@)),
        call_ensures(
            MemFsHandler::is_own_name,
            (fs, h, file_name, &Destination::Path(Ok(Some(path))), replace),
            own,
        ),
        call_ensures(
            MemFsHandler::can_move,
            (fs, h, file_name, &Destination::Path(Ok(Some(path))), replace),
            can,
        ),
    ensures
        ({
            let e = fs@.handles[h].entry;
            let d = fs@.entries[e].stat.parent->0;
            &&& own <==> fs@.links(d, folded(src_name), e)
            &&& can <==> fs@.entries[d].children().contains_key(folded(src_name))
            &&& own ==> can
        }),
{
    lemma_handle_counts(fs@, h);
    lemma_ends_in(file_name@, src_name);
}

/// What can be moved at all can be moved by its own name, whatever stands in the new place.
pub proof fn law_own_name_suffices(
    fs: &MemFsHandler,
    h: usize,
    file_name: &[u16],
    dest: &Destination,
    replace: bool,
    can: bool,
)
    requires
        fs@.wf(),
        fs@.handles.contains_key(h),
        *dest matches Destination::Path(Ok(Some(path))) ==> fs@.entries.contains_key(path.parent),
        call_ensures(MemFsHandler::is_own_name, (fs, h, file_name, dest, replace), true),
        call_ensures(MemFsHandler::can_move, (fs, h, file_name, dest, replace), can),
    ensures
        can,
{
    lemma_handle_counts(fs@, h);
    let e = fs@.handles[h].entry;
    match *dest {
        Destination::Path(Ok(Some(path))) => {
            let key = folded(path.name.file_name@);
            if fs@.entries[path.parent].children().contains_key(key) {
                assert(fs@.links(path.parent, key, fs@.entries[path.parent].children()[key].id));
            }
            let d = fs@.entries[e].stat.parent->0;
            let src = folded(file_name@.skip(name_start(file_name@)->0));
            if inside(fs@, h) && fs@.entries[d].children().contains_key(src) {
                assert(fs@.links(d, src, fs@.entries[d].children()[src].id));
            }
        },
        Destination::Stream { src: Ok(src), dst: Ok(dst) } => {
            let key = folded(src.stream_info->0.name@);
            let other = folded(dst.stream_info->0.name@);
            if fs@.entries[e].stat.alt_streams.contains_key(key) {
                assert(fs@.owns(e, key, fs@.entries[e].stat.alt_streams[key].id));
            }
            if fs@.entries[e].stat.alt_streams.contains_key(other) {
                assert(fs@.owns(e, other, fs@.entries[e].stat.alt_streams[other].id));
            }
        },
        _ => {},
    }
}

} // verus!
