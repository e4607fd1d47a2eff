//! What holds of the library as a whole.
use vstd::prelude::*;
use vstd::std_specs::cmp::PartialEqSpec;

use crate::attributes::{
    has, output_attrs, supported, FILE_ATTRIBUTE_DIRECTORY, FILE_ATTRIBUTE_READONLY, SUPPORTED_ATTRS,
};
use crate::change::{delete_directory_refusal, times_raised};
use crate::close::{can_close, closed, drops_stream, handle_closed, key_of, lets_go, unlinks};
use crate::create::{
    create_refusal, created, created_kind, found, main_stream, path_valid, refuse, CreateRequest,
    FILE_CREATE,
};
use crate::data::{capped, overwritten, read_len, resized};
use crate::entry::{SecurityDescriptor, StatView};
use crate::handle::EntryHandle;
use crate::ident::{uuid_time, version};
use crate::info::{file_info, on_dir, tells, FindData};
use crate::io::{bytes_of, resized_through, written};
use crate::keep::{lemma_counts_bounded, lemma_handle_counts};
use crate::model::{FsView, ROOT};
use crate::name::{folded, tolower, EntryName};
use crate::path::PathInfo;
use crate::release::{freed, goes_down};
use crate::rename::{
    dest_valid, entry_moved, last_part, main_to_stream, movable, move_refusal, moved, own_name,
    stream_found,
    stream_to_main, stream_to_stream, Destination,
};
use crate::status::{OperationError, STATUS_ACCESS_DENIED, STATUS_DELETE_PENDING};

verus! {

/// Folding a name twice changes nothing more, and keeps its length.
pub proof fn law_folded_once(name: Seq<u16>)
    ensures
        folded(folded(name)) == folded(name),
        folded(name).len() == name.len(),
{
    assert(folded(folded(name)) =~= folded(name));
}

/// Names that compare as equal hash alike: whatever units are hashed for the one are hashed for the
/// other.
pub proof fn law_equal_names_hash_alike(a: EntryName, b: EntryName, x: Vec<u16>, y: Vec<u16>)
    requires
        a.eq_spec(&b),
        call_ensures(EntryName::hash_units, (&a,), x),
        call_ensures(EntryName::hash_units, (&b,), y),
    ensures
        x@ == y@,
{
}

/// A directory is searched without regard to case: names that differ in the case of ASCII letters
/// lead to the same entry.
pub proof fn law_search_ignores_case(fs: FsView, d: usize, name: Seq<u16>, other: Seq<u16>)
    requires
        name.len() == other.len(),
        forall|i: int| 0 <= i < name.len() ==> tolower(#[trigger] name[i]) == tolower(other[i]),
    ensures
        found(fs, d, name) == found(fs, d, other),
{
    assert(folded(name) =~= folded(other));
}

/// Every entry has supported attributes only, whatever was asked for; masking them again changes
/// nothing.
pub proof fn law_attributes_kept(fs: FsView, e: usize)
    requires
        fs.wf(),
        fs.entries.contains_key(e),
    ensures
        fs.entries[e].stat.attrs & SUPPORTED_ATTRS == fs.entries[e].stat.attrs,
{
}

/// Reported attributes of supported ones are never empty, and tell directories and files apart.
pub proof fn law_output_attributes(attrs: u32, is_dir: bool)
    requires
        supported(attrs),
    ensures
        output_attrs(attrs, is_dir) != 0,
        has(output_attrs(attrs, is_dir), FILE_ATTRIBUTE_DIRECTORY) == is_dir,
{
    assert((attrs | FILE_ATTRIBUTE_DIRECTORY) != 0 && (attrs | FILE_ATTRIBUTE_DIRECTORY)
        & FILE_ATTRIBUTE_DIRECTORY != 0) by (bit_vector);
    assert(attrs & SUPPORTED_ATTRS == attrs ==> attrs & FILE_ATTRIBUTE_DIRECTORY == 0)
        by (bit_vector);
    assert(0x80u32 & FILE_ATTRIBUTE_DIRECTORY == 0) by (bit_vector);
}

/// A handle is reported with attributes, and with that of a directory just where it is on one.
pub proof fn law_reported_attributes(fs: FsView, h: usize)
    requires
        fs.wf(),
        fs.handles.contains_key(h),
    ensures
        file_info(fs, h).attributes != 0,
        has(file_info(fs, h).attributes, FILE_ATTRIBUTE_DIRECTORY) == on_dir(fs, h),
{
    lemma_handle_counts(fs, h);
    law_output_attributes(fs.entries[fs.handles[h].entry].stat.attrs, on_dir(fs, h));
}

/// A listing tells directories and files apart: whatever it tells of an entry, the attribute of a
/// directory is there just where the entry is one.
pub proof fn law_listed_attributes(fs: FsView, d: usize, key: Seq<u16>, item: FindData)
    requires
        fs.wf(),
        fs.entries.contains_key(d),
        fs.entries[d].children().contains_key(key),
        tells(item, fs, fs.entries[d].children()[key]),
    ensures
        item.attributes != 0,
        has(item.attributes, FILE_ATTRIBUTE_DIRECTORY)
            == fs.entries[fs.entries[d].children()[key].id].is_dir(),
{
    let c = fs.entries[d].children()[key].id;
    assert(fs.links(d, key, c));
    law_output_attributes(fs.entries[c].stat.attrs, fs.entries[c].is_dir());
}

/// Two handles are on the same bytes.
pub open spec fn share_bytes(fs: FsView, h: usize, other: usize) -> bool {
    &&& fs.handles[h].alt_stream == fs.handles[other].alt_stream
    &&& fs.handles[h].entry == fs.handles[other].entry
}

/// What was written is read back, through every handle on the same file or stream. What lay
/// outside of the written range is as before, and a gap behind the old end reads as zeros.
pub proof fn law_read_after_write(
    fs: FsView,
    h: usize,
    reader: usize,
    start: int,
    buffer: Seq<u8>,
    now: u64,
)
    requires
        fs.wf(),
        fs.handles.contains_key(h),
        fs.handles.contains_key(reader),
        share_bytes(fs, h, reader),
        bytes_of(fs, h) is Some,
        0 <= start,
    ensures
        ({
            let old_bytes = bytes_of(fs, h)->0;
            let after = written(fs, h, overwritten(old_bytes, start, buffer), now);
            let bytes = bytes_of(after, reader)->0;
            &&& bytes_of(after, reader) is Some
            &&& read_len(bytes, start, buffer.len() as int) == buffer.len()
            &&& bytes.subrange(start, start + buffer.len()) == buffer
            &&& forall|i: int|
                0 <= i < bytes.len() && !(start <= i < start + buffer.len()) ==> #[trigger] bytes[i]
                    == if i < old_bytes.len() {
                    old_bytes[i]
                } else {
                    0
                }
            &&& old_bytes.len() <= bytes.len()
        }),
{
    lemma_handle_counts(fs, h);
    let old_bytes = bytes_of(fs, h)->0;
    let after = written(fs, h, overwritten(old_bytes, start, buffer), now);
    let bytes = bytes_of(after, reader)->0;
    assert(bytes == overwritten(old_bytes, start, buffer));
    assert(bytes.subrange(start, start + buffer.len()) =~= buffer);
}

/// A write changes no other file and no other stream.
pub proof fn law_write_stays_inside(fs: FsView, h: usize, other: usize, bytes: Seq<u8>, now: u64)
    requires
        fs.wf(),
        fs.handles.contains_key(h),
        fs.handles.contains_key(other),
        !share_bytes(fs, h, other),
        bytes_of(fs, h) is Some,
    ensures
        bytes_of(written(fs, h, bytes, now), other) == bytes_of(fs, other),
{
    lemma_handle_counts(fs, h);
    lemma_handle_counts(fs, other);
    if fs.handles[h].alt_stream is Some && fs.handles[h].alt_stream
        == fs.handles[other].alt_stream {
        let s = fs.handles[h].alt_stream->0;
        let key1 = choose|key: Seq<u16>| #[trigger] fs.owns(fs.handles[h].entry, key, s);
        let key2 = choose|key: Seq<u16>| #[trigger] fs.owns(fs.handles[other].entry, key, s);
        assert(fs.owns(fs.handles[h].entry, key1, s));
        assert(fs.owns(fs.handles[other].entry, key2, s));
    }
}

/// After the end of a file or stream was set, that is its size, and what is left of the old bytes
/// is unchanged.
pub proof fn law_end_of_file(fs: FsView, h: usize, offset: i64, now: u64)
    requires
        fs.wf(),
        fs.handles.contains_key(h),
        bytes_of(fs, h) is Some,
        0 <= offset,
    ensures
        ({
            let old_bytes = bytes_of(fs, h)->0;
            let after = resized_through(fs, h, resized(old_bytes, offset as int), now);
            &&& file_info(after, h).file_size == offset
            &&& forall|i: int|
                0 <= i < offset ==> #[trigger] bytes_of(after, h)->0[i] == if i < old_bytes.len() {
                    old_bytes[i]
                } else {
                    0
                }
        }),
{
    lemma_handle_counts(fs, h);
}

/// Setting the allocation size never makes a file longer and never changes what stays.
pub proof fn law_allocation_size(fs: FsView, h: usize, alloc_size: i64, now: u64)
    requires
        fs.wf(),
        fs.handles.contains_key(h),
        bytes_of(fs, h) is Some,
        0 <= alloc_size,
    ensures
        ({
            let old_bytes = bytes_of(fs, h)->0;
            let after = resized_through(fs, h, capped(old_bytes, alloc_size as int), now);
            let bytes = bytes_of(after, h)->0;
            &&& bytes.len() <= old_bytes.len()
            &&& bytes.len() <= alloc_size
            &&& bytes =~= old_bytes.take(bytes.len() as int)
        }),
{
    lemma_handle_counts(fs, h);
}

/// Writing back the times that were held back never sets a time back.
pub proof fn law_times_never_go_back(stat: StatView, handle: EntryHandle)
    ensures
        times_raised(stat, handle).mtime >= stat.mtime,
        times_raised(stat, handle).atime >= stat.atime,
{
}

/// Through a handle whose updates of a time are switched off, writing and closing leave that time
/// alone.
pub proof fn law_frozen_times(fs: FsView, h: usize, bytes: Seq<u8>, now: u64)
    requires
        fs.wf(),
        fs.handles.contains_key(h),
        bytes_of(fs, h) is Some,
    ensures
        ({
            let e = fs.handles[h].entry;
            let after = written(fs, h, bytes, now);
            let stat = times_raised(after.entries[e].stat, after.handles[h]);
            &&& !fs.handles[h].mtime_enabled && fs.handles[h].mtime_delayed is None ==> stat.mtime
                == fs.entries[e].stat.mtime
            &&& !fs.handles[h].atime_enabled && fs.handles[h].atime_delayed is None ==> stat.atime
                == fs.entries[e].stat.atime
        }),
{
    lemma_handle_counts(fs, h);
}

/// Nothing is left lying about: what is not the root directory is open or in a directory that is
/// there, and every stream belongs to an entry that is there.
pub proof fn law_no_garbage(fs: FsView)
    requires
        fs.wf(),
    ensures
        forall|e: usize| #[trigger]
            fs.entries.contains_key(e) ==> e == ROOT || fs.entries[e].stat.handle_count > 0
                || exists|d: usize| #[trigger] fs.entries.contains_key(d) && fs.linked(d, e),
        forall|s: usize| #[trigger]
            fs.streams.contains_key(s) ==> exists|e: usize| #[trigger]
                fs.entries.contains_key(e) && fs.owned(e, s),
{
    assert forall|s: usize| #[trigger] fs.streams.contains_key(s) implies exists|e: usize|
     #[trigger]
        fs.entries.contains_key(e) && fs.owned(e, s) by {
        let (e, key) = choose|e: usize, key: Seq<u16>| fs.owns(e, key, s);
        assert(fs.owns(e, key, s));
        assert(fs.entries.contains_key(e));
    }
}

/// An entry is in one directory at most, under one name.
pub proof fn law_one_place(
    fs: FsView,
    d1: usize,
    key1: Seq<u16>,
    d2: usize,
    key2: Seq<u16>,
    e: usize,
)
    requires
        fs.wf(),
        fs.links(d1, key1, e),
        fs.links(d2, key2, e),
    ensures
        d1 == d2,
        key1 == key2,
{
}

/// The handles on an entry are as many as it counts.
pub proof fn law_handles_counted(fs: FsView, e: usize)
    requires
        fs.wf(),
        fs.entries.contains_key(e),
    ensures
        fs.entries[e].stat.handle_count == fs.handles.dom().filter(
            |h: usize| fs.handles[h].entry == e,
        ).len(),
{
}

/// The identifiers that `n` new entries use up one after the other.
pub open spec fn after_ids(fs: FsView, n: nat) -> FsView
    decreases n,
{
    if n == 0 {
        fs
    } else {
        after_ids(fs, (n - 1) as nat).with_id_spent()
    }
}

/// New entries get different identifiers, until all numbers are used up.
pub proof fn law_ids_differ(fs: FsView, m: nat, n: nat)
    requires
        m < n,
        n - m < 0x1_0000_0000_0000_0000,
    ensures
        after_ids(fs, m).id_counter != after_ids(fs, n).id_counter,
{
    lemma_after_ids(fs, m);
    lemma_after_ids(fs, n);
    let c = fs.id_counter as int;
    if (c + m) % 0x1_0000_0000_0000_0000 == (c + n) % 0x1_0000_0000_0000_0000 {
        vstd::arithmetic::div_mod::lemma_fundamental_div_mod(c + m, 0x1_0000_0000_0000_0000);
        vstd::arithmetic::div_mod::lemma_fundamental_div_mod(c + n, 0x1_0000_0000_0000_0000);
    }
}

proof fn lemma_after_ids(fs: FsView, n: nat)
    ensures
        after_ids(fs, n).id_counter == (fs.id_counter + n) % 0x1_0000_0000_0000_0000,
    decreases n,
{
    if n > 0 {
        lemma_after_ids(fs, (n - 1) as nat);
    }
}

/// A random identifier does not tell a time.
pub proof fn law_random_ids_tell_no_time(value: u128)
    requires
        version(value) == 4,
    ensures
        uuid_time(value) is None,
{
}

/// What was created is found under its name in any case, in the spelling that it was created
/// with; all other names in the directory lead where they led.
pub proof fn law_created_is_found(
    fs: FsView,
    path: PathInfo,
    inherited: Result<SecurityDescriptor, OperationError>,
    req: CreateRequest,
    now: u64,
    parent_now: u64,
    h: usize,
    other: Seq<u16>,
)
    requires
        fs.wf(),
        path_valid(fs, Ok(Some(path))),
        found(fs, path.parent, path.name.file_name@) is None,
        create_refusal(fs, Ok(Some(path)), inherited, req) is None,
    ensures
        ({
            let after = created(fs, Some(path), inherited->Ok_0@, req, now, parent_now, h);
            let name = path.name.file_name@;
            let e = fs.next_entry as usize;
            &&& !fs.entries.contains_key(e)
            &&& after.entries.contains_key(e)
            &&& after.entries[e].is_dir() == req.wants_dir()
            &&& after.entries[e].stat.id == fs.id_counter
            &&& after.entries[path.parent].children()[folded(name)].name == name
            &&& found(after, path.parent, other) == if folded(other) == folded(name) {
                Some(e)
            } else {
                found(fs, path.parent, other)
            }
        }),
{
}

/// Whatever a request opens or makes, the handle that it gets is on it: on a new file or stream
/// nothing can be read, nor on one that was overwritten; otherwise what was there is.
pub proof fn law_opened_bytes(
    fs: FsView,
    path: PathInfo,
    inherited: Result<SecurityDescriptor, OperationError>,
    req: CreateRequest,
    now: u64,
    parent_now: u64,
    h: usize,
)
    requires
        fs.wf(),
        path_valid(fs, Ok(Some(path))),
        create_refusal(fs, Ok(Some(path)), inherited, req) is None,
        !fs.handles.contains_key(h),
    ensures
        ({
            let after = created(fs, Some(path), inherited->Ok_0@, req, now, parent_now, h);
            let (is_dir, is_new) = created_kind(fs, Some(path), req);
            &&& after.handles.contains_key(h)
            &&& (is_new || req.overwrites()) && bytes_of(after, h) is Some ==> bytes_of(after, h)
                == Some(Seq::<u8>::empty())
            &&& !is_new && !req.overwrites() ==> {
                let e = found(fs, path.parent, path.name.file_name@)->0;
                &&& after.handles[h].entry == e
                &&& bytes_of(after, h) == match after.handles[h].alt_stream {
                    Some(s) => Some(fs.streams[s].data),
                    None => if fs.entries[e].is_dir() {
                        None
                    } else {
                        Some(fs.entries[e].data())
                    },
                }
            }
        }),
{
    if let Some(e) = found(fs, path.parent, path.name.file_name@) {
        assert(fs.links(path.parent, folded(path.name.file_name@), e));
        if main_stream(path.name.stream_info, fs.entries[e].is_dir()) == Ok::<bool, OperationError>(
            false,
        ) {
            let name = path.name.stream_info->0.name@;
            if fs.entries[e].stat.alt_streams.contains_key(folded(name)) {
                let s = fs.entries[e].stat.alt_streams[folded(name)].id;
                assert(fs.owns(e, folded(name), s));
            }
        }
    }
}

/// What is to be deleted is not opened any more.
pub proof fn law_pending_is_not_opened(
    fs: FsView,
    path: PathInfo,
    inherited: Result<SecurityDescriptor, OperationError>,
    req: CreateRequest,
    e: usize,
)
    requires
        found(fs, path.parent, path.name.file_name@) == Some(e),
        fs.entries[e].stat.delete_pending,
        req.create_disposition <= 5,
    ensures
        create_refusal(fs, Ok(Some(path)), inherited, req) == if has(
            fs.entries[e].stat.attrs,
            FILE_ATTRIBUTE_READONLY,
        ) && req.writes() {
            refuse(STATUS_ACCESS_DENIED)
        } else {
            refuse(STATUS_DELETE_PENDING)
        },
{
}

/// A read-only entry is not opened for writing.
pub proof fn law_read_only_is_not_written(
    fs: FsView,
    path: PathInfo,
    inherited: Result<SecurityDescriptor, OperationError>,
    req: CreateRequest,
    e: usize,
)
    requires
        found(fs, path.parent, path.name.file_name@) == Some(e),
        has(fs.entries[e].stat.attrs, FILE_ATTRIBUTE_READONLY),
        req.writes(),
        req.create_disposition <= 5,
    ensures
        create_refusal(fs, Ok(Some(path)), inherited, req) == refuse(STATUS_ACCESS_DENIED),
{
}

/// A request for something new does not open what is there.
pub proof fn law_create_does_not_open(
    fs: FsView,
    path: PathInfo,
    inherited: Result<SecurityDescriptor, OperationError>,
    req: CreateRequest,
)
    requires
        req.create_disposition == FILE_CREATE,
        create_refusal(fs, Ok(Some(path)), inherited, req) is None,
    ensures
        created_kind(fs, Some(path), req).1,
{
}

/// Opening something and closing it again changes nothing, unless it is to be deleted. With a
/// stream, the time of change is that of closing.
pub proof fn law_open_and_close(
    fs: FsView,
    h: usize,
    e: usize,
    alt_stream: Option<usize>,
    parent_now: u64,
    stream_now: u64,
    removal_now: u64,
)
    requires
        fs.wf(),
        !fs.handles.contains_key(h),
        fs.entries.contains_key(e),
        fs.has_handle_room(e),
        !fs.entries[e].stat.delete_pending,
        alt_stream matches Some(s) ==> fs.owned(e, s) && !fs.streams[s].delete_pending,
    ensures
        closed(fs.opened(h, e, alt_stream, false), h, parent_now, stream_now, removal_now) == (
        match alt_stream {
            Some(s) => fs.with_stat(e, StatView { mtime: stream_now, ..fs.entries[e].stat }),
            None => fs,
        }),
{
    if let Some(s) = alt_stream {
        lemma_counts_bounded(fs, e, s);
    }
    let open = fs.opened(h, e, alt_stream, false);
    let after = closed(open, h, parent_now, stream_now, removal_now);
    if e != ROOT && !fs.parent_live(e) {
        assert(fs.entries[e].stat.handle_count > 0);
    }
    assert(!lets_go(open, h));
    let expected = match alt_stream {
        Some(s) => fs.with_stat(e, StatView { mtime: stream_now, ..fs.entries[e].stat }),
        None => fs,
    };
    assert(after.entries =~= expected.entries);
    assert(after.streams =~= expected.streams);
    assert(after.handles =~= expected.handles);
}

/// When the last handle on an entry that is to be deleted is closed, the entry is gone, and its
/// name is free in its directory; no other name there is touched. (A directory that was moved below
/// itself takes the directory that holds it with it; a file takes nothing with it.)
pub proof fn law_last_close_deletes(
    fs: FsView,
    h: usize,
    parent_now: u64,
    stream_now: u64,
    removal_now: u64,
    name: Seq<u16>,
)
    requires
        fs.wf(),
        fs.handles.contains_key(h),
        can_close(fs, h),
        unlinks(fs, h),
    ensures
        ({
            let e = fs.handles[h].entry;
            let d = fs.entries[e].stat.parent->0;
            let after = closed(fs, h, parent_now, stream_now, removal_now);
            &&& !after.entries.contains_key(e)
            &&& !fs.entries[e].is_dir() ==> after.entries.contains_key(d)
            &&& after.entries.contains_key(d) ==> found(after, d, name) == if found(fs, d, name)
                == Some(e) {
                None
            } else {
                found(fs, d, name)
            }
        }),
{
    lemma_handle_counts(fs, h);
    let e = fs.handles[h].entry;
    let d = fs.entries[e].stat.parent->0;
    let less = handle_closed(fs, h, parent_now, stream_now, removal_now);
    let after = closed(fs, h, parent_now, stream_now, removal_now);
    assert(fs.linked(d, e));
    let key = choose|key: Seq<u16>| #[trigger] fs.links(d, key, e);
    assert(fs.links(d, key, e));
    let names = fs.entries[d].children();
    assert(names.contains_key(key) && names[key].id == e);
    assert(fs.links(d, key_of(names, e), e));
    assert(less.entries[d].children() == names.remove(key));
    if freed(less, e).contains(d) && !less.entries[e].is_dir() {
        let path = choose|path: Seq<usize>| #[trigger]
            goes_down(less, e, path) && path.last() == d;
        assert(path.len() > 1);
        assert(less.linked(path[0], path[1]));
    }
    assert(goes_down(less, e, seq![e]));
    assert(seq![e].last() == e);
    assert(freed(less, e).contains(e));
    if found(fs, d, name) == Some(e) {
        assert(fs.links(d, folded(name), e));
    }
}

/// Closing a handle that is not the last one on its entry deletes no entry, and a deletion that was
/// pending is no longer so.
pub proof fn law_earlier_close_keeps(
    fs: FsView,
    h: usize,
    parent_now: u64,
    stream_now: u64,
    removal_now: u64,
)
    requires
        fs.wf(),
        fs.handles.contains_key(h),
        fs.entries[fs.handles[h].entry].stat.handle_count > 1,
    ensures
        ({
            let e = fs.handles[h].entry;
            let after = closed(fs, h, parent_now, stream_now, removal_now);
            &&& after.entries.dom() =~= fs.entries.dom()
            &&& after.entries[e].content == fs.entries[e].content
            &&& !after.entries[e].stat.delete_pending
        }),
{
    lemma_handle_counts(fs, h);
}

/// When the last handle on a stream that is to be deleted is closed, the stream is gone and its
/// name is free; the other streams of the entry and its bytes are as before.
pub proof fn law_last_close_deletes_stream(
    fs: FsView,
    h: usize,
    s: usize,
    parent_now: u64,
    stream_now: u64,
    removal_now: u64,
    name: Seq<u16>,
)
    requires
        fs.wf(),
        fs.handles.contains_key(h),
        fs.handles[h].alt_stream == Some(s),
        drops_stream(fs.streams[s], fs.handles[h]),
        !lets_go(fs, h),
    ensures
        ({
            let e = fs.handles[h].entry;
            let after = closed(fs, h, parent_now, stream_now, removal_now);
            &&& !after.streams.contains_key(s)
            &&& after.entries[e].content == fs.entries[e].content
            &&& stream_found(after, e, name) == if stream_found(fs, e, name) == Some(s) {
                None
            } else {
                stream_found(fs, e, name)
            }
        }),
{
    lemma_handle_counts(fs, h);
    let e = fs.handles[h].entry;
    let names = fs.entries[e].stat.alt_streams;
    let key = choose|key: Seq<u16>| #[trigger] fs.owns(e, key, s);
    assert(fs.owns(e, key, s));
    assert(names.contains_key(key) && names[key].id == s);
    assert(fs.owns(e, key_of(names, s), s));
    if stream_found(fs, e, name) == Some(s) {
        assert(fs.owns(e, folded(name), s));
    }
}

/// A move from the path that the handle was opened by can always be done, unless it is refused.
pub proof fn law_own_name_can_be_moved(
    fs: FsView,
    h: usize,
    file_name: Seq<u16>,
    dest: Destination,
    replace: bool,
)
    requires
        fs.wf(),
        fs.handles.contains_key(h),
        dest_valid(fs, dest),
        move_refusal(fs, h, file_name, dest, replace) is None,
        own_name(fs, h, file_name, dest),
    ensures
        movable(fs, h, file_name, dest),
{
    lemma_handle_counts(fs, h);
    let e = fs.handles[h].entry;
    let src = fs.entries[e].stat.parent->0;
    if let Destination::Path(path) = dest {
        let path = path->Ok_0->0;
        let dst_name = path.name.file_name@;
        assert(fs.links(src, folded(last_part(file_name)), e));
        if let Some(t) = found(fs, path.parent, dst_name) {
            assert(fs.links(path.parent, folded(dst_name), t));
        }
    }
}

/// What was moved is found in its new place, in the new spelling, and no longer in its old one; it
/// is the same entry, with the same bytes and streams.
pub proof fn law_moved_is_found(
    fs: FsView,
    h: usize,
    file_name: Seq<u16>,
    path: PathInfo,
    replace: bool,
    now: u64,
)
    requires
        fs.wf(),
        fs.handles.contains_key(h),
        path_valid(fs, Ok(Some(path))),
        ({
            let dest = Destination::Path(Ok(Some(path)));
            &&& move_refusal(fs, h, file_name, dest, replace) is None
            &&& own_name(fs, h, file_name, dest)
        }),
    ensures
        ({
            let dest = Destination::Path(Ok(Some(path)));
            let after = moved(fs, h, file_name, dest, now);
            let e = fs.handles[h].entry;
            let src = fs.entries[e].stat.parent->0;
            let src_name = last_part(file_name);
            let dst_name = path.name.file_name@;
            &&& movable(fs, h, file_name, dest)
            &&& found(after, path.parent, dst_name) == Some(e)
            &&& after.entries[path.parent].children()[folded(dst_name)].name == dst_name
            &&& after.entries[e].stat.parent == Some(path.parent)
            &&& src != path.parent || folded(src_name) != folded(dst_name) ==> found(
                after,
                src,
                src_name,
            ) is None
            &&& after.entries[e].stat.id == fs.entries[e].stat.id
            &&& after.entries[e].stat.alt_streams == fs.entries[e].stat.alt_streams
            &&& after.entries[e].data() == fs.entries[e].data()
        }),
{
    lemma_handle_counts(fs, h);
    let e = fs.handles[h].entry;
    let src = fs.entries[e].stat.parent->0;
    let dst_name = path.name.file_name@;
    assert(fs.links(src, folded(last_part(file_name)), e));
    if let Some(t) = found(fs, path.parent, dst_name) {
        assert(fs.links(path.parent, folded(dst_name), t));
    }
}

/// Moving an entry to a free place and back under its old name gives every directory its old names
/// again, and the entry its old directory.
pub proof fn law_there_and_back(
    fs: FsView,
    handle: EntryHandle,
    src: usize,
    src_name: Seq<u16>,
    dst: usize,
    dst_name: Seq<u16>,
    now: u64,
    later: u64,
)
    requires
        fs.wf(),
        fs.links(src, folded(src_name), handle.entry),
        fs.entries[src].children()[folded(src_name)].name == src_name,
        fs.entries.contains_key(dst),
        fs.entries[dst].is_dir(),
        found(fs, dst, dst_name) is None,
    ensures
        ({
            let there = entry_moved(fs, handle, src, src_name, dst, dst_name, now);
            let back = entry_moved(there, handle, dst, dst_name, src, src_name, later);
            &&& back.entries.dom() =~= fs.entries.dom()
            &&& forall|x: usize| #[trigger]
                fs.entries.contains_key(x) ==> back.entries[x].children()
                    == fs.entries[x].children() && back.entries[x].data() == fs.entries[x].data()
            &&& back.entries[handle.entry].stat.parent == fs.entries[handle.entry].stat.parent
        }),
{
    let e = handle.entry;
    let there = entry_moved(fs, handle, src, src_name, dst, dst_name, now);
    let back = entry_moved(there, handle, dst, dst_name, src, src_name, later);
    assert(fs.entries.contains_key(src));
    assert(fs.entries[src].is_dir());
    assert(back.entries[src].children() =~= fs.entries[src].children());
    assert(back.entries[dst].children() =~= fs.entries[dst].children());
}

/// A move that takes the place of a file makes that file go.
pub proof fn law_replaced_is_gone(
    fs: FsView,
    h: usize,
    file_name: Seq<u16>,
    path: PathInfo,
    now: u64,
    t: usize,
)
    requires
        fs.wf(),
        fs.handles.contains_key(h),
        path_valid(fs, Ok(Some(path))),
        found(fs, path.parent, path.name.file_name@) == Some(t),
        t != fs.handles[h].entry,
        ({
            let dest = Destination::Path(Ok(Some(path)));
            &&& move_refusal(fs, h, file_name, dest, true) is None
            &&& own_name(fs, h, file_name, dest)
        }),
    ensures
        !moved(fs, h, file_name, Destination::Path(Ok(Some(path))), now).entries.contains_key(t),
        fs.entries[t].stat.handle_count == 0,
{
    lemma_handle_counts(fs, h);
    assert(fs.links(path.parent, folded(path.name.file_name@), t));
    let e = fs.handles[h].entry;
    let src = fs.entries[e].stat.parent->0;
    assert(fs.links(src, folded(last_part(file_name)), e));
}

/// Making the bytes of a file a stream and back again loses nothing: the bytes, the streams and a
/// pending deletion are as before, and the handle is on the file again.
pub proof fn law_stream_and_back(fs: FsView, h: usize, name: Seq<u16>, now: u64, later: u64)
    requires
        fs.wf(),
        fs.handles.contains_key(h),
        fs.handles[h].alt_stream is None,
        !fs.entries[fs.handles[h].entry].is_dir(),
        stream_found(fs, fs.handles[h].entry, name) is None,
    ensures
        ({
            let e = fs.handles[h].entry;
            let there = main_to_stream(fs, h, name, now);
            let back = stream_to_main(there, h, name, later);
            &&& bytes_of(there, h) == bytes_of(fs, h)
            &&& there.entries[e].data().len() == 0
            &&& bytes_of(back, h) == bytes_of(fs, h)
            &&& back.streams == fs.streams
            &&& back.handles == fs.handles
            &&& back.entries[e].stat.alt_streams == fs.entries[e].stat.alt_streams
            &&& back.entries[e].stat.delete_pending == fs.entries[e].stat.delete_pending
        }),
{
    lemma_handle_counts(fs, h);
    let e = fs.handles[h].entry;
    let there = main_to_stream(fs, h, name, now);
    let back = stream_to_main(there, h, name, later);
    assert(!fs.streams.contains_key(fs.next_stream as usize));
    assert(back.streams =~= fs.streams);
    assert(back.handles =~= fs.handles);
    assert(back.entries[e].stat.alt_streams =~= fs.entries[e].stat.alt_streams);
}

/// A stream that got another name is found under it, and no longer under the old one, with the
/// same bytes.
pub proof fn law_renamed_stream_is_found(
    fs: FsView,
    h: usize,
    src_name: Seq<u16>,
    dst_name: Seq<u16>,
    now: u64,
)
    requires
        fs.wf(),
        fs.handles.contains_key(h),
        fs.handles[h].alt_stream is Some,
        stream_found(fs, fs.handles[h].entry, src_name) == fs.handles[h].alt_stream,
        stream_found(fs, fs.handles[h].entry, dst_name) matches Some(t) ==> Some(t)
            == fs.handles[h].alt_stream,
    ensures
        ({
            let e = fs.handles[h].entry;
            let after = stream_to_stream(fs, h, src_name, dst_name, now);
            &&& stream_found(after, e, dst_name) == fs.handles[h].alt_stream
            &&& after.entries[e].stat.alt_streams[folded(dst_name)].name == dst_name
            &&& folded(src_name) != folded(dst_name) ==> stream_found(after, e, src_name) is None
            &&& bytes_of(after, h) == bytes_of(fs, h)
        }),
{
    lemma_handle_counts(fs, h);
    let e = fs.handles[h].entry;
    let s = fs.handles[h].alt_stream->0;
    assert(fs.owns(e, folded(src_name), s));
    if stream_found(fs, e, dst_name) is Some {
        assert(fs.owns(e, folded(dst_name), s));
    }
}

/// The root directory is always there, and is not marked to be deleted as a directory.
pub proof fn law_root_stays(fs: FsView, h: usize, delete: bool)
    requires
        fs.wf(),
        fs.handles.contains_key(h),
        fs.handles[h].entry == ROOT,
        fs.handles[h].alt_stream is None,
    ensures
        fs.entries.contains_key(ROOT),
        delete_directory_refusal(fs, h, delete) == Some(STATUS_ACCESS_DENIED),
{
}

/// Every handle can be closed, on the root directory too, but those on what was left without its
/// directory, or is its own directory.
pub proof fn law_handles_can_be_closed(fs: FsView, h: usize)
    requires
        fs.wf(),
        fs.handles.contains_key(h),
        fs.handles[h].entry != ROOT ==> fs.parent_live(fs.handles[h].entry)
            && fs.entries[fs.handles[h].entry].stat.parent != Some(fs.handles[h].entry),
    ensures
        can_close(fs, h),
{
}

/// Closing a handle on the root directory never deletes it, even where it was opened or marked for
/// deletion: the directory keeps what it holds, has one handle less, and nothing is pending.
pub proof fn law_closing_keeps_root(
    fs: FsView,
    h: usize,
    parent_now: u64,
    stream_now: u64,
    removal_now: u64,
)
    requires
        fs.wf(),
        fs.handles.contains_key(h),
        fs.handles[h].entry == ROOT,
    ensures
        ({
            let after = closed(fs, h, parent_now, stream_now, removal_now);
            let stat = fs.entries[ROOT].stat;
            &&& can_close(fs, h)
            &&& after.entries.dom() =~= fs.entries.dom()
            &&& after.entries[ROOT].content == fs.entries[ROOT].content
            &&& after.entries[ROOT].stat.handle_count == stat.handle_count - 1
            &&& !after.entries[ROOT].stat.delete_pending
            &&& fs.handles[h].alt_stream is None ==> after == fs.minus_handle(h).with_stat(
                ROOT,
                StatView {
                    handle_count: (stat.handle_count - 1) as u32,
                    delete_pending: false,
                    ..stat
                },
            )
        }),
{
    lemma_handle_counts(fs, h);
}

/// Opening and creating change no bytes but those that are overwritten.
pub proof fn law_opening_keeps_bytes(
    fs: FsView,
    path: Option<PathInfo>,
    inherited: Result<SecurityDescriptor, OperationError>,
    req: CreateRequest,
    now: u64,
    parent_now: u64,
    h: usize,
    e: usize,
)
    requires
        fs.wf(),
        path_valid(fs, Ok(path)),
        create_refusal(fs, Ok(path), inherited, req) is None,
        fs.entries.contains_key(e),
        path is Some && req.overwrites() ==> found(fs, path->0.parent, path->0.name.file_name@)
            != Some(e),
    ensures
        ({
            let after = created(fs, path, inherited->Ok_0@, req, now, parent_now, h);
            &&& after.entries.contains_key(e)
            &&& after.entries[e].is_dir() == fs.entries[e].is_dir()
            &&& after.entries[e].data() == fs.entries[e].data()
        }),
{
    assert(e < fs.next_entry);
    if let Some(path) = path {
        if let Some(x) = found(fs, path.parent, path.name.file_name@) {
            assert(fs.links(path.parent, folded(path.name.file_name@), x));
        }
    }
}

/// Closing changes no bytes of what stays.
pub proof fn law_closing_keeps_bytes(
    fs: FsView,
    h: usize,
    parent_now: u64,
    stream_now: u64,
    removal_now: u64,
)
    requires
        fs.wf(),
        fs.handles.contains_key(h),
        can_close(fs, h),
    ensures
        ({
            let after = closed(fs, h, parent_now, stream_now, removal_now);
            &&& forall|e: usize| #[trigger]
                after.entries.contains_key(e) ==> fs.entries.contains_key(e)
                    && after.entries[e].data() == fs.entries[e].data()
            &&& forall|s: usize| #[trigger]
                after.streams.contains_key(s) ==> fs.streams.contains_key(s)
                    && after.streams[s].data == fs.streams[s].data
        }),
{
    lemma_handle_counts(fs, h);
    let e = fs.handles[h].entry;
    if unlinks(fs, h) {
        let d = fs.entries[e].stat.parent->0;
        assert(fs.linked(d, e));
        let key = choose|key: Seq<u16>| #[trigger] fs.links(d, key, e);
        assert(fs.links(d, key, e));
        assert(fs.entries[d].is_dir());
    }
}

/// Moving an entry changes no bytes of what stays.
pub proof fn law_moving_keeps_bytes(
    fs: FsView,
    h: usize,
    file_name: Seq<u16>,
    path: PathInfo,
    replace: bool,
    now: u64,
)
    requires
        fs.wf(),
        fs.handles.contains_key(h),
        path_valid(fs, Ok(Some(path))),
        ({
            let dest = Destination::Path(Ok(Some(path)));
            &&& move_refusal(fs, h, file_name, dest, replace) is None
            &&& movable(fs, h, file_name, dest)
        }),
    ensures
        ({
            let after = moved(fs, h, file_name, Destination::Path(Ok(Some(path))), now);
            &&& forall|e: usize| #[trigger]
                after.entries.contains_key(e) ==> fs.entries.contains_key(e)
                    && after.entries[e].data() == fs.entries[e].data()
            &&& forall|s: usize| #[trigger]
                after.streams.contains_key(s) ==> fs.streams.contains_key(s)
                    && after.streams[s] == fs.streams[s]
        }),
{
    lemma_handle_counts(fs, h);
    let e = fs.handles[h].entry;
    let src = fs.entries[e].stat.parent->0;
    assert(fs.linked(src, e));
    let key = choose|key: Seq<u16>| #[trigger] fs.links(src, key, e);
    assert(fs.links(src, key, e));
    assert(fs.entries[src].is_dir());
    if let Some(t) = found(fs, path.parent, path.name.file_name@) {
        assert(fs.links(path.parent, folded(path.name.file_name@), t));
    }
}

} // verus!
