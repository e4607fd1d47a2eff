//! What calls of the operations do, told by what they find, give back and leave.
use vstd::prelude::*;

use crate::attributes::{
    FILE_ATTRIBUTE_ARCHIVE, FILE_ATTRIBUTE_DIRECTORY, FILE_ATTRIBUTE_HIDDEN, FILE_ATTRIBUTE_NORMAL,
    FILE_ATTRIBUTE_NOT_CONTENT_INDEXED, FILE_ATTRIBUTE_OFFLINE, FILE_ATTRIBUTE_READONLY,
    FILE_ATTRIBUTE_SYSTEM, FILE_ATTRIBUTE_TEMPORARY, SUPPORTED_ATTRS,
};
use crate::change::FileTimeInfo;
use crate::entry::{Names, SecurityDescriptor, StatView, StreamView};
use crate::handle::EntryHandle;
use crate::info::{enumerates, tells, tells_stream, FileInfo, FindData, FindStreamData};
use crate::keep::lemma_handle_counts;
use crate::memfs::MemFsHandler;
use crate::model::FsView;
use crate::name::{folded, Link};
use crate::status::{
    OperationError, STATUS_ACCESS_DENIED, STATUS_CANNOT_DELETE, STATUS_DIRECTORY_NOT_EMPTY,
    STATUS_INVALID_DEVICE_REQUEST,
};
use crate::wide::utf16;

verus! {

/// The entries of `a` are those of `b`, but for what entry `e` holds.
pub open spec fn entries_but(a: FsView, b: FsView, e: usize) -> bool {
    &&& b.entries.dom() =~= a.entries.dom()
    &&& forall|x: usize| x != e && a.entries.contains_key(x) ==> #[trigger] b.entries[x]
        == a.entries[x]
}

/// The streams of `a` are those of `b`, but for what stream `s` holds.
pub open spec fn streams_but(a: FsView, b: FsView, s: usize) -> bool {
    &&& b.streams.dom() =~= a.streams.dom()
    &&& forall|x: usize| x != s && a.streams.contains_key(x) ==> #[trigger] b.streams[x]
        == a.streams[x]
}

/// The handles of `a` are those of `b`, but for what handle `h` notes.
pub open spec fn handles_but(a: FsView, b: FsView, h: usize) -> bool {
    &&& b.handles.dom() =~= a.handles.dom()
    &&& forall|x: usize| x != h && a.handles.contains_key(x) ==> #[trigger] b.handles[x]
        == a.handles[x]
}

/// Nothing new was numbered.
pub open spec fn same_numbers(a: FsView, b: FsView) -> bool {
    &&& b.id_counter == a.id_counter
    &&& b.next_entry == a.next_entry
    &&& b.next_stream == a.next_stream
}

/// Between `a` and `b`, only the stat of entry `e` changed.
pub open spec fn only_stat(a: FsView, b: FsView, e: usize) -> bool {
    &&& entries_but(a, b, e)
    &&& b.entries[e].content == a.entries[e].content
    &&& b.streams == a.streams
    &&& b.handles == a.handles
    &&& same_numbers(a, b)
}

/// Handle `h` is on bytes: those of a stream, or of a file.
pub open spec fn on_bytes(fs: FsView, h: usize) -> bool {
    fs.handles[h].alt_stream is Some || fs.entries[fs.handles[h].entry].content is File
}

/// The bytes that handle `h` is on.
pub open spec fn under(fs: FsView, h: usize) -> Seq<u8> {
    if fs.handles[h].alt_stream is Some {
        fs.streams[fs.handles[h].alt_stream->0].data
    } else {
        fs.entries[fs.handles[h].entry].content->data
    }
}

/// Between `a` and `b`, of the streams and the contents of entries only the bytes that handle `h`
/// is on changed.
pub open spec fn only_bytes(a: FsView, b: FsView, h: usize) -> bool {
    let e = a.handles[h].entry;
    &&& entries_but(a, b, e)
    &&& same_numbers(a, b)
    &&& b.handles[h].entry == e
    &&& b.handles[h].alt_stream == a.handles[h].alt_stream
    &&& match a.handles[h].alt_stream {
        Some(s) => {
            &&& b.entries[e].content == a.entries[e].content
            &&& streams_but(a, b, s)
            &&& b.streams[s].handle_count == a.streams[s].handle_count
            &&& b.streams[s].delete_pending == a.streams[s].delete_pending
        },
        None => b.streams == a.streams && b.entries[e].content is File,
    }
}

/// A write lands where it was asked for. Without `write_to_eof` the bytes from exactly `offset` on
/// are the buffer; with it, those behind the old end are. What lay elsewhere is as before, a gap
/// reads as zeros, and the bytes are no longer than that needs.
pub proof fn law_write_lands(
    fs: &mut MemFsHandler,
    h: usize,
    offset: i64,
    buffer: &[u8],
    write_to_eof: bool,
    now: u64,
    r: Result<u32, OperationError>,
)
    requires
        old(fs)@.wf(),
        old(fs)@.handles.contains_key(h),
        on_bytes(old(fs)@, h),
        write_to_eof || offset >= 0,
        call_ensures(
            MemFsHandler::write_file,
            (fs, h, offset, buffer, write_to_eof, now),
            r,
        ),
    ensures
        ({
            let a = under(old(fs)@, h);
            let b = under(final(fs)@, h);
            let start = if write_to_eof {
                a.len() as int
            } else {
                offset as int
            };
            let end = start + buffer@.len();
            &&& r is Ok
            &&& b.len() == if end > a.len() {
                end
            } else {
                a.len() as int
            }
            &&& forall|i: int| start <= i < end ==> #[trigger] b[i] == buffer@[i - start]
            &&& forall|i: int| 0 <= i < a.len() && !(start <= i < end) ==> #[trigger] b[i] == a[i]
            &&& forall|i: int| a.len() <= i < start ==> #[trigger] b[i] == 0
        }),
        only_bytes(old(fs)@, final(fs)@, h),
{
    lemma_handle_counts(old(fs)@, h);
}

/// A write gives back how much was written, in 32 bits, marks the entry as changed since it was
/// last archived, and notes the time with the handle, where its updates are on. The times of the
/// entry stay as they are until the handle is closed.
pub proof fn law_write_is_noted(
    fs: &mut MemFsHandler,
    h: usize,
    offset: i64,
    buffer: &[u8],
    write_to_eof: bool,
    now: u64,
    r: Result<u32, OperationError>,
)
    requires
        old(fs)@.wf(),
        old(fs)@.handles.contains_key(h),
        on_bytes(old(fs)@, h),
        call_ensures(
            MemFsHandler::write_file,
            (fs, h, offset, buffer, write_to_eof, now),
            r,
        ),
    ensures
        ({
            let a = old(fs)@;
            let b = final(fs)@;
            let e = a.handles[h].entry;
            let handle = a.handles[h];
            &&& r is Ok
            &&& r->Ok_0 == buffer@.len() % 0x1_0000_0000
            &&& b.entries[e].stat == StatView {
                attrs: a.entries[e].stat.attrs | FILE_ATTRIBUTE_ARCHIVE,
                ..a.entries[e].stat
            }
            &&& handles_but(a, b, h)
            &&& b.handles[h] == EntryHandle {
                mtime_delayed: if handle.mtime_enabled {
                    Some(now)
                } else {
                    handle.mtime_delayed
                },
                atime_delayed: if handle.atime_enabled {
                    Some(now)
                } else {
                    handle.atime_delayed
                },
                ..handle
            }
        }),
{
    lemma_handle_counts(old(fs)@, h);
}

/// A directory has no bytes to write, to read, or to cut: each is refused, and nothing changes.
pub proof fn law_directories_have_no_bytes(
    writer: &mut MemFsHandler,
    cutter: &mut MemFsHandler,
    keeper: &mut MemFsHandler,
    reader: &MemFsHandler,
    h: usize,
    offset: i64,
    buffer: &[u8],
    into: &mut [u8],
    write_to_eof: bool,
    now: u64,
    w: Result<u32, OperationError>,
    c: Result<(), OperationError>,
    k: Result<(), OperationError>,
    r: Result<u32, OperationError>,
)
    requires
        reader@.wf(),
        reader@.handles.contains_key(h),
        !on_bytes(reader@, h),
        old(writer)@ == reader@,
        old(cutter)@ == reader@,
        old(keeper)@ == reader@,
        call_ensures(
            MemFsHandler::write_file,
            (writer, h, offset, buffer, write_to_eof, now),
            w,
        ),
        call_ensures(MemFsHandler::set_end_of_file, (cutter, h, offset, now), c),
        call_ensures(MemFsHandler::set_allocation_size, (keeper, h, offset, now), k),
        call_ensures(MemFsHandler::read_file, (reader, h, offset, into), r),
    ensures
        w == Err::<u32, OperationError>(OperationError::NtStatus(STATUS_ACCESS_DENIED)),
        final(writer)@ == reader@,
        c == Err::<(), OperationError>(OperationError::NtStatus(STATUS_INVALID_DEVICE_REQUEST)),
        final(cutter)@ == reader@,
        k == Err::<(), OperationError>(OperationError::NtStatus(STATUS_INVALID_DEVICE_REQUEST)),
        final(keeper)@ == reader@,
        r == Err::<u32, OperationError>(OperationError::NtStatus(STATUS_INVALID_DEVICE_REQUEST)),
        final(into)@ == old(into)@,
{
    lemma_handle_counts(reader@, h);
}

/// A read gives the bytes from exactly `offset` on, as many as there are and as fit, and leaves the
/// rest of the buffer alone.
pub proof fn law_read_takes(
    fs: &MemFsHandler,
    h: usize,
    offset: i64,
    buffer: &mut [u8],
    r: Result<u32, OperationError>,
)
    requires
        fs@.wf(),
        fs@.handles.contains_key(h),
        on_bytes(fs@, h),
        0 <= offset <= under(fs@, h).len(),
        call_ensures(MemFsHandler::read_file, (fs, h, offset, buffer), r),
    ensures
        ({
            let bytes = under(fs@, h);
            let rest = bytes.len() - offset;
            let n = if rest < old(buffer)@.len() {
                rest
            } else {
                old(buffer)@.len() as int
            };
            &&& r is Ok
            &&& r->Ok_0 == n % 0x1_0000_0000
            &&& final(buffer)@.len() == old(buffer)@.len()
            &&& forall|i: int| 0 <= i < n ==> #[trigger] final(buffer)@[i] == bytes[offset + i]
            &&& forall|i: int|
                n <= i < old(buffer)@.len() ==> #[trigger] final(buffer)@[i] == old(buffer)@[i]
        }),
{
    lemma_handle_counts(fs@, h);
}

/// What one handle writes, every handle on the same bytes reads at the same offset.
pub proof fn law_write_then_read(
    fs: &mut MemFsHandler,
    h: usize,
    offset: i64,
    buffer: &[u8],
    now: u64,
    w: Result<u32, OperationError>,
    after: &MemFsHandler,
    other: usize,
    into: &mut [u8],
    r: Result<u32, OperationError>,
)
    requires
        old(fs)@.wf(),
        old(fs)@.handles.contains_key(h),
        old(fs)@.handles.contains_key(other),
        old(fs)@.handles[other].entry == old(fs)@.handles[h].entry,
        old(fs)@.handles[other].alt_stream == old(fs)@.handles[h].alt_stream,
        on_bytes(old(fs)@, h),
        offset >= 0,
        call_ensures(MemFsHandler::write_file, (fs, h, offset, buffer, false, now), w),
        after@ == final(fs)@,
        old(into)@.len() == buffer@.len(),
        call_ensures(MemFsHandler::read_file, (after, other, offset, into), r),
    ensures
        final(into)@ == buffer@,
        r == w,
{
    lemma_handle_counts(old(fs)@, h);
    law_write_lands(fs, h, offset, buffer, false, now, w);
    law_read_takes(after, other, offset, into, r);
    assert(final(into)@ =~= buffer@);
}

/// After the end was set the bytes are that long: what was there stays, and the rest is zeros. The
/// times of the entry are set, each where its updates are on.
pub proof fn law_end_is_set(
    fs: &mut MemFsHandler,
    h: usize,
    offset: i64,
    now: u64,
    r: Result<(), OperationError>,
)
    requires
        old(fs)@.wf(),
        old(fs)@.handles.contains_key(h),
        on_bytes(old(fs)@, h),
        offset >= 0,
        call_ensures(MemFsHandler::set_end_of_file, (fs, h, offset, now), r),
    ensures
        ({
            let a = under(old(fs)@, h);
            let b = under(final(fs)@, h);
            &&& r == Ok::<(), OperationError>(())
            &&& b.len() == offset
            &&& forall|i: int|
                0 <= i < offset ==> #[trigger] b[i] == if i < a.len() {
                    a[i]
                } else {
                    0
                }
        }),
        only_bytes(old(fs)@, final(fs)@, h),
        final(fs)@.handles == old(fs)@.handles,
        times_noted(old(fs)@, final(fs)@, h, now),
{
    lemma_handle_counts(old(fs)@, h);
}

/// The entry under handle `h` was changed at `now`, as far as its times are updated through `h`;
/// the rest of its stat is as before.
pub open spec fn times_noted(a: FsView, b: FsView, h: usize, now: u64) -> bool {
    let e = a.handles[h].entry;
    b.entries[e].stat == (StatView {
        mtime: if a.handles[h].mtime_enabled {
            now
        } else {
            a.entries[e].stat.mtime
        },
        atime: if a.handles[h].atime_enabled {
            now
        } else {
            a.entries[e].stat.atime
        },
        ..a.entries[e].stat
    })
}

/// Setting the allocation size cuts off what lies behind it and changes no other byte.
pub proof fn law_allocation_is_set(
    fs: &mut MemFsHandler,
    h: usize,
    alloc_size: i64,
    now: u64,
    r: Result<(), OperationError>,
)
    requires
        old(fs)@.wf(),
        old(fs)@.handles.contains_key(h),
        on_bytes(old(fs)@, h),
        alloc_size >= 0,
        call_ensures(MemFsHandler::set_allocation_size, (fs, h, alloc_size, now), r),
    ensures
        ({
            let a = under(old(fs)@, h);
            let b = under(final(fs)@, h);
            &&& r == Ok::<(), OperationError>(())
            &&& b.len() == if alloc_size < a.len() {
                alloc_size as int
            } else {
                a.len() as int
            }
            &&& forall|i: int| 0 <= i < b.len() ==> #[trigger] b[i] == a[i]
        }),
        only_bytes(old(fs)@, final(fs)@, h),
        final(fs)@.handles == old(fs)@.handles,
        times_noted(old(fs)@, final(fs)@, h, now),
{
    lemma_handle_counts(old(fs)@, h);
}

/// What is told through a handle is what the entry has, field by field: its own attributes and, on
/// a directory itself, that of a directory; its times; the length of the bytes that the handle is
/// on; its identifier. Without any attribute it is told as normal.
pub proof fn law_information(fs: &MemFsHandler, h: usize, r: Result<FileInfo, OperationError>)
    requires
        fs@.wf(),
        fs@.handles.contains_key(h),
        call_ensures(MemFsHandler::get_file_information, (fs, h), r),
    ensures
        ({
            let stat = fs@.entries[fs@.handles[h].entry].stat;
            let info = r->Ok_0;
            &&& r is Ok
            &&& info.creation_time == stat.ctime
            &&& info.last_access_time == stat.atime
            &&& info.last_write_time == stat.mtime
            &&& info.file_index == stat.id
            &&& info.number_of_links == 1
            &&& on_bytes(fs@, h) ==> {
                &&& info.file_size == under(fs@, h).len() as u64
                &&& info.attributes == if stat.attrs == 0 {
                    FILE_ATTRIBUTE_NORMAL
                } else {
                    stat.attrs
                }
            }
            &&& !on_bytes(fs@, h) ==> {
                &&& info.file_size == 0
                &&& info.attributes == stat.attrs | FILE_ATTRIBUTE_DIRECTORY
            }
        }),
{
    lemma_handle_counts(fs@, h);
    let attrs = fs@.entries[fs@.handles[h].entry].stat.attrs;
    assert(attrs | FILE_ATTRIBUTE_DIRECTORY != 0) by (bit_vector);
}

/// A listing of a directory agrees with its entries: what it tells under a name is, field by field,
/// what is told through a handle on the entry that the directory holds under that name.
pub proof fn law_listing_agrees(
    fs: &MemFsHandler,
    h: usize,
    items: Result<Vec<FindData>, OperationError>,
    i: int,
    g: usize,
    info: Result<FileInfo, OperationError>,
)
    requires
        fs@.wf(),
        fs@.handles.contains_key(h),
        fs@.handles.contains_key(g),
        call_ensures(MemFsHandler::find_files, (fs, h), items),
        call_ensures(MemFsHandler::get_file_information, (fs, g), info),
        items is Ok,
        0 <= i < items->Ok_0@.len(),
        ({
            let children = fs@.entries[fs@.handles[h].entry].children();
            children[folded(items->Ok_0@[i].file_name@)].id == fs@.handles[g].entry
        }),
        fs@.handles[g].alt_stream is None,
    ensures
        ({
            let item = items->Ok_0@[i];
            &&& info is Ok
            &&& item.attributes == info->Ok_0.attributes
            &&& item.creation_time == info->Ok_0.creation_time
            &&& item.last_access_time == info->Ok_0.last_access_time
            &&& item.last_write_time == info->Ok_0.last_write_time
            &&& item.file_size == info->Ok_0.file_size
        }),
{
    lemma_handle_counts(fs@, h);
    lemma_handle_counts(fs@, g);
    let d = fs@.handles[h].entry;
    let names = fs@.entries[d].children();
    law_listing_is_complete(fs, h, items);
    assert(names.contains_key(folded(items->Ok_0@[i].file_name@)));
}

/// A directory itself, and nothing else, can be listed. The listing holds the names in it, each
/// once and as they are spelled, and tells of each what the entry has.
pub proof fn law_listing_is_complete(
    fs: &MemFsHandler,
    h: usize,
    r: Result<Vec<FindData>, OperationError>,
)
    requires
        fs@.wf(),
        fs@.handles.contains_key(h),
        call_ensures(MemFsHandler::find_files, (fs, h), r),
    ensures
        on_bytes(fs@, h) ==> r == Err::<Vec<FindData>, OperationError>(
            OperationError::NtStatus(STATUS_INVALID_DEVICE_REQUEST),
        ),
        !on_bytes(fs@, h) ==> {
            let names = fs@.entries[fs@.handles[h].entry].children();
            let items = r->Ok_0@;
            &&& r is Ok
            &&& forall|i: int|
                0 <= i < items.len() ==> {
                    let item = #[trigger] items[i];
                    let key = folded(item.file_name@);
                    let entry = fs@.entries[names[key].id];
                    &&& names.contains_key(key)
                    &&& names[key].name == item.file_name@
                    &&& item.creation_time == entry.stat.ctime
                    &&& item.last_access_time == entry.stat.atime
                    &&& item.last_write_time == entry.stat.mtime
                    &&& entry.content is File ==> {
                        &&& item.file_size == entry.content->data.len() as u64
                        &&& item.attributes == if entry.stat.attrs == 0 {
                            FILE_ATTRIBUTE_NORMAL
                        } else {
                            entry.stat.attrs
                        }
                    }
                    &&& entry.content is Directory ==> {
                        &&& item.file_size == 0
                        &&& item.attributes == entry.stat.attrs | FILE_ATTRIBUTE_DIRECTORY
                    }
                }
            &&& forall|i: int, j: int|
                0 <= i < items.len() && 0 <= j < items.len() && i != j ==> folded(
                    #[trigger] items[i].file_name@,
                ) != folded(#[trigger] items[j].file_name@)
            &&& forall|key: Seq<u16>| #[trigger]
                names.contains_key(key) ==> exists|i: int|
                    0 <= i < items.len() && #[trigger] items[i].file_name@ == names[key].name
        },
{
    lemma_handle_counts(fs@, h);
    let d = fs@.handles[h].entry;
    if !on_bytes(fs@, h) {
        let names = fs@.entries[d].children();
        let items = r->Ok_0@;
        let keys = choose|keys: Seq<Seq<u16>>| #[trigger]
            enumerates(keys, names) && items.len() == keys.len() && forall|i: int|
                0 <= i < items.len() ==> tells(
                    #[trigger] items[i],
                    fs@,
                    names[keys[i]],
                );
        assert forall|i: int| 0 <= i < items.len() implies {
            &&& folded((#[trigger] items[i]).file_name@) == keys[i]
            &&& names.contains_key(keys[i])
        } by {
            assert(names.contains_key(keys[i]));
            assert(fs@.links(d, keys[i], names[keys[i]].id));
        }
        assert forall|i: int| 0 <= i < items.len() implies {
            let attrs = fs@.entries[names[keys[i]].id].stat.attrs;
            attrs | FILE_ATTRIBUTE_DIRECTORY != 0 && (#[trigger] items[i]).file_name@
                == names[keys[i]].name
        } by {
            let attrs = fs@.entries[names[keys[i]].id].stat.attrs;
            assert(attrs | FILE_ATTRIBUTE_DIRECTORY != 0) by (bit_vector);
        }
        assert forall|key: Seq<u16>| #[trigger] names.contains_key(key) implies exists|i: int|
            0 <= i < items.len() && #[trigger] items[i].file_name@ == names[key].name by {
            assert(keys.contains(key));
            let i = choose|i: int| 0 <= i < keys.len() && keys[i] == key;
            assert(items[i].file_name@ == names[key].name);
        }
    }
}

/// The units of `::$DATA`.
pub open spec fn main_title() -> Seq<u16> {
    seq![0x3a, 0x3a, 0x24, 0x44, 0x41, 0x54, 0x41]
}

/// `item` is the line of a stream called `name` with `len` bytes.
pub open spec fn stream_line(item: FindStreamData, name: Seq<u16>, len: nat) -> bool {
    &&& item.name@ == seq![0x3au16] + name + main_title().skip(1)
    &&& item.size == len as i64
}

/// `item` is the line of a stream in `names`.
pub open spec fn line_of_some(item: FindStreamData, fs: FsView, names: Names) -> bool {
    exists|key: Seq<u16>|
        names.contains_key(key) && #[trigger] stream_line(
            item,
            names[key].name,
            fs.streams[names[key].id].data.len(),
        )
}

/// The streams of an entry are listed: of a file the main one first, as `::$DATA` and with the
/// length of the file, then every other one once, as `:name:$DATA` and with its own length.
pub proof fn law_streams_are_listed(
    fs: &MemFsHandler,
    h: usize,
    r: Result<Vec<FindStreamData>, OperationError>,
)
    requires
        fs@.wf(),
        fs@.handles.contains_key(h),
        call_ensures(MemFsHandler::find_streams, (fs, h), r),
    ensures
        r is Ok,
        ({
            let entry = fs@.entries[fs@.handles[h].entry];
            let names = entry.stat.alt_streams;
            let items = r->Ok_0@;
            let first = if entry.content is File {
                1int
            } else {
                0
            };
            &&& entry.content is File ==> {
                &&& items.len() > 0
                &&& items[0].size == entry.content->data.len() as i64
                &&& items[0].name@ == main_title()
            }
            &&& forall|i: int|
                first <= i < items.len() ==> line_of_some(#[trigger] items[i], fs@, names)
            &&& forall|key: Seq<u16>| #[trigger]
                names.contains_key(key) ==> exists|i: int|
                    first <= i < items.len() && #[trigger] stream_line(
                        items[i],
                        names[key].name,
                        fs@.streams[names[key].id].data.len(),
                    )
        }),
{
    lemma_handle_counts(fs@, h);
    lemma_titles();
    let keys = lemma_stream_keys(fs, h, r);
    let names = fs@.entries[fs@.handles[h].entry].stat.alt_streams;
    let items = r->Ok_0@;
    let first = items.len() - keys.len();
    assert forall|i: int| first <= i < items.len() implies line_of_some(
        #[trigger] items[i],
        fs@,
        names,
    ) by {
        let key = keys[i - first];
        assert(stream_line(
            items[i - first + first],
            names[key].name,
            fs@.streams[names[key].id].data.len(),
        ));
    }
    assert forall|key: Seq<u16>| #[trigger] names.contains_key(key) implies exists|i: int|
        first <= i < items.len() && #[trigger] stream_line(
            items[i],
            names[key].name,
            fs@.streams[names[key].id].data.len(),
        ) by {
        let j = choose|j: int| 0 <= j < keys.len() && keys[j] == key;
        assert(stream_line(
            items[j + first],
            names[keys[j]].name,
            fs@.streams[names[keys[j]].id].data.len(),
        ));
    }
}

/// No stream is listed twice.
pub proof fn law_stream_lines_differ(
    fs: &MemFsHandler,
    h: usize,
    r: Result<Vec<FindStreamData>, OperationError>,
    i: int,
    j: int,
)
    requires
        fs@.wf(),
        fs@.handles.contains_key(h),
        call_ensures(MemFsHandler::find_streams, (fs, h), r),
        0 <= i < j < r->Ok_0@.len(),
        i == 0 ==> fs@.entries[fs@.handles[h].entry].content is Directory,
    ensures
        r->Ok_0@[i].name@ != r->Ok_0@[j].name@,
{
    lemma_handle_counts(fs@, h);
    let keys = lemma_stream_keys(fs, h, r);
    let e = fs@.handles[h].entry;
    let names = fs@.entries[e].stat.alt_streams;
    let items = r->Ok_0@;
    let first = items.len() - keys.len();
    let (k, l) = (keys[i - first], keys[j - first]);
    assert(stream_line(
        items[i - first + first],
        names[k].name,
        fs@.streams[names[k].id].data.len(),
    ));
    assert(stream_line(
        items[j - first + first],
        names[l].name,
        fs@.streams[names[l].id].data.len(),
    ));
    assert(fs@.owns(e, k, names[k].id));
    assert(fs@.owns(e, l, names[l].id));
    if items[i].name@ == items[j].name@ {
        let n = items[i].name@.len();
        assert(names[k].name =~= items[i].name@.subrange(1, n - 6));
        assert(names[l].name =~= items[j].name@.subrange(1, n - 6));
    }
}

/// The names behind the lines of a listing of streams, in the order of the lines.
proof fn lemma_stream_keys(
    fs: &MemFsHandler,
    h: usize,
    r: Result<Vec<FindStreamData>, OperationError>,
) -> (keys: Seq<Seq<u16>>)
    requires
        fs@.wf(),
        fs@.handles.contains_key(h),
        call_ensures(MemFsHandler::find_streams, (fs, h), r),
    ensures
        ({
            let entry = fs@.entries[fs@.handles[h].entry];
            let names = entry.stat.alt_streams;
            let items = r->Ok_0@;
            &&& r is Ok
            &&& enumerates(keys, names)
            &&& items.len() - keys.len() == if entry.content is File {
                1int
            } else {
                0
            }
            &&& forall|j: int|
                0 <= j < keys.len() ==> names.contains_key(#[trigger] keys[j]) && stream_line(
                    items[j + (items.len() - keys.len())],
                    names[keys[j]].name,
                    fs@.streams[names[keys[j]].id].data.len(),
                )
        }),
{
    lemma_titles();
    let entry = fs@.entries[fs@.handles[h].entry];
    let names = entry.stat.alt_streams;
    let items = r->Ok_0@;
    let rest = if entry.content is File {
        items.skip(1)
    } else {
        items
    };
    let keys = choose|keys: Seq<Seq<u16>>| #[trigger]
        enumerates(keys, names) && rest.len() == keys.len() && forall|i: int|
            0 <= i < rest.len() ==> tells_stream(#[trigger] rest[i], fs@, names[keys[i]]);
    assert forall|j: int| 0 <= j < keys.len() implies names.contains_key(#[trigger] keys[j])
        && stream_line(
        items[j + (items.len() - keys.len())],
        names[keys[j]].name,
        fs@.streams[names[keys[j]].id].data.len(),
    ) by {
        assert(tells_stream(rest[j], fs@, names[keys[j]]));
    }
    keys
}

proof fn lemma_titles()
    ensures
        utf16("::$DATA"@) == main_title(),
        utf16(":$DATA"@) == main_title().skip(1),
{
    reveal_strlit("::$DATA");
    reveal_strlit(":$DATA");
    reveal_with_fuel(utf16, 8);
    assert("::$DATA"@.drop_last().drop_last().drop_last().drop_last().drop_last().drop_last().drop_last()
        =~= Seq::empty());
    assert(utf16("::$DATA"@) =~= main_title());
    assert(utf16(":$DATA"@) =~= main_title().skip(1));
}

/// Closing writes the times back that were held back: each becomes the later one of the two.
/// Nothing else changes.
pub proof fn law_close_writes_times(fs: &mut MemFsHandler, h: usize)
    requires
        old(fs)@.wf(),
        old(fs)@.handles.contains_key(h),
        call_ensures(MemFsHandler::close_file, (fs, h), ()),
    ensures
        ({
            let a = old(fs)@;
            let b = final(fs)@;
            let e = a.handles[h].entry;
            let (x, y) = (a.entries[e].stat, b.entries[e].stat);
            &&& only_stat(a, b, e)
            &&& y == StatView { mtime: y.mtime, atime: y.atime, ..x }
            &&& y.mtime >= x.mtime
            &&& y.atime >= x.atime
            &&& a.handles[h].mtime_delayed matches Some(t) ==> y.mtime >= t && (y.mtime == t
                || y.mtime == x.mtime)
            &&& a.handles[h].mtime_delayed is None ==> y.mtime == x.mtime
            &&& a.handles[h].atime_delayed matches Some(t) ==> y.atime >= t && (y.atime == t
                || y.atime == x.atime)
            &&& a.handles[h].atime_delayed is None ==> y.atime == x.atime
        }),
{
    lemma_handle_counts(old(fs)@, h);
}

/// Setting attributes keeps exactly the supported ones of what was asked for, and none of the old
/// ones; the access time is set where its updates are on. Nothing else changes.
pub proof fn law_attributes_are_set(
    fs: &mut MemFsHandler,
    h: usize,
    attributes: u32,
    now: u64,
    r: Result<(), OperationError>,
)
    requires
        old(fs)@.wf(),
        old(fs)@.handles.contains_key(h),
        call_ensures(MemFsHandler::set_file_attributes, (fs, h, attributes, now), r),
    ensures
        r == Ok::<(), OperationError>(()),
        ({
            let a = old(fs)@;
            let b = final(fs)@;
            let e = a.handles[h].entry;
            &&& only_stat(a, b, e)
            &&& b.entries[e].stat == StatView {
                attrs: attributes & 0x3127,
                atime: if a.handles[h].atime_enabled {
                    now
                } else {
                    a.entries[e].stat.atime
                },
                ..a.entries[e].stat
            }
        }),
{
    lemma_handle_counts(old(fs)@, h);
    law_windows_values();
}

/// The values that Windows gives to what is passed in and out.
pub proof fn law_windows_values()
    ensures
        FILE_ATTRIBUTE_READONLY == 0x1,
        FILE_ATTRIBUTE_HIDDEN == 0x2,
        FILE_ATTRIBUTE_SYSTEM == 0x4,
        FILE_ATTRIBUTE_DIRECTORY == 0x10,
        FILE_ATTRIBUTE_ARCHIVE == 0x20,
        FILE_ATTRIBUTE_NORMAL == 0x80,
        FILE_ATTRIBUTE_TEMPORARY == 0x100,
        FILE_ATTRIBUTE_OFFLINE == 0x1000,
        FILE_ATTRIBUTE_NOT_CONTENT_INDEXED == 0x2000,
        SUPPORTED_ATTRS == 0x3127,
{
    assert(0x20u32 | 0x2 | 0x2000 | 0x1000 | 0x1 | 0x4 | 0x100 == 0x3127) by (bit_vector);
}

/// What was asked for one time of an entry: `old_time` and `enabled` became `new_time` and
/// `still_enabled`.
pub open spec fn time_done(
    info: FileTimeInfo,
    old_time: u64,
    enabled: bool,
    new_time: u64,
    still_enabled: bool,
) -> bool {
    &&& enabled ==> (info matches FileTimeInfo::SetTime(t) ==> new_time == t)
    &&& !(info is SetTime && enabled) ==> new_time == old_time
    &&& info is DisableUpdate ==> !still_enabled
    &&& info is ResumeUpdate ==> still_enabled
    &&& info is SetTime || info is DontChange ==> still_enabled == enabled
}

/// Each time of an entry is set, or its updates through the handle switched, as asked for that
/// time. Nothing else changes.
pub proof fn law_times_are_set(
    fs: &mut MemFsHandler,
    h: usize,
    creation: FileTimeInfo,
    access: FileTimeInfo,
    write: FileTimeInfo,
    r: Result<(), OperationError>,
)
    requires
        old(fs)@.wf(),
        old(fs)@.handles.contains_key(h),
        call_ensures(MemFsHandler::set_file_time, (fs, h, creation, access, write), r),
    ensures
        r == Ok::<(), OperationError>(()),
        ({
            let a = old(fs)@;
            let b = final(fs)@;
            let e = a.handles[h].entry;
            let (x, y) = (a.entries[e].stat, b.entries[e].stat);
            let (g, k) = (a.handles[h], b.handles[h]);
            &&& entries_but(a, b, e)
            &&& b.entries[e].content == a.entries[e].content
            &&& b.streams == a.streams
            &&& handles_but(a, b, h)
            &&& same_numbers(a, b)
            &&& y == StatView { ctime: y.ctime, mtime: y.mtime, atime: y.atime, ..x }
            &&& k == EntryHandle {
                ctime_enabled: k.ctime_enabled,
                mtime_enabled: k.mtime_enabled,
                atime_enabled: k.atime_enabled,
                ..g
            }
            &&& time_done(creation, x.ctime, g.ctime_enabled, y.ctime, k.ctime_enabled)
            &&& time_done(access, x.atime, g.atime_enabled, y.atime, k.atime_enabled)
            &&& time_done(write, x.mtime, g.mtime_enabled, y.mtime, k.mtime_enabled)
        }),
{
    lemma_handle_counts(old(fs)@, h);
}

/// Only the deletion of what handle `h` is on, a stream or the entry itself, is pending in `b` as
/// `delete` says.
pub open spec fn only_pending(a: FsView, b: FsView, h: usize, delete: bool) -> bool {
    let e = a.handles[h].entry;
    &&& b.handles == a.handles
    &&& same_numbers(a, b)
    &&& match a.handles[h].alt_stream {
        Some(s) => {
            &&& b.entries == a.entries
            &&& streams_but(a, b, s)
            &&& b.streams[s] == StreamView { delete_pending: delete, ..a.streams[s] }
        },
        None => {
            &&& b.streams == a.streams
            &&& entries_but(a, b, e)
            &&& b.entries[e].content == a.entries[e].content
            &&& b.entries[e].stat == StatView { delete_pending: delete, ..a.entries[e].stat }
        },
    }
}

/// A file or stream is marked for deletion, or the mark is taken back, unless the entry is
/// read-only.
pub proof fn law_delete_marks(
    fs: &mut MemFsHandler,
    h: usize,
    delete: bool,
    r: Result<(), OperationError>,
)
    requires
        old(fs)@.wf(),
        old(fs)@.handles.contains_key(h),
        call_ensures(MemFsHandler::delete_file, (fs, h, delete), r),
    ensures
        ({
            let attrs = old(fs)@.entries[old(fs)@.handles[h].entry].stat.attrs;
            &&& attrs & FILE_ATTRIBUTE_READONLY != 0 ==> {
                &&& r == Err::<(), OperationError>(OperationError::NtStatus(STATUS_CANNOT_DELETE))
                &&& final(fs)@ == old(fs)@
            }
            &&& attrs & FILE_ATTRIBUTE_READONLY == 0 ==> {
                &&& r == Ok::<(), OperationError>(())
                &&& only_pending(old(fs)@, final(fs)@, h, delete)
            }
        }),
{
    lemma_handle_counts(old(fs)@, h);
}

/// A directory is marked for deletion, or the mark is taken back. What is no directory, and what
/// has no directory above it, is refused, and for deletion a directory that holds any name.
pub proof fn law_delete_directory_marks(
    fs: &mut MemFsHandler,
    h: usize,
    delete: bool,
    r: Result<(), OperationError>,
)
    requires
        old(fs)@.wf(),
        old(fs)@.handles.contains_key(h),
        call_ensures(MemFsHandler::delete_directory, (fs, h, delete), r),
    ensures
        ({
            let a = old(fs)@;
            let e = a.handles[h].entry;
            let parent = a.entries[e].stat.parent;
            let above = parent is Some && a.entries.contains_key(parent->0);
            let holds = exists|key: Seq<u16>| #[trigger]
                a.entries[e].children().contains_key(key);
            &&& on_bytes(a, h) ==> r == Err::<(), OperationError>(
                OperationError::NtStatus(STATUS_INVALID_DEVICE_REQUEST),
            )
            &&& !on_bytes(a, h) && !above ==> r == Err::<(), OperationError>(
                OperationError::NtStatus(STATUS_ACCESS_DENIED),
            )
            &&& !on_bytes(a, h) && above && delete && holds ==> r == Err::<(), OperationError>(
                OperationError::NtStatus(STATUS_DIRECTORY_NOT_EMPTY),
            )
            &&& !on_bytes(a, h) && above && !(delete && holds) ==> {
                &&& r == Ok::<(), OperationError>(())
                &&& only_pending(a, final(fs)@, h, delete)
            }
            &&& r is Err ==> final(fs)@ == a
        }),
{
    lemma_handle_counts(old(fs)@, h);
    let a = old(fs)@;
    let names = a.entries[a.handles[h].entry].children();
    if !(exists|key: Seq<u16>| #[trigger] names.contains_key(key)) {
        assert(names =~= Map::<Seq<u16>, Link>::empty());
    }
}

/// A security descriptor that was set is the one that is told, bytes and all; where none could be
/// made, the old one stays and the error is handed on. Only the access time changes beside it.
pub proof fn law_security_is_set(
    fs: &mut MemFsHandler,
    h: usize,
    changed: Result<SecurityDescriptor, OperationError>,
    now: u64,
    r: Result<(), OperationError>,
    after: &MemFsHandler,
    told: &SecurityDescriptor,
)
    requires
        old(fs)@.wf(),
        old(fs)@.handles.contains_key(h),
        call_ensures(MemFsHandler::set_file_security, (fs, h, changed, now), r),
        after@ == final(fs)@,
        call_ensures(MemFsHandler::get_file_security, (after, h), told),
    ensures
        ({
            let a = old(fs)@;
            let b = final(fs)@;
            let e = a.handles[h].entry;
            &&& changed matches Ok(sec_desc) ==> {
                &&& r == Ok::<(), OperationError>(())
                &&& told.bytes@ == sec_desc.bytes@
                &&& only_stat(a, b, e)
                &&& b.entries[e].stat == StatView {
                    sec_desc: sec_desc.bytes@,
                    atime: if a.handles[h].atime_enabled {
                        now
                    } else {
                        a.entries[e].stat.atime
                    },
                    ..a.entries[e].stat
                }
            }
            &&& changed matches Err(error) ==> {
                &&& r == Err::<(), OperationError>(error)
                &&& told.bytes@ == a.entries[e].stat.sec_desc
                &&& b == a
            }
        }),
{
    lemma_handle_counts(old(fs)@, h);
}

} // verus!
