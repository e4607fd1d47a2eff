//! What calls of the parts that the operations are made of do, told by what they take and give.
use vstd::arithmetic::div_mod::{lemma_fundamental_div_mod, lemma_fundamental_div_mod_converse};
use vstd::prelude::*;
use vstd::std_specs::cmp::PartialEqSpec;

use crate::account::User;
use crate::archive::Archive;
use crate::attributes::{has_flag, Attributes};
use crate::calls::law_windows_values;
use crate::create::{create_refusal, CreateFileInfo, CreateRequest};
use crate::data::{read_at, resize, set_alloc, write_at};
use crate::entry::{
    AltStream, Content, DirEntry, Entry, EntryView, FileEntry, SecurityDescriptor, Stat, StatView,
};
use crate::handle::EntryHandle;
use crate::ident::{days_in_month, days_since_1970, is_leap_year, NaiveDateTime, UtcTime, Uuid};
use crate::info::{DiskSpaceInfo, VolumeInfo};
use crate::memfs::MemFsHandler;
use crate::model::ROOT;
use crate::name::{folded, u16_tolower, EntryName, EntryNameRef, NameMap};
use crate::open_calls::leads_to;
use crate::path::{FullName, PathInfo, StreamInfo};
use crate::status::{check_fill_data_error, nt_err, nt_res, FillDataError, OperationError};
use crate::wide::{char_units, utf16};

verus! {

/// Two units are the same, or the capital and the small form of one ASCII letter.
pub open spec fn units_alike(a: u16, b: u16) -> bool {
    ||| a == b
    ||| 0x41 <= a <= 0x5a && b == a + 0x20
    ||| 0x41 <= b <= 0x5a && a == b + 0x20
}

/// Two names differ in nothing but the case of ASCII letters.
pub open spec fn alike(a: Seq<u16>, b: Seq<u16>) -> bool {
    a.len() == b.len() && forall|i: int| 0 <= i < a.len() ==> units_alike(#[trigger] a[i], b[i])
}

/// Names are told apart just if they differ in more than the case of ASCII letters.
pub proof fn law_names_told_apart(a: Seq<u16>, b: Seq<u16>)
    ensures
        folded(a) == folded(b) <==> alike(a, b),
{
    if folded(a) == folded(b) {
        assert(folded(a).len() == a.len() && folded(b).len() == b.len());
        assert forall|i: int| 0 <= i < a.len() implies units_alike(#[trigger] a[i], b[i]) by {
            assert(folded(a)[i] == folded(b)[i]);
        }
    }
    if alike(a, b) {
        assert forall|i: int| 0 <= i < a.len() implies folded(a)[i] == folded(b)[i] by {
            assert(units_alike(a[i], b[i]));
        }
        assert(folded(a) =~= folded(b));
    }
}

/// Lower case is like the unit itself and is no ASCII capital.
pub proof fn law_lower_case(c: u16, r: u16)
    requires
        call_ensures(u16_tolower, (c,), r),
    ensures
        units_alike(c, r),
        !(0x41 <= r <= 0x5a),
{
}

/// Names compare as equal just if they differ in nothing but the case of ASCII letters, and then
/// the same units are hashed, and otherwise other ones.
pub proof fn law_names_compare(a: EntryName, b: EntryName, x: Vec<u16>, y: Vec<u16>)
    requires
        call_ensures(EntryName::hash_units, (&a,), x),
        call_ensures(EntryName::hash_units, (&b,), y),
    ensures
        a.eq_spec(&b) <==> alike(a.units@, b.units@),
        x@ == y@ <==> alike(a.units@, b.units@),
        alike(x@, a.units@),
{
    law_names_told_apart(a.units@, b.units@);
    assert forall|i: int| 0 <= i < x@.len() implies units_alike(#[trigger] x@[i], a.units@[i]) by {}
}

/// Borrowed names compare and hash as owned ones do.
pub proof fn law_borrowed_names_compare<'a>(
    a: EntryNameRef<'a>,
    b: EntryNameRef<'a>,
    x: Vec<u16>,
    y: Vec<u16>,
)
    requires
        call_ensures(EntryNameRef::<'a>::hash_units, (&a,), x),
        call_ensures(EntryNameRef::<'a>::hash_units, (&b,), y),
    ensures
        a.eq_spec(&b) <==> alike(a.units@, b.units@),
        x@ == y@ <==> alike(a.units@, b.units@),
{
    law_names_told_apart(a.units@, b.units@);
}

/// What a map gives for a name after another was put in: the new number for names like the one that
/// was put in, and what it gave before for others. What is given back is what the name stood for.
pub proof fn law_insert_then_get<'a>(
    before: &NameMap,
    map: &mut NameMap,
    after: &NameMap,
    name: EntryName,
    id: usize,
    r: Option<usize>,
    other: EntryNameRef<'a>,
    was: Option<usize>,
    is: Option<usize>,
)
    requires
        before@ == old(map)@,
        after@ == final(map)@,
        call_ensures(NameMap::get, (before, other), was),
        call_ensures(NameMap::insert, (map, name, id), r),
        call_ensures(NameMap::get, (after, other), is),
    ensures
        alike(other.units@, name.units@) ==> is == Some(id) && r == was,
        !alike(other.units@, name.units@) ==> is == was,
{
    law_names_told_apart(other.units@, name.units@);
}

/// What a map gives for a name after another was taken away: nothing for names like it, and what it
/// gave before for others.
pub proof fn law_remove_then_get<'a>(
    before: &NameMap,
    map: &mut NameMap,
    after: &NameMap,
    name: EntryNameRef<'a>,
    r: Option<usize>,
    other: EntryNameRef<'a>,
    was: Option<usize>,
    is: Option<usize>,
)
    requires
        before@ == old(map)@,
        after@ == final(map)@,
        call_ensures(NameMap::get, (before, other), was),
        call_ensures(NameMap::remove, (map, name), r),
        call_ensures(NameMap::get, (after, other), is),
    ensures
        alike(other.units@, name.units@) ==> is is None && r == was,
        !alike(other.units@, name.units@) ==> is == was,
{
    law_names_told_apart(other.units@, name.units@);
}

/// A new map gives nothing for any name.
pub proof fn law_new_map_is_empty<'a>(
    map: NameMap,
    other: EntryNameRef<'a>,
    r: Option<usize>,
    empty: bool,
)
    requires
        call_ensures(NameMap::new, (), map),
        call_ensures(NameMap::get, (&map, other), r),
        call_ensures(NameMap::is_empty, (&map,), empty),
    ensures
        r is None,
        empty,
{
}

/// A map in which a name stands for something is not empty, and that number is found in it under
/// some name which stands for it.
pub proof fn law_get_then_find<'a>(
    map: &NameMap,
    name: EntryNameRef<'a>,
    id: usize,
    empty: bool,
    found: Option<EntryName>,
    again: EntryNameRef<'a>,
    r: Option<usize>,
)
    requires
        call_ensures(NameMap::get, (map, name), Some(id)),
        call_ensures(NameMap::is_empty, (map,), empty),
        call_ensures(NameMap::find, (map, id), found),
        call_ensures(NameMap::get, (map, again), r),
    ensures
        !empty,
        found is Some,
        alike(again.units@, found->0.units@) ==> r == Some(id),
{
    let key = folded(name@);
    assert(map@.contains_key(key));
    assert(map@[key].id == id);
    law_names_told_apart(again.units@, found->0.units@);
}

/// The items of a map are the names that stand for something in it: each stands for its number, no
/// two are alike, and a name stands for something only where one of them is like it.
pub proof fn law_items_are_the_map<'a>(
    map: &NameMap,
    items: &Vec<(EntryName, usize)>,
    name: EntryNameRef<'a>,
    r: Option<usize>,
)
    requires
        call_ensures(NameMap::items, (map,), items),
        call_ensures(NameMap::get, (map, name), r),
    ensures
        forall|i: int|
            0 <= i < items@.len() && alike(#[trigger] items@[i].0.units@, name.units@) ==> r == Some(
                items@[i].1,
            ),
        r is Some ==> exists|i: int|
            0 <= i < items@.len() && alike(#[trigger] items@[i].0.units@, name.units@),
        forall|i: int, j: int|
            0 <= i < j < items@.len() ==> !alike(
                #[trigger] items@[i].0.units@,
                #[trigger] items@[j].0.units@,
            ),
{
    assert forall|i: int|
        0 <= i < items@.len() && alike(#[trigger] items@[i].0.units@, name.units@) implies r == Some(
        items@[i].1,
    ) by {
        law_names_told_apart(items@[i].0.units@, name.units@);
        assert(folded(items@[i].0@) == folded(name@));
    }
    if r is Some {
        assert(map@.contains_key(folded(name@)));
        let i = choose|i: int|
            0 <= i < items@.len() && folded(#[trigger] items@[i].0@) == folded(name@);
        law_names_told_apart(items@[i].0.units@, name.units@);
    }
    assert forall|i: int, j: int| 0 <= i < j < items@.len() implies !alike(
        #[trigger] items@[i].0.units@,
        #[trigger] items@[j].0.units@,
    ) by {
        law_names_told_apart(items@[i].0.units@, items@[j].0.units@);
        assert(folded(items@[i].0@) != folded(items@[j].0@));
    }
}

/// A directory is searched for a name that is like the one that is asked for.
pub proof fn law_lookup(fs: &MemFsHandler, d: usize, name: &[u16], r: Option<usize>)
    requires
        fs@.wf(),
        fs@.entries.contains_key(d),
        call_ensures(MemFsHandler::lookup, (fs, d, name), r),
    ensures
        r matches Some(e) ==> exists|key: Seq<u16>| #[trigger]
            fs@.links(d, key, e) && alike(fs@.entries[d].children()[key].name, name@),
        forall|key: Seq<u16>| #[trigger]
            fs@.entries[d].children().contains_key(key) && alike(
                fs@.entries[d].children()[key].name,
                name@,
            ) ==> r == Some(fs@.entries[d].children()[key].id),
{
    let names = fs@.entries[d].children();
    if r is Some {
        let key = folded(name@);
        assert(fs@.links(d, key, r->0));
        law_names_told_apart(names[key].name, name@);
    }
    assert forall|key: Seq<u16>| #[trigger]
        names.contains_key(key) && alike(names[key].name, name@) implies r == Some(names[key].id) by {
        assert(fs@.links(d, key, names[key].id));
        law_names_told_apart(names[key].name, name@);
    }
}

/// A new file system has a root directory and nothing else: the directory is empty, not open, and
/// was made now.
pub proof fn law_new_file_system(sec_desc: SecurityDescriptor, now: u64, r: MemFsHandler)
    requires
        call_ensures(MemFsHandler::new, (sec_desc, now), r),
    ensures
        r@.wf(),
        r@.entries.dom() =~= set![ROOT],
        r@.entries[ROOT].content == (Content::Directory { children: Map::empty() }),
        r@.entries[ROOT].stat == (StatView {
            id: 0,
            attrs: 0,
            ctime: now,
            mtime: now,
            atime: now,
            sec_desc: sec_desc.bytes@,
            handle_count: 0,
            delete_pending: false,
            parent: None,
            alt_streams: Map::empty(),
        }),
        r@.streams.dom() =~= Set::empty(),
        r@.handles.dom() =~= Set::empty(),
        r@.id_counter == 1,
        ROOT == 0,
{
}

/// Identifiers that are handed out one after the other follow one another, but for the one behind
/// the largest number. Nothing else changes.
pub proof fn law_next_id(fs: &mut MemFsHandler, r: u64)
    requires
        call_ensures(MemFsHandler::next_id, (fs,), r),
    ensures
        r == old(fs)@.id_counter,
        r < u64::MAX ==> final(fs)@.id_counter == r + 1,
        r == u64::MAX ==> final(fs)@.id_counter == 0,
        final(fs)@.entries == old(fs)@.entries,
        final(fs)@.streams == old(fs)@.streams,
        final(fs)@.handles == old(fs)@.handles,
        final(fs)@.next_entry == old(fs)@.next_entry,
        final(fs)@.next_stream == old(fs)@.next_stream,
{
}

/// What is open, what is a directory, what a handle is on and how long that is.
pub proof fn law_handles_tell(
    fs: &MemFsHandler,
    h: usize,
    open: bool,
    is_dir: bool,
    len: Option<usize>,
    e: usize,
    directory: bool,
)
    requires
        call_ensures(MemFsHandler::is_open, (fs, h), open),
        call_ensures(MemFsHandler::is_dir, (fs, h), is_dir),
        call_ensures(MemFsHandler::len_of, (fs, h), len),
        call_ensures(MemFsHandler::is_directory, (fs, e), directory),
    ensures
        open <==> fs@.handles.dom().contains(h),
        is_dir <==> fs@.handles[h].alt_stream is None
            && fs@.entries[fs@.handles[h].entry].content is Directory,
        len is None <==> is_dir,
        fs@.handles[h].alt_stream matches Some(s) ==> len is Some && len->0
            == fs@.streams[s].data.len(),
        fs@.handles[h].alt_stream is None && !is_dir ==> len is Some && len->0
            == fs@.entries[fs@.handles[h].entry].content->data.len(),
        directory <==> fs@.entries.dom().contains(e) && fs@.entries[e].content is Directory,
{
}

/// A security descriptor is read as it stands with the entry, through every handle on it and of
/// every directory.
pub proof fn law_security_is_told(
    fs: &MemFsHandler,
    h: usize,
    r: &SecurityDescriptor,
    d: usize,
    inherits: &SecurityDescriptor,
)
    requires
        call_ensures(MemFsHandler::get_file_security, (fs, h), r),
        call_ensures(MemFsHandler::directory_security, (fs, d), inherits),
    ensures
        r.bytes@ == fs@.entries[fs@.handles[h].entry].stat.sec_desc,
        inherits.bytes@ == fs@.entries[d].stat.sec_desc,
        fs@.handles[h].entry == d ==> r.bytes@ == inherits.bytes@,
{
}

/// A request can be counted unless what it would open has as many handles as can be counted; then
/// it can just if it is refused.
pub proof fn law_can_open(
    before: &MemFsHandler,
    fs: &mut MemFsHandler,
    path: &Result<Option<PathInfo>, OperationError>,
    inherited: Result<SecurityDescriptor, OperationError>,
    req: CreateRequest,
    now: u64,
    parent_now: u64,
    can: bool,
    r: Result<CreateFileInfo, OperationError>,
    e: usize,
)
    requires
        before@ == old(fs)@,
        leads_to(old(fs)@, *path, e) || (*path == Ok::<Option<PathInfo>, OperationError>(None) && e
            == ROOT),
        call_ensures(MemFsHandler::can_open, (before, path, req), can),
        call_ensures(
            MemFsHandler::create_file,
            (fs, path, inherited, req, now, parent_now),
            r,
        ),
    ensures
        can <==> r is Err || old(fs)@.entries[e].stat.handle_count < 0xFFFF_FFFF,
{
    assert((create_refusal(old(fs)@, *path, inherited, req) is Some) == (r is Err));
}

/// The room that is claimed: half of a gigabyte is free, and all that is free is available.
pub proof fn law_disk_space(fs: &MemFsHandler, r: Result<DiskSpaceInfo, OperationError>)
    requires
        call_ensures(MemFsHandler::get_disk_free_space, (fs,), r),
    ensures
        r is Ok,
        r->Ok_0.byte_count == 0x4000_0000,
        2 * r->Ok_0.free_byte_count == r->Ok_0.byte_count,
        r->Ok_0.available_byte_count == r->Ok_0.free_byte_count,
{
}

proof fn lemma_one_unit(c: char)
    requires
        (c as int) < 0x10000,
    ensures
        char_units(c).len() == 1,
        char_units(c)[0] == c as int,
{
    assert(0 <= c as int);
}

/// A string of characters of the basic plane has one unit for each, with its code.
pub proof fn law_basic_units(s: Seq<char>)
    requires
        forall|i: int| 0 <= i < s.len() ==> (#[trigger] s[i] as int) < 0x10000,
    ensures
        utf16(s).len() == s.len(),
        forall|i: int| 0 <= i < s.len() ==> #[trigger] utf16(s)[i] == s[i] as int,
    decreases s.len(),
{
    if s.len() > 0 {
        let shorter = s.drop_last();
        assert forall|i: int| 0 <= i < shorter.len() implies (#[trigger] shorter[i] as int)
            < 0x10000 by {
            assert(shorter[i] == s[i]);
        }
        law_basic_units(shorter);
        assert((s[s.len() - 1] as int) < 0x10000);
        assert forall|i: int| 0 <= i < s.len() implies #[trigger] utf16(s)[i] == s[i] as int by {
            let last = s.last();
            assert(utf16(s) == utf16(shorter) + char_units(last));
            if i < shorter.len() {
                assert(utf16(shorter)[i] == shorter[i] as int);
                assert(shorter[i] == s[i]);
            } else {
                assert(s[i] == last);
                lemma_one_unit(last);
            }
        }
    }
}

/// A volume has the names that it is known by, spelled unit by unit, and says what it can do: it
/// keeps the case of names, has Unicode names, security descriptors and streams.
pub proof fn law_volume(fs: &MemFsHandler, longest: u32, r: Result<VolumeInfo, OperationError>)
    requires
        call_ensures(MemFsHandler::get_volume_information, (fs, longest), r),
    ensures
        r is Ok,
        r->Ok_0.name@ == seq![
            0x64u16, 0x6f, 0x6b, 0x61, 0x6e, 0x2d, 0x72, 0x75, 0x73, 0x74, 0x20, 0x6d, 0x65, 0x6d,
            0x66, 0x73,
        ],
        r->Ok_0.fs_name@ == seq![0x4eu16, 0x54, 0x46, 0x53],
        r->Ok_0.serial_number == 0,
        r->Ok_0.max_component_length == longest,
        r->Ok_0.fs_flags == 0x1 + 0x2 + 0x4 + 0x8 + 0x40000,
{
    reveal_strlit("dokan-rust memfs");
    reveal_strlit("NTFS");
    law_basic_units("dokan-rust memfs"@);
    law_basic_units("NTFS"@);
    assert(r->Ok_0.name@ =~= seq![
        0x64u16, 0x6f, 0x6b, 0x61, 0x6e, 0x2d, 0x72, 0x75, 0x73, 0x74, 0x20, 0x6d, 0x65, 0x6d,
        0x66, 0x73,
    ]);
    assert(r->Ok_0.fs_name@ =~= seq![0x4eu16, 0x54, 0x46, 0x53]);
}

/// Mounting, unmounting and flushing always succeed.
pub proof fn law_nothing_to_do(
    fs: &MemFsHandler,
    h: usize,
    mounted: Result<(), OperationError>,
    unmounted: Result<(), OperationError>,
    flushed: Result<(), OperationError>,
)
    requires
        call_ensures(MemFsHandler::mounted, (fs,), mounted),
        call_ensures(MemFsHandler::unmounted, (fs,), unmounted),
        call_ensures(MemFsHandler::flush_file_buffers, (fs, h), flushed),
    ensures
        mounted is Ok,
        unmounted is Ok,
        flushed is Ok,
{
}

/// Reading copies the bytes from exactly `offset` on to the front of the buffer, as many as there
/// are and as there is room for; the rest of the buffer stays.
pub proof fn law_read_at(data: &Vec<u8>, offset: usize, buffer: &mut [u8], r: u32)
    requires
        offset <= data@.len(),
        call_ensures(read_at, (data, offset, buffer), r),
    ensures
        ({
            let was = old(buffer)@;
            let is = final(buffer)@;
            &&& is.len() == was.len()
            &&& forall|i: int|
                0 <= i < is.len() ==> #[trigger] is[i] == if offset + i < data@.len() {
                    data@[offset + i]
                } else {
                    was[i]
                }
            &&& was.len() <= u32::MAX && was.len() <= data@.len() - offset ==> r == was.len()
            &&& was.len() <= u32::MAX && was.len() >= data@.len() - offset ==> r == data@.len()
                - offset
        }),
{
}

/// Writing puts the buffer at exactly `offset`, or behind the end; the bytes elsewhere stay, and a
/// gap is filled with zeros.
pub proof fn law_write_at(
    data: &mut Vec<u8>,
    offset: usize,
    write_to_eof: bool,
    buffer: &[u8],
    r: u32,
)
    requires
        call_ensures(write_at, (data, offset, write_to_eof, buffer), r),
    ensures
        ({
            let was = old(data)@;
            let is = final(data)@;
            let start = if write_to_eof {
                was.len() as int
            } else {
                offset as int
            };
            let end = start + buffer@.len();
            &&& is.len() == end || end <= was.len() == is.len()
            &&& is.len() >= end
            &&& forall|i: int| start <= i < end ==> #[trigger] is[i] == buffer@[i - start]
            &&& forall|i: int|
                0 <= i < was.len() && !(start <= i < end) ==> #[trigger] is[i] == was[i]
            &&& forall|i: int| was.len() <= i < start ==> #[trigger] is[i] == 0
            &&& buffer@.len() <= u32::MAX ==> r == buffer@.len()
        }),
{
}

/// Bytes that are made longer or shorter keep what both lengths have, and grow by zeros.
pub proof fn law_resize(data: &mut Vec<u8>, len: usize)
    requires
        call_ensures(resize, (data, len), ()),
    ensures
        final(data)@.len() == len,
        forall|i: int|
            0 <= i < len ==> #[trigger] final(data)@[i] == if i < old(data)@.len() {
                old(data)@[i]
            } else {
                0
            },
{
}

/// Room that is set cuts off the bytes that it is too small for, and adds none.
pub proof fn law_set_alloc(data: &mut Vec<u8>, alloc_size: usize)
    requires
        call_ensures(set_alloc, (data, alloc_size), ()),
    ensures
        final(data)@.len() <= alloc_size,
        final(data)@.len() == alloc_size || final(data)@.len() == old(data)@.len(),
        final(data)@.is_prefix_of(old(data)@),
{
}

/// Attributes are kept as far as they are supported; a directory is told as one, and a file without
/// attributes as a normal file.
pub proof fn law_attributes(
    attrs: u32,
    kept: Attributes,
    is_dir: bool,
    told: u32,
    flag: u32,
    r: bool,
)
    requires
        call_ensures(Attributes::new, (attrs,), kept),
        call_ensures(Attributes::get_output_attrs, (&kept, is_dir), told),
        call_ensures(has_flag, (attrs, flag), r),
    ensures
        kept.value == attrs & 0x3127,
        is_dir ==> told == kept.value | 0x10,
        !is_dir && kept.value != 0 ==> told == kept.value,
        !is_dir && kept.value == 0 ==> told == 0x80,
        r <==> attrs & flag != 0,
{
    law_windows_values();
    let value = kept.value;
    assert(value | 0x10 != 0) by (bit_vector);
}

/// Times that are noted for an entry: a change is an access too.
pub proof fn law_times_are_noted(read: &mut Stat, written: &mut Stat, time: u64)
    requires
        call_ensures(Stat::update_atime, (read, time), ()),
        call_ensures(Stat::update_mtime, (written, time), ()),
    ensures
        final(read)@ == (StatView { atime: time, ..old(read)@ }),
        final(written)@ == (StatView { mtime: time, atime: time, ..old(written)@ }),
{
}

/// Times that are noted through a handle, each unless its updates are switched off there.
pub proof fn law_handle_notes_times(
    handle: &EntryHandle,
    read: &mut Stat,
    written: &mut Stat,
    time: u64,
)
    requires
        call_ensures(EntryHandle::update_atime, (handle, read, time), ()),
        call_ensures(EntryHandle::update_mtime, (handle, written, time), ()),
    ensures
        final(read)@ == (StatView {
            atime: if handle.atime_enabled {
                time
            } else {
                old(read)@.atime
            },
            ..old(read)@
        }),
        final(written)@ == (StatView {
            mtime: if handle.mtime_enabled {
                time
            } else {
                old(written)@.mtime
            },
            atime: if handle.atime_enabled {
                time
            } else {
                old(written)@.atime
            },
            ..old(written)@
        }),
{
}

/// What something new is like: an entry that is not open, with the supported attributes and one
/// time for all; nothing in a file, a directory or a stream.
pub proof fn law_new_parts(
    id: u64,
    attrs: u32,
    sec_desc: SecurityDescriptor,
    parent: Option<usize>,
    now: u64,
    stat: Stat,
    file: FileEntry,
    dir: DirEntry,
    stream: AltStream,
)
    requires
        call_ensures(Stat::new, (id, attrs, sec_desc, parent, now), stat),
        call_ensures(FileEntry::new, (stat,), file),
        call_ensures(DirEntry::new, (stat,), dir),
        call_ensures(AltStream::new, (), stream),
    ensures
        stat@ == (StatView {
            id,
            attrs: attrs & 0x3127,
            ctime: now,
            mtime: now,
            atime: now,
            sec_desc: sec_desc.bytes@,
            handle_count: 0,
            delete_pending: false,
            parent,
            alt_streams: Map::empty(),
        }),
        file@ == (EntryView { stat: stat@, content: Content::File { data: Seq::empty() } }),
        dir@ == (EntryView { stat: stat@, content: Content::Directory { children: Map::empty() } }),
        stream.handle_count == 0,
        !stream.delete_pending,
        stream.data@.len() == 0,
{
    law_windows_values();
}

/// A new handle is on what it was opened on, and all its times are kept up; it is on a directory
/// just if it is not on a stream and its entry is one.
pub proof fn law_new_handle(
    e: usize,
    alt: Option<usize>,
    delete_on_close: bool,
    handle: EntryHandle,
    entry: &Entry,
    is_dir: bool,
)
    requires
        call_ensures(EntryHandle::new, (e, alt, delete_on_close), handle),
        call_ensures(EntryHandle::is_dir, (&handle, entry), is_dir),
    ensures
        handle.entry == e,
        handle.alt_stream == alt,
        handle.delete_on_close == delete_on_close,
        handle.mtime_delayed is None,
        handle.atime_delayed is None,
        handle.ctime_enabled && handle.mtime_enabled && handle.atime_enabled,
        is_dir <==> alt is None && *entry is Directory,
{
}

/// Whether a stream is the main one is answered for the kind of entry that is asked about, and a
/// name is valid just if there is no nul in it or in that of its stream.
pub proof fn law_stream_kinds(
    info: &StreamInfo,
    on_file: Result<bool, OperationError>,
    on_dir: Result<bool, OperationError>,
    name: &FullName,
    valid: bool,
)
    requires
        call_ensures(StreamInfo::check_default, (info, false), on_file),
        call_ensures(StreamInfo::check_default, (info, true), on_dir),
        call_ensures(FullName::is_valid, (name,), valid),
    ensures
        on_file == info.on_file,
        on_dir == info.on_dir,
        valid <==> !name.file_name@.contains(0) && (name.stream_info is Some
            ==> !name.stream_info->0.name@.contains(0)),
{
    let units = name.file_name@;
    let stream = name.stream_info->0.name@;
    assert(units.contains(0) <==> exists|i: int| 0 <= i < units.len() && units[i] == 0);
    assert(stream.contains(0) <==> exists|i: int| 0 <= i < stream.len() && stream[i] == 0);
}

/// A listing goes on after every item but one for which there is no room.
pub proof fn law_listing_goes_on(
    res: Result<(), FillDataError>,
    r: Result<(), OperationError>,
    status: u32,
    error: OperationError,
    refusal: Result<u32, OperationError>,
)
    requires
        call_ensures(check_fill_data_error, (res,), r),
        call_ensures(nt_err, (status,), error),
        call_ensures(nt_res::<u32>, (status,), refusal),
    ensures
        r is Err <==> res is Err && res->Err_0 is BufferFull,
        r matches Err(error) ==> error == OperationError::NtStatus(0xC00000E5),
        error == OperationError::NtStatus(status),
        refusal == Err::<u32, OperationError>(error),
{
}

proof fn lemma_division_steps(n: int, k: int)
    requires
        k > 0,
    ensures
        n / k - (n - 1) / k == if n % k == 0 {
            1int
        } else {
            0int
        },
{
    lemma_fundamental_div_mod(n, k);
    if n % k == 0 {
        assert(k * (n / k) == k * (n / k - 1) + k) by (nonlinear_arith);
        assert(k * (n / k - 1) == (n / k - 1) * k) by (nonlinear_arith);
        lemma_fundamental_div_mod_converse(n - 1, k, n / k - 1, k - 1);
    } else {
        assert(k * (n / k) == n / k * k) by (nonlinear_arith);
        lemma_fundamental_div_mod_converse(n - 1, k, n / k, n % k - 1);
    }
}

/// A leap year has one day more than 365.
proof fn lemma_leap_days(year: int)
    ensures
        (year / 4 - year / 100 + year / 400) - ((year - 1) / 4 - (year - 1) / 100 + (year - 1)
            / 400) == if is_leap_year(year) {
            1int
        } else {
            0int
        },
{
    lemma_division_steps(year, 4);
    lemma_division_steps(year, 100);
    lemma_division_steps(year, 400);
    lemma_fundamental_div_mod(year, 100);
    lemma_fundamental_div_mod(year, 400);
    if year % 400 == 0 {
        lemma_fundamental_div_mod_converse(year, 100, 4 * (year / 400), 0);
    }
    if year % 100 == 0 {
        lemma_fundamental_div_mod_converse(year, 4, 25 * (year / 100), 0);
    }
}

/// Days are counted one after the other, over the ends of months and years too, from the first day
/// of 1970 on.
pub proof fn law_days_are_counted(year: int, month: int, day: int)
    requires
        1 <= month <= 12,
        1 <= day <= days_in_month(year, month),
    ensures
        days_since_1970(1970, 1, 1) == 0,
        day < days_in_month(year, month) ==> days_since_1970(year, month, day + 1)
            == days_since_1970(year, month, day) + 1,
        day == days_in_month(year, month) && month < 12 ==> days_since_1970(year, month + 1, 1)
            == days_since_1970(year, month, day) + 1,
        day == days_in_month(year, month) && month == 12 ==> days_since_1970(year + 1, 1, 1)
            == days_since_1970(year, month, day) + 1,
{
    if month == 2 {
        lemma_leap_days(year);
    }
}

/// How long months are: February has a leap day every four years, but for three of four centuries.
pub proof fn law_months(year: int)
    ensures
        forall|month: int|
            month == 1 || month == 3 || month == 5 || month == 7 || month == 8 || month == 10
                || month == 12 ==> #[trigger] days_in_month(year, month) == 31,
        forall|month: int|
            month == 4 || month == 6 || month == 9 || month == 11 ==> #[trigger] days_in_month(
                year,
                month,
            ) == 30,
        days_in_month(year, 2) == 28 || days_in_month(year, 2) == 29,
        days_in_month(year, 2) == 29 <==> (year % 4 == 0 && year % 100 != 0) || year % 400 == 0,
{
}

/// An archive was made at the time that its identifier tells, and at no known time where it tells
/// none: versions 1, 6 and 7 do. A date and time is that of a day which exists.
pub proof fn law_archive_time(
    archive: &Archive,
    id: &Uuid,
    told: Option<(u64, u32)>,
    r: Option<NaiveDateTime>,
)
    requires
        call_ensures(Uuid::get_timestamp, (id,), told),
        call_ensures(Archive::create_time, (archive, id), r),
    ensures
        r is Some <==> told is Some,
        ({
            let version = id.value as int / 0x1000_0000_0000_0000_0000 % 16;
            told is Some <==> version == 1 || version == 6 || version == 7
        }),
        r matches Some(time) ==> (told matches Some(t) ==> {
            &&& 1 <= time.month <= 12
            &&& 1 <= time.day <= days_in_month(time.year as int, time.month as int)
            &&& time.hour < 24 && time.minute < 60 && time.second < 60
            &&& days_since_1970(time.year as int, time.month as int, time.day as int) * 86400
                + time.hour * 3600 + time.minute * 60 + time.second == t.0
            &&& time.nanosecond == t.1
        }),
{
}

/// A user is what was given for it, and by default one with a random identifier.
pub proof fn law_users(id: Uuid, made: UtcTime, active: UtcTime, user: User, random: User)
    requires
        call_ensures(User::new, (id, made, active), user),
        call_ensures(<User as Default>::default, (), random),
    ensures
        user.id == id,
        user.create_time == made,
        user.active_time == active,
        random.id.value as int / 0x1000_0000_0000_0000_0000 % 16 == 4,
{
}

} // verus!
