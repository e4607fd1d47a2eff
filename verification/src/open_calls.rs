//! What a call that opens or creates does, told by what it finds, gives back and leaves.
use vstd::prelude::*;

use crate::attributes::{
    FILE_ATTRIBUTE_ARCHIVE, FILE_ATTRIBUTE_HIDDEN, FILE_ATTRIBUTE_READONLY, FILE_ATTRIBUTE_SYSTEM,
};
use crate::calls::{entries_but, law_windows_values, same_numbers, streams_but};
use crate::create::{
    CreateFileInfo, CreateRequest, FILE_APPEND_DATA, FILE_CREATE, FILE_DELETE_ON_CLOSE,
    FILE_DIRECTORY_FILE, FILE_NON_DIRECTORY_FILE, FILE_OPEN, FILE_OPEN_IF, FILE_OVERWRITE,
    FILE_OVERWRITE_IF, FILE_SUPERSEDE, FILE_WRITE_DATA,
};
use crate::entry::{Content, SecurityDescriptor, StatView, StreamView};
use crate::handle::EntryHandle;
use crate::memfs::MemFsHandler;
use crate::model::{FsView, ROOT};
use crate::name::{folded, Link};
use crate::path::{FullName, PathInfo};
use crate::status::{
    OperationError, STATUS_ACCESS_DENIED, STATUS_CANNOT_DELETE, STATUS_DELETE_PENDING,
    STATUS_FILE_IS_A_DIRECTORY, STATUS_INTERNAL_ERROR, STATUS_DIRECTORY_NOT_EMPTY,
    STATUS_INVALID_DEVICE_REQUEST, STATUS_INVALID_PARAMETER, STATUS_NOT_A_DIRECTORY,
    STATUS_OBJECT_NAME_COLLISION, STATUS_OBJECT_NAME_INVALID, STATUS_OBJECT_NAME_NOT_FOUND,
    STATUS_SHARING_VIOLATION,
};

verus! {

pub type Opened = Result<CreateFileInfo, OperationError>;

/// The call was refused with `status`.
pub open spec fn refused(r: Opened, status: u32) -> bool {
    r == Err::<CreateFileInfo, OperationError>(OperationError::NtStatus(status))
}

/// The call gave a handle of its own on entry `e`, or on stream `alt` of it, on which nothing was
/// done yet; the other handles are as before.
pub open spec fn gave_handle(
    a: FsView,
    b: FsView,
    r: Opened,
    e: usize,
    alt: Option<usize>,
    delete_on_close: bool,
) -> bool {
    &&& r is Ok
    &&& !a.handles.contains_key(r->Ok_0.context)
    &&& b.handles == a.handles.insert(
        r->Ok_0.context,
        EntryHandle {
            entry: e,
            alt_stream: alt,
            delete_on_close,
            mtime_delayed: None,
            atime_delayed: None,
            ctime_enabled: true,
            mtime_enabled: true,
            atime_enabled: true,
        },
    )
}

/// The values that Windows gives to what an opener asks for.
pub proof fn law_request_values()
    ensures
        FILE_SUPERSEDE == 0,
        FILE_OPEN == 1,
        FILE_CREATE == 2,
        FILE_OPEN_IF == 3,
        FILE_OVERWRITE == 4,
        FILE_OVERWRITE_IF == 5,
        FILE_DIRECTORY_FILE == 0x1,
        FILE_NON_DIRECTORY_FILE == 0x40,
        FILE_DELETE_ON_CLOSE == 0x1000,
        FILE_WRITE_DATA == 0x2,
        FILE_APPEND_DATA == 0x4,
{
}

/// The values that Windows gives to the status codes.
pub proof fn law_status_values()
    ensures
        STATUS_INVALID_PARAMETER == 0xC000000D,
        STATUS_INVALID_DEVICE_REQUEST == 0xC0000010,
        STATUS_ACCESS_DENIED == 0xC0000022,
        STATUS_OBJECT_NAME_INVALID == 0xC0000033,
        STATUS_OBJECT_NAME_NOT_FOUND == 0xC0000034,
        STATUS_OBJECT_NAME_COLLISION == 0xC0000035,
        STATUS_SHARING_VIOLATION == 0xC0000043,
        STATUS_DELETE_PENDING == 0xC0000056,
        STATUS_FILE_IS_A_DIRECTORY == 0xC00000BA,
        STATUS_INTERNAL_ERROR == 0xC00000E5,
        STATUS_DIRECTORY_NOT_EMPTY == 0xC0000101,
        STATUS_NOT_A_DIRECTORY == 0xC0000103,
        STATUS_CANNOT_DELETE == 0xC0000121,
{
}

/// A disposition that does not exist is refused whatever the path; then a path that leads nowhere
/// is refused with the reason that it has.
pub proof fn law_bad_requests(
    fs: &mut MemFsHandler,
    path: &Result<Option<PathInfo>, OperationError>,
    inherited: Result<SecurityDescriptor, OperationError>,
    req: CreateRequest,
    now: u64,
    parent_now: u64,
    r: Opened,
)
    requires
        call_ensures(
            MemFsHandler::create_file,
            (fs, path, inherited, req, now, parent_now),
            r,
        ),
    ensures
        req.create_disposition > 5 ==> refused(r, STATUS_INVALID_PARAMETER) && final(fs)@ == old(
            fs,
        )@,
        req.create_disposition <= 5 ==> (*path matches Err(error) ==> {
            &&& r == Err::<CreateFileInfo, OperationError>(error)
            &&& final(fs)@ == old(fs)@
        }),
{
}

/// The root directory is opened by those who ask for something that exists and may be a directory;
/// others are refused.
pub proof fn law_root_opens(
    fs: &mut MemFsHandler,
    path: &Result<Option<PathInfo>, OperationError>,
    inherited: Result<SecurityDescriptor, OperationError>,
    req: CreateRequest,
    now: u64,
    parent_now: u64,
    r: Opened,
)
    requires
        old(fs)@.wf(),
        old(fs)@.entries[ROOT].stat.handle_count < u32::MAX,
        *path == Ok::<Option<PathInfo>, OperationError>(None),
        call_ensures(
            MemFsHandler::create_file,
            (fs, path, inherited, req, now, parent_now),
            r,
        ),
    ensures
        ({
            let a = old(fs)@;
            let b = final(fs)@;
            let existing = req.create_disposition == FILE_OPEN || req.create_disposition
                == FILE_OPEN_IF;
            let no_dir = req.create_options & FILE_NON_DIRECTORY_FILE != 0;
            &&& !existing ==> refused(r, STATUS_INVALID_PARAMETER)
            &&& existing && no_dir ==> refused(r, STATUS_FILE_IS_A_DIRECTORY)
            &&& existing && !no_dir ==> {
                &&& gave_handle(a, b, r, ROOT, None, req.info_delete_on_close)
                &&& r->Ok_0.is_dir
                &&& !r->Ok_0.new_file_created
                &&& entries_but(a, b, ROOT)
                &&& b.entries[ROOT].content == a.entries[ROOT].content
                &&& b.entries[ROOT].stat == StatView {
                    handle_count: (a.entries[ROOT].stat.handle_count + 1) as u32,
                    ..a.entries[ROOT].stat
                }
                &&& b.streams == a.streams
                &&& same_numbers(a, b)
            }
            &&& r is Err ==> b == a
        }),
{
}

/// Entry `e` is what a path leads to.
pub open spec fn leads_to(
    fs: FsView,
    path: Result<Option<PathInfo>, OperationError>,
    e: usize,
) -> bool {
    &&& path is Ok
    &&& path->Ok_0 is Some
    &&& fs.entries.contains_key(path->Ok_0->0.parent)
    &&& fs.entries[path->Ok_0->0.parent].children().contains_key(
        folded(path->Ok_0->0.name.file_name@),
    )
    &&& fs.entries[path->Ok_0->0.parent].children()[folded(path->Ok_0->0.name.file_name@)].id == e
}

/// Nothing keeps anyone from opening entry `e`: it is not to be deleted, and if it is read-only it
/// is asked for neither to write nor to delete it.
pub open spec fn unguarded(fs: FsView, e: usize, req: CreateRequest) -> bool {
    let stat = fs.entries[e].stat;
    &&& !stat.delete_pending
    &&& stat.attrs & FILE_ATTRIBUTE_READONLY != 0 ==> {
        &&& req.desired_access & FILE_WRITE_DATA == 0
        &&& req.desired_access & FILE_APPEND_DATA == 0
        &&& req.create_options & FILE_DELETE_ON_CLOSE == 0
    }
}

/// What is to be deleted is not opened, nor is what is read-only to write or to delete it, whatever
/// else is asked; nothing changes.
pub proof fn law_guarded_is_refused(
    fs: &mut MemFsHandler,
    path: &Result<Option<PathInfo>, OperationError>,
    inherited: Result<SecurityDescriptor, OperationError>,
    req: CreateRequest,
    now: u64,
    parent_now: u64,
    r: Opened,
    e: usize,
)
    requires
        old(fs)@.wf(),
        leads_to(old(fs)@, *path, e),
        req.create_disposition <= 5,
        !unguarded(old(fs)@, e, req),
        call_ensures(
            MemFsHandler::create_file,
            (fs, path, inherited, req, now, parent_now),
            r,
        ),
    ensures
        ({
            let stat = old(fs)@.entries[e].stat;
            let readonly = stat.attrs & FILE_ATTRIBUTE_READONLY != 0;
            let writes = req.desired_access & FILE_WRITE_DATA != 0 || req.desired_access
                & FILE_APPEND_DATA != 0;
            &&& readonly && writes ==> refused(r, STATUS_ACCESS_DENIED)
            &&& !(readonly && writes) && stat.delete_pending ==> refused(r, STATUS_DELETE_PENDING)
            &&& !(readonly && writes) && !stat.delete_pending ==> refused(r, STATUS_CANNOT_DELETE)
        }),
        final(fs)@ == old(fs)@,
{
}

/// The main stream of an entry is asked for.
pub open spec fn asks_main(name: FullName, is_dir: bool) -> bool {
    name.stream_info is None || (if is_dir {
        name.stream_info->0.on_dir
    } else {
        name.stream_info->0.on_file
    }) == Ok::<bool, OperationError>(true)
}

/// Another stream of an entry than its main one is asked for.
pub open spec fn asks_stream(name: FullName, is_dir: bool) -> bool {
    name.stream_info is Some && (if is_dir {
        name.stream_info->0.on_dir
    } else {
        name.stream_info->0.on_file
    }) == Ok::<bool, OperationError>(false)
}

/// What is there is to be emptied.
pub open spec fn empties(req: CreateRequest) -> bool {
    req.create_disposition == FILE_SUPERSEDE || req.create_disposition == FILE_OVERWRITE
        || req.create_disposition == FILE_OVERWRITE_IF
}

/// A stream that an entry cannot have is refused with the reason that it has.
pub proof fn law_bad_stream_names(
    fs: &mut MemFsHandler,
    path: &Result<Option<PathInfo>, OperationError>,
    inherited: Result<SecurityDescriptor, OperationError>,
    req: CreateRequest,
    now: u64,
    parent_now: u64,
    r: Opened,
    e: usize,
)
    requires
        old(fs)@.wf(),
        leads_to(old(fs)@, *path, e),
        req.create_disposition <= 5,
        unguarded(old(fs)@, e, req),
        call_ensures(
            MemFsHandler::create_file,
            (fs, path, inherited, req, now, parent_now),
            r,
        ),
    ensures
        ({
            let info = path->Ok_0->0.name.stream_info;
            let on_it = if old(fs)@.entries[e].content is Directory {
                info->0.on_dir
            } else {
                info->0.on_file
            };
            info is Some ==> (on_it matches Err(error) ==> {
                &&& r == Err::<CreateFileInfo, OperationError>(error)
                &&& final(fs)@ == old(fs)@
            })
        }),
{
}

/// A file is opened as it is by everyone who asks for something that exists and may be a file, and
/// is left as it is. It is refused as no directory to those who ask for a directory alone, and as
/// taken to those who ask for something new. No other option is looked at.
pub proof fn law_file_opens(
    fs: &mut MemFsHandler,
    path: &Result<Option<PathInfo>, OperationError>,
    inherited: Result<SecurityDescriptor, OperationError>,
    req: CreateRequest,
    now: u64,
    parent_now: u64,
    r: Opened,
    e: usize,
)
    requires
        old(fs)@.wf(),
        leads_to(old(fs)@, *path, e),
        req.create_disposition <= 5,
        unguarded(old(fs)@, e, req),
        old(fs)@.entries[e].content is File,
        asks_main(path->Ok_0->0.name, false),
        call_ensures(
            MemFsHandler::create_file,
            (fs, path, inherited, req, now, parent_now),
            r,
        ),
    ensures
        ({
            let a = old(fs)@;
            let b = final(fs)@;
            let stat = a.entries[e].stat;
            let wants_dir = req.create_options & FILE_DIRECTORY_FILE != 0;
            &&& wants_dir ==> refused(r, STATUS_NOT_A_DIRECTORY)
            &&& !wants_dir && req.create_disposition == FILE_CREATE ==> refused(
                r,
                STATUS_OBJECT_NAME_COLLISION,
            )
            &&& !wants_dir && (req.create_disposition == FILE_OPEN || req.create_disposition
                == FILE_OPEN_IF) && stat.handle_count < u32::MAX ==> {
                &&& gave_handle(
                    a,
                    b,
                    r,
                    e,
                    None,
                    req.create_options & FILE_DELETE_ON_CLOSE != 0,
                )
                &&& !r->Ok_0.is_dir
                &&& !r->Ok_0.new_file_created
                &&& entries_but(a, b, e)
                &&& b.entries[e].content == a.entries[e].content
                &&& b.entries[e].stat == StatView {
                    handle_count: (stat.handle_count + 1) as u32,
                    ..stat
                }
                &&& b.streams == a.streams
                &&& same_numbers(a, b)
            }
            &&& r is Err ==> b == a
        }),
{
    let d = path->Ok_0->0.parent;
    assert(old(fs)@.links(d, folded(path->Ok_0->0.name.file_name@), e));
}

/// A file that is neither to be deleted nor read-only is never refused to those who ask for
/// something that exists and do not ask for a directory, whatever else they ask for.
pub proof fn law_plain_file_is_opened(
    fs: &mut MemFsHandler,
    path: &Result<Option<PathInfo>, OperationError>,
    inherited: Result<SecurityDescriptor, OperationError>,
    req: CreateRequest,
    now: u64,
    parent_now: u64,
    r: Opened,
    e: usize,
)
    requires
        leads_to(old(fs)@, *path, e),
        old(fs)@.entries[e].content is File,
        !old(fs)@.entries[e].stat.delete_pending,
        old(fs)@.entries[e].stat.attrs & FILE_ATTRIBUTE_READONLY == 0,
        asks_main(path->Ok_0->0.name, false),
        req.create_disposition == FILE_OPEN || req.create_disposition == FILE_OPEN_IF,
        req.create_options & FILE_DIRECTORY_FILE == 0,
        call_ensures(
            MemFsHandler::create_file,
            (fs, path, inherited, req, now, parent_now),
            r,
        ),
    ensures
        r is Ok,
        r->Ok_0.is_dir == false,
        r->Ok_0.new_file_created == false,
{
}

/// The refusals of the two kinds are true: a directory is said to be there only where one was found
/// by those who ask for none, and that there is no directory only where a file was found by those
/// who ask for one.
pub proof fn law_kinds_are_told_truly(
    fs: &mut MemFsHandler,
    path: &Result<Option<PathInfo>, OperationError>,
    inherited: Result<SecurityDescriptor, OperationError>,
    req: CreateRequest,
    now: u64,
    parent_now: u64,
    r: Opened,
    status: u32,
)
    requires
        status == STATUS_FILE_IS_A_DIRECTORY || status == STATUS_NOT_A_DIRECTORY,
        *path != Err::<Option<PathInfo>, OperationError>(OperationError::NtStatus(status)),
        inherited != Err::<SecurityDescriptor, OperationError>(OperationError::NtStatus(status)),
        *path matches Ok(Some(found)) ==> (found.name.stream_info matches Some(info) ==> {
            &&& info.on_file != Err::<bool, OperationError>(OperationError::NtStatus(status))
            &&& info.on_dir != Err::<bool, OperationError>(OperationError::NtStatus(status))
        }),
        *path matches Ok(Some(found)) ==> old(fs)@.entries.contains_key(found.parent),
        call_ensures(
            MemFsHandler::create_file,
            (fs, path, inherited, req, now, parent_now),
            r,
        ),
        refused(r, status),
    ensures
        status == STATUS_FILE_IS_A_DIRECTORY ==> {
            &&& req.create_options & FILE_NON_DIRECTORY_FILE != 0
            &&& *path == Ok::<Option<PathInfo>, OperationError>(None) || exists|e: usize|
                leads_to(old(fs)@, *path, e) && old(fs)@.entries[e].content is Directory
        },
        status == STATUS_NOT_A_DIRECTORY ==> {
            &&& req.create_options & FILE_DIRECTORY_FILE != 0
            &&& exists|e: usize|
                leads_to(old(fs)@, *path, e) && old(fs)@.entries[e].content is File
        },
{
    if *path is Ok && path->Ok_0 is Some {
        let found = path->Ok_0->0;
        let names = old(fs)@.entries[found.parent].children();
        let key = folded(found.name.file_name@);
        if names.contains_key(key) {
            assert(leads_to(old(fs)@, *path, names[key].id));
        }
    }
}

/// A file that is overwritten or superseded is emptied and gets the attributes that are asked for,
/// marked as changed since it was last archived, and the time as that of its change. A read-only
/// file can be superseded alone, and a hidden system file only by those who ask for one.
pub proof fn law_file_is_overwritten(
    fs: &mut MemFsHandler,
    path: &Result<Option<PathInfo>, OperationError>,
    inherited: Result<SecurityDescriptor, OperationError>,
    req: CreateRequest,
    now: u64,
    parent_now: u64,
    r: Opened,
    e: usize,
)
    requires
        old(fs)@.wf(),
        leads_to(old(fs)@, *path, e),
        unguarded(old(fs)@, e, req),
        old(fs)@.entries[e].content is File,
        asks_main(path->Ok_0->0.name, false),
        empties(req),
        req.create_options & FILE_DIRECTORY_FILE == 0,
        old(fs)@.entries[e].stat.handle_count < u32::MAX,
        call_ensures(
            MemFsHandler::create_file,
            (fs, path, inherited, req, now, parent_now),
            r,
        ),
    ensures
        ({
            let a = old(fs)@;
            let b = final(fs)@;
            let stat = a.entries[e].stat;
            let readonly = stat.attrs & FILE_ATTRIBUTE_READONLY != 0;
            let hidden_system = stat.attrs & FILE_ATTRIBUTE_HIDDEN != 0 && stat.attrs
                & FILE_ATTRIBUTE_SYSTEM != 0;
            let asked = req.file_attributes & FILE_ATTRIBUTE_HIDDEN != 0 && req.file_attributes
                & FILE_ATTRIBUTE_SYSTEM != 0;
            let allowed = (readonly ==> req.create_disposition == FILE_SUPERSEDE) && (hidden_system
                ==> asked);
            &&& !allowed ==> refused(r, STATUS_ACCESS_DENIED) && b == a
            &&& allowed ==> {
                &&& gave_handle(
                    a,
                    b,
                    r,
                    e,
                    None,
                    req.create_options & FILE_DELETE_ON_CLOSE != 0,
                )
                &&& !r->Ok_0.is_dir
                &&& !r->Ok_0.new_file_created
                &&& entries_but(a, b, e)
                &&& b.entries[e].content == (Content::File { data: Seq::empty() })
                &&& b.entries[e].stat == StatView {
                    attrs: (req.file_attributes | 0x20) & 0x3127,
                    mtime: now,
                    atime: now,
                    handle_count: (stat.handle_count + 1) as u32,
                    ..stat
                }
                &&& b.streams == a.streams
                &&& same_numbers(a, b)
            }
        }),
{
    law_windows_values();
    let d = path->Ok_0->0.parent;
    assert(old(fs)@.links(d, folded(path->Ok_0->0.name.file_name@), e));
}

/// A directory is opened as it is by everyone who asks for something that exists and may be a
/// directory. It is refused as a directory to those who ask for no directory, as taken to those who
/// ask for something new, and is not overwritten.
pub proof fn law_directory_opens(
    fs: &mut MemFsHandler,
    path: &Result<Option<PathInfo>, OperationError>,
    inherited: Result<SecurityDescriptor, OperationError>,
    req: CreateRequest,
    now: u64,
    parent_now: u64,
    r: Opened,
    e: usize,
)
    requires
        old(fs)@.wf(),
        leads_to(old(fs)@, *path, e),
        req.create_disposition <= 5,
        unguarded(old(fs)@, e, req),
        old(fs)@.entries[e].content is Directory,
        asks_main(path->Ok_0->0.name, true),
        old(fs)@.entries[e].stat.handle_count < u32::MAX,
        call_ensures(
            MemFsHandler::create_file,
            (fs, path, inherited, req, now, parent_now),
            r,
        ),
    ensures
        ({
            let a = old(fs)@;
            let b = final(fs)@;
            let stat = a.entries[e].stat;
            let no_dir = req.create_options & FILE_NON_DIRECTORY_FILE != 0;
            &&& no_dir ==> refused(r, STATUS_FILE_IS_A_DIRECTORY)
            &&& !no_dir && req.create_disposition == FILE_CREATE ==> refused(
                r,
                STATUS_OBJECT_NAME_COLLISION,
            )
            &&& !no_dir && empties(req) ==> refused(r, STATUS_INVALID_PARAMETER)
            &&& !no_dir && (req.create_disposition == FILE_OPEN || req.create_disposition
                == FILE_OPEN_IF) ==> {
                &&& gave_handle(
                    a,
                    b,
                    r,
                    e,
                    None,
                    req.create_options & FILE_DELETE_ON_CLOSE != 0,
                )
                &&& r->Ok_0.is_dir
                &&& !r->Ok_0.new_file_created
                &&& entries_but(a, b, e)
                &&& b.entries[e].content == a.entries[e].content
                &&& b.entries[e].stat == StatView {
                    handle_count: (stat.handle_count + 1) as u32,
                    ..stat
                }
                &&& b.streams == a.streams
                &&& same_numbers(a, b)
            }
            &&& r is Err ==> b == a
        }),
{
    let d = path->Ok_0->0.parent;
    assert(old(fs)@.links(d, folded(path->Ok_0->0.name.file_name@), e));
}

/// A stream that is there is opened unless it is to be deleted, and refused as taken to those who
/// ask for something new. Overwriting empties it and counts as a change of its entry, and is
/// refused on a read-only one but for superseding. The bytes of the entry and of other streams
/// stay.
pub proof fn law_stream_opens(
    fs: &mut MemFsHandler,
    path: &Result<Option<PathInfo>, OperationError>,
    inherited: Result<SecurityDescriptor, OperationError>,
    req: CreateRequest,
    now: u64,
    parent_now: u64,
    r: Opened,
    e: usize,
    s: usize,
)
    requires
        old(fs)@.wf(),
        leads_to(old(fs)@, *path, e),
        req.create_disposition <= 5,
        unguarded(old(fs)@, e, req),
        asks_stream(path->Ok_0->0.name, old(fs)@.entries[e].content is Directory),
        old(fs)@.owns(e, folded(path->Ok_0->0.name.stream_info->0.name@), s),
        old(fs)@.entries[e].stat.handle_count < u32::MAX,
        call_ensures(
            MemFsHandler::create_file,
            (fs, path, inherited, req, now, parent_now),
            r,
        ),
    ensures
        ({
            let a = old(fs)@;
            let b = final(fs)@;
            let stat = a.entries[e].stat;
            let pending = a.streams[s].delete_pending;
            let denied = empties(req) && req.create_disposition != FILE_SUPERSEDE && stat.attrs
                & FILE_ATTRIBUTE_READONLY != 0;
            let taken = req.create_disposition == FILE_CREATE;
            &&& pending ==> refused(r, STATUS_DELETE_PENDING)
            &&& !pending && denied ==> refused(r, STATUS_ACCESS_DENIED)
            &&& !pending && taken ==> refused(r, STATUS_OBJECT_NAME_COLLISION)
            &&& !pending && !denied && !taken ==> {
                &&& gave_handle(
                    a,
                    b,
                    r,
                    e,
                    Some(s),
                    req.create_options & FILE_DELETE_ON_CLOSE != 0,
                )
                &&& !r->Ok_0.is_dir
                &&& !r->Ok_0.new_file_created
                &&& entries_but(a, b, e)
                &&& b.entries[e].content == a.entries[e].content
                &&& b.entries[e].stat == if empties(req) {
                    StatView {
                        attrs: stat.attrs | FILE_ATTRIBUTE_ARCHIVE,
                        mtime: now,
                        atime: now,
                        handle_count: (stat.handle_count + 1) as u32,
                        ..stat
                    }
                } else {
                    StatView { handle_count: (stat.handle_count + 1) as u32, ..stat }
                }
                &&& streams_but(a, b, s)
                &&& b.streams[s] == StreamView {
                    handle_count: (a.streams[s].handle_count + 1) as u32,
                    delete_pending: false,
                    data: if empties(req) {
                        Seq::empty()
                    } else {
                        a.streams[s].data
                    },
                }
                &&& same_numbers(a, b)
            }
            &&& r is Err ==> b == a
        }),
{
    let d = path->Ok_0->0.parent;
    assert(old(fs)@.links(d, folded(path->Ok_0->0.name.file_name@), e));
}

/// A stream that is not there is made, empty, for those who do not ask for an existing one, unless
/// the entry is read-only; the entry counts as accessed.
pub proof fn law_stream_is_made(
    fs: &mut MemFsHandler,
    path: &Result<Option<PathInfo>, OperationError>,
    inherited: Result<SecurityDescriptor, OperationError>,
    req: CreateRequest,
    now: u64,
    parent_now: u64,
    r: Opened,
    e: usize,
)
    requires
        old(fs)@.wf(),
        leads_to(old(fs)@, *path, e),
        req.create_disposition <= 5,
        unguarded(old(fs)@, e, req),
        asks_stream(path->Ok_0->0.name, old(fs)@.entries[e].content is Directory),
        !old(fs)@.entries[e].stat.alt_streams.contains_key(
            folded(path->Ok_0->0.name.stream_info->0.name@),
        ),
        old(fs)@.entries[e].stat.handle_count < u32::MAX,
        call_ensures(
            MemFsHandler::create_file,
            (fs, path, inherited, req, now, parent_now),
            r,
        ),
    ensures
        ({
            let a = old(fs)@;
            let b = final(fs)@;
            let stat = a.entries[e].stat;
            let name = path->Ok_0->0.name.stream_info->0.name@;
            let s = a.next_stream as usize;
            let existing = req.create_disposition == FILE_OPEN || req.create_disposition
                == FILE_OVERWRITE;
            let readonly = stat.attrs & FILE_ATTRIBUTE_READONLY != 0;
            &&& existing ==> refused(r, STATUS_OBJECT_NAME_NOT_FOUND)
            &&& !existing && readonly ==> refused(r, STATUS_ACCESS_DENIED)
            &&& !existing && !readonly ==> {
                &&& gave_handle(
                    a,
                    b,
                    r,
                    e,
                    Some(s),
                    req.create_options & FILE_DELETE_ON_CLOSE != 0,
                )
                &&& !r->Ok_0.is_dir
                &&& r->Ok_0.new_file_created
                &&& entries_but(a, b, e)
                &&& b.entries[e].content == a.entries[e].content
                &&& b.entries[e].stat == StatView {
                    atime: now,
                    handle_count: (stat.handle_count + 1) as u32,
                    alt_streams: stat.alt_streams.insert(folded(name), Link { name, id: s }),
                    ..stat
                }
                &&& !a.streams.contains_key(s)
                &&& b.streams == a.streams.insert(
                    s,
                    StreamView { handle_count: 1, delete_pending: false, data: Seq::empty() },
                )
                &&& b.id_counter == a.id_counter
                &&& b.next_entry == a.next_entry
                &&& b.next_stream == a.next_stream + 1
            }
            &&& r is Err ==> b == a
        }),
{
    let d = path->Ok_0->0.parent;
    let b = final(fs)@;
    let a = old(fs)@;
    assert(a.links(d, folded(path->Ok_0->0.name.file_name@), e));
    if r is Ok {
        assert(b.streams =~= a.streams.insert(
            a.next_stream as usize,
            StreamView { handle_count: 1, delete_pending: false, data: Seq::empty() },
        ));
    }
}

/// The path leads to a name that a directory does not hold.
pub open spec fn leads_past(fs: FsView, path: Result<Option<PathInfo>, OperationError>) -> bool {
    &&& path is Ok
    &&& path->Ok_0 is Some
    &&& fs.entries.contains_key(path->Ok_0->0.parent)
    &&& fs.entries[path->Ok_0->0.parent].content is Directory
    &&& !fs.entries[path->Ok_0->0.parent].children().contains_key(
        folded(path->Ok_0->0.name.file_name@),
    )
}

/// The attributes that something new is asked to have.
pub open spec fn asked_attributes(req: CreateRequest) -> u32 {
    if req.create_options & FILE_DIRECTORY_FILE != 0 {
        req.file_attributes
    } else {
        req.file_attributes | FILE_ATTRIBUTE_ARCHIVE
    }
}

/// A name that is not there is refused where the directory is to be deleted, and to those who ask
/// for something that exists. A directory is made for those who ask for one, new or if need be; it
/// is not overwritten. Something new that is read-only is not to be deleted on closing.
pub proof fn law_missing_is_refused(
    fs: &mut MemFsHandler,
    path: &Result<Option<PathInfo>, OperationError>,
    inherited: Result<SecurityDescriptor, OperationError>,
    req: CreateRequest,
    now: u64,
    parent_now: u64,
    r: Opened,
)
    requires
        leads_past(old(fs)@, *path),
        req.create_disposition <= 5,
        call_ensures(
            MemFsHandler::create_file,
            (fs, path, inherited, req, now, parent_now),
            r,
        ),
    ensures
        ({
            let pending = old(fs)@.entries[path->Ok_0->0.parent].stat.delete_pending;
            let wants_dir = req.create_options & FILE_DIRECTORY_FILE != 0;
            let disposition = req.create_disposition;
            let missing = disposition == FILE_OPEN || (!wants_dir && disposition
                == FILE_OVERWRITE);
            let over = wants_dir && empties(req);
            let fleeting = asked_attributes(req) & FILE_ATTRIBUTE_READONLY != 0
                && req.create_options & FILE_DELETE_ON_CLOSE != 0;
            &&& pending ==> refused(r, STATUS_DELETE_PENDING)
            &&& !pending && missing ==> refused(r, STATUS_OBJECT_NAME_NOT_FOUND)
            &&& !pending && over ==> refused(r, STATUS_INVALID_PARAMETER)
            &&& !pending && !missing && !over && fleeting ==> refused(r, STATUS_CANNOT_DELETE)
            &&& pending || missing || over || fleeting ==> final(fs)@ == old(fs)@
        }),
{
}

/// Something new can be made under a path.
pub open spec fn makes(fs: FsView, path: PathInfo, req: CreateRequest) -> bool {
    let wants_dir = req.create_options & FILE_DIRECTORY_FILE != 0;
    &&& !fs.entries[path.parent].stat.delete_pending
    &&& wants_dir ==> req.create_disposition == FILE_CREATE || req.create_disposition
        == FILE_OPEN_IF
    &&& !wants_dir ==> req.create_disposition != FILE_OPEN && req.create_disposition
        != FILE_OVERWRITE
    &&& asked_attributes(req) & FILE_ATTRIBUTE_READONLY == 0 || req.create_options
        & FILE_DELETE_ON_CLOSE == 0
}

/// Something new that cannot inherit, or cannot have the stream that is asked for, is not made;
/// only its identifier is used up.
pub proof fn law_making_fails(
    fs: &mut MemFsHandler,
    path: &Result<Option<PathInfo>, OperationError>,
    inherited: Result<SecurityDescriptor, OperationError>,
    req: CreateRequest,
    now: u64,
    parent_now: u64,
    r: Opened,
)
    requires
        leads_past(old(fs)@, *path),
        req.create_disposition <= 5,
        makes(old(fs)@, path->Ok_0->0, req),
        call_ensures(
            MemFsHandler::create_file,
            (fs, path, inherited, req, now, parent_now),
            r,
        ),
    ensures
        ({
            let a = old(fs)@;
            let b = final(fs)@;
            let info = path->Ok_0->0.name.stream_info;
            let on_it = if req.create_options & FILE_DIRECTORY_FILE != 0 {
                info->0.on_dir
            } else {
                info->0.on_file
            };
            &&& inherited matches Err(error) ==> r == Err::<CreateFileInfo, OperationError>(error)
            &&& inherited is Ok && info is Some ==> (on_it matches Err(error) ==> r == Err::<
                CreateFileInfo,
                OperationError,
            >(error))
            &&& r is Err ==> {
                &&& b.id_counter == (a.id_counter + 1) % 0x1_0000_0000_0000_0000
                &&& b.entries == a.entries
                &&& b.streams == a.streams
                &&& b.handles == a.handles
                &&& b.next_entry == a.next_entry
                &&& b.next_stream == a.next_stream
            }
        }),
{
}

/// Something new is made as asked for: a directory or a file, empty, with the supported attributes,
/// the inherited security descriptor, the next identifier and the time; it is put into its
/// directory under its name as it is spelled, and the directory counts as changed. The handle is on
/// it, or on the stream that is made with it. A new directory is reported as one only with a
/// stream.
pub proof fn law_entry_is_made(
    fs: &mut MemFsHandler,
    path: &Result<Option<PathInfo>, OperationError>,
    inherited: Result<SecurityDescriptor, OperationError>,
    req: CreateRequest,
    now: u64,
    parent_now: u64,
    r: Opened,
)
    requires
        old(fs)@.wf(),
        leads_past(old(fs)@, *path),
        req.create_disposition <= 5,
        makes(old(fs)@, path->Ok_0->0, req),
        inherited is Ok,
        ({
            let wants_dir = req.create_options & FILE_DIRECTORY_FILE != 0;
            asks_main(path->Ok_0->0.name, wants_dir) || asks_stream(
                path->Ok_0->0.name,
                wants_dir,
            )
        }),
        call_ensures(
            MemFsHandler::create_file,
            (fs, path, inherited, req, now, parent_now),
            r,
        ),
    ensures
        ({
            let a = old(fs)@;
            let b = final(fs)@;
            let d = path->Ok_0->0.parent;
            let name = path->Ok_0->0.name.file_name@;
            let wants_dir = req.create_options & FILE_DIRECTORY_FILE != 0;
            let e = a.next_entry as usize;
            let s = a.next_stream as usize;
            let stream = asks_stream(path->Ok_0->0.name, wants_dir);
            let stream_name = path->Ok_0->0.name.stream_info->0.name@;
            &&& gave_handle(
                a,
                b,
                r,
                e,
                if stream {
                    Some(s)
                } else {
                    None
                },
                req.create_options & FILE_DELETE_ON_CLOSE != 0,
            )
            &&& r->Ok_0.is_dir == (wants_dir && stream)
            &&& r->Ok_0.new_file_created
            &&& !a.entries.contains_key(e)
            &&& b.entries.dom() =~= a.entries.dom().insert(e)
            &&& forall|x: usize| x != d && a.entries.contains_key(x) ==> #[trigger] b.entries[x]
                == a.entries[x]
            &&& b.entries[d].stat == StatView {
                mtime: parent_now,
                atime: parent_now,
                ..a.entries[d].stat
            }
            &&& b.entries[d].content == (Content::Directory {
                children: a.entries[d].children().insert(folded(name), Link { name, id: e }),
            })
            &&& b.entries[e].content == if wants_dir {
                Content::Directory { children: Map::empty() }
            } else {
                Content::File { data: Seq::empty() }
            }
            &&& b.entries[e].stat == StatView {
                id: a.id_counter,
                attrs: asked_attributes(req) & 0x3127,
                ctime: now,
                mtime: now,
                atime: now,
                sec_desc: inherited->Ok_0.bytes@,
                handle_count: 1,
                delete_pending: false,
                parent: Some(d),
                alt_streams: if stream {
                    Map::empty().insert(folded(stream_name), Link { name: stream_name, id: s })
                } else {
                    Map::empty()
                },
            }
            &&& b.streams == if stream {
                a.streams.insert(
                    s,
                    StreamView { handle_count: 1, delete_pending: false, data: Seq::empty() },
                )
            } else {
                a.streams
            }
            &&& b.id_counter == (a.id_counter + 1) % 0x1_0000_0000_0000_0000
            &&& b.next_entry == a.next_entry + 1
            &&& b.next_stream == if stream {
                a.next_stream + 1
            } else {
                a.next_stream
            }
        }),
{
    law_windows_values();
    let a = old(fs)@;
    let b = final(fs)@;
    let wants_dir = req.create_options & FILE_DIRECTORY_FILE != 0;
    let stream = asks_stream(path->Ok_0->0.name, wants_dir);
    let s = a.next_stream as usize;
    assert(!a.entries.contains_key(a.next_entry as usize));
    if stream {
        assert(b.streams =~= a.streams.insert(
            s,
            StreamView { handle_count: 1, delete_pending: false, data: Seq::empty() },
        ));
    }
}

/// Whether a request makes something new is told beforehand: just then an identifier is used up.
pub proof fn law_creation_is_foretold(
    before: &MemFsHandler,
    fs: &mut MemFsHandler,
    path: &Result<Option<PathInfo>, OperationError>,
    inherited: Result<SecurityDescriptor, OperationError>,
    req: CreateRequest,
    now: u64,
    parent_now: u64,
    creates: bool,
    r: Opened,
)
    requires
        old(fs)@.wf(),
        before@ == old(fs)@,
        path matches Ok(Some(p)) ==> leads_past(old(fs)@, *path) || exists|e: usize|
            leads_to(old(fs)@, *path, e),
        call_ensures(MemFsHandler::creates_entry, (before, path, req), creates),
        call_ensures(
            MemFsHandler::create_file,
            (fs, path, inherited, req, now, parent_now),
            r,
        ),
    ensures
        creates == (final(fs)@.id_counter != old(fs)@.id_counter),
        creates && r is Ok ==> r->Ok_0.new_file_created,
{
}

} // verus!
