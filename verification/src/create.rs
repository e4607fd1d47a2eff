//! Opening and creating.
use vstd::prelude::*;

use crate::attributes::{
    has, has_flag, lemma_archive_supported, lemma_masked_supported, Attributes,
    FILE_ATTRIBUTE_ARCHIVE, FILE_ATTRIBUTE_HIDDEN, FILE_ATTRIBUTE_READONLY, FILE_ATTRIBUTE_SYSTEM,
    SUPPORTED_ATTRS,
};
use crate::entry::{AltStream, Content, DirEntry, Entry, EntryView, FileEntry};
use crate::entry::{SecurityDescriptor, Stat, StatView, StreamView};
use crate::keep::{lemma_new_entry, lemma_new_stream, lemma_same_shape};
use crate::memfs::MemFsHandler;
use crate::model::{FsView, ROOT};
use crate::name::{folded, no_nul, EntryName, EntryNameRef};
use crate::path::{FullName, PathInfo, StreamInfo};
use crate::status::{
    nt_res, OperationError, STATUS_ACCESS_DENIED, STATUS_CANNOT_DELETE, STATUS_DELETE_PENDING,
    STATUS_FILE_IS_A_DIRECTORY, STATUS_INVALID_PARAMETER, STATUS_NOT_A_DIRECTORY,
    STATUS_OBJECT_NAME_COLLISION, STATUS_OBJECT_NAME_NOT_FOUND,
};

verus! {

pub const FILE_SUPERSEDE: u32 = 0;

pub const FILE_OPEN: u32 = 1;

pub const FILE_CREATE: u32 = 2;

pub const FILE_OPEN_IF: u32 = 3;

pub const FILE_OVERWRITE: u32 = 4;

pub const FILE_OVERWRITE_IF: u32 = 5;

pub const FILE_MAXIMUM_DISPOSITION: u32 = 5;

pub const FILE_DIRECTORY_FILE: u32 = 0x00000001;

pub const FILE_NON_DIRECTORY_FILE: u32 = 0x00000040;

pub const FILE_DELETE_ON_CLOSE: u32 = 0x00001000;

pub const FILE_WRITE_DATA: u32 = 0x0002;

pub const FILE_APPEND_DATA: u32 = 0x0004;

/// What an opener asks for.
#[derive(Clone, Copy, Debug)]
pub struct CreateRequest {
    pub desired_access: u32,
    pub file_attributes: u32,
    pub create_disposition: u32,
    pub create_options: u32,
    /// The flag that the driver keeps beside the options; it counts for the root directory.
    pub info_delete_on_close: bool,
}

impl CreateRequest {
    pub open spec fn writes(self) -> bool {
        has(self.desired_access, FILE_WRITE_DATA) || has(self.desired_access, FILE_APPEND_DATA)
    }

    pub open spec fn delete_on_close(self) -> bool {
        has(self.create_options, FILE_DELETE_ON_CLOSE)
    }

    /// What is there already is to be emptied.
    pub open spec fn overwrites(self) -> bool {
        ||| self.create_disposition == FILE_SUPERSEDE
        ||| self.create_disposition == FILE_OVERWRITE
        ||| self.create_disposition == FILE_OVERWRITE_IF
    }

    /// Nothing new is to be made.
    pub open spec fn only_existing(self) -> bool {
        self.create_disposition == FILE_OPEN || self.create_disposition == FILE_OVERWRITE
    }

    /// Something new is to be a directory.
    pub open spec fn wants_dir(self) -> bool {
        has(self.create_options, FILE_DIRECTORY_FILE)
    }

    /// The attributes that something new is asked to have.
    pub open spec fn new_attrs(self) -> u32 {
        if self.wants_dir() {
            self.file_attributes
        } else {
            self.file_attributes | FILE_ATTRIBUTE_ARCHIVE
        }
    }

    /// Something new is to be read-only, and gone when it is closed.
    pub open spec fn deletes_readonly(self) -> bool {
        has(self.new_attrs(), FILE_ATTRIBUTE_READONLY) && self.delete_on_close()
    }

    /// The request does not name the attributes of a hidden system file as its own.
    pub open spec fn misses_hidden_system(self, attrs: u32) -> bool {
        &&& has(attrs, FILE_ATTRIBUTE_HIDDEN)
        &&& has(attrs, FILE_ATTRIBUTE_SYSTEM)
        &&& !(has(self.file_attributes, FILE_ATTRIBUTE_HIDDEN) && has(
            self.file_attributes,
            FILE_ATTRIBUTE_SYSTEM,
        ))
    }
}

/// A handle that was opened.
#[derive(Clone, Copy, Debug, PartialEq, Eq, Structural)]
pub struct CreateFileInfo {
    /// The number of the handle.
    pub context: usize,
    pub is_dir: bool,
    pub new_file_created: bool,
}

pub open spec fn refuse(status: u32) -> Option<OperationError> {
    Some(OperationError::NtStatus(status))
}

/// Why an entry with `stat` is not opened at all.
pub open spec fn entry_refusal(stat: StatView, req: CreateRequest) -> Option<OperationError> {
    let readonly = has(stat.attrs, FILE_ATTRIBUTE_READONLY);
    if readonly && req.writes() {
        refuse(STATUS_ACCESS_DENIED)
    } else if stat.delete_pending {
        refuse(STATUS_DELETE_PENDING)
    } else if readonly && req.delete_on_close() {
        refuse(STATUS_CANNOT_DELETE)
    } else {
        None
    }
}

/// Why the stream `name` of entry `e` is not opened.
pub open spec fn stream_refusal(
    fs: FsView,
    e: usize,
    name: Seq<u16>,
    req: CreateRequest,
) -> Option<OperationError> {
    let stat = fs.entries[e].stat;
    let readonly = has(stat.attrs, FILE_ATTRIBUTE_READONLY);
    if stat.alt_streams.contains_key(folded(name)) {
        if fs.streams[stat.alt_streams[folded(name)].id].delete_pending {
            refuse(STATUS_DELETE_PENDING)
        } else if req.overwrites() && req.create_disposition != FILE_SUPERSEDE && readonly {
            refuse(STATUS_ACCESS_DENIED)
        } else if req.create_disposition == FILE_CREATE {
            refuse(STATUS_OBJECT_NAME_COLLISION)
        } else {
            None
        }
    } else if req.only_existing() {
        refuse(STATUS_OBJECT_NAME_NOT_FOUND)
    } else if readonly {
        refuse(STATUS_ACCESS_DENIED)
    } else {
        None
    }
}

/// Why `entry` itself, its main stream, is not opened.
pub open spec fn main_refusal(entry: EntryView, req: CreateRequest) -> Option<OperationError> {
    let readonly = has(entry.stat.attrs, FILE_ATTRIBUTE_READONLY);
    if entry.is_dir() {
        if has(req.create_options, FILE_NON_DIRECTORY_FILE) {
            refuse(STATUS_FILE_IS_A_DIRECTORY)
        } else if req.create_disposition == FILE_OPEN || req.create_disposition == FILE_OPEN_IF {
            None
        } else if req.create_disposition == FILE_CREATE {
            refuse(STATUS_OBJECT_NAME_COLLISION)
        } else {
            refuse(STATUS_INVALID_PARAMETER)
        }
    } else if has(req.create_options, FILE_DIRECTORY_FILE) {
        refuse(STATUS_NOT_A_DIRECTORY)
    } else if req.overwrites() && (req.create_disposition != FILE_SUPERSEDE && readonly
        || req.misses_hidden_system(entry.stat.attrs)) {
        refuse(STATUS_ACCESS_DENIED)
    } else if req.create_disposition == FILE_CREATE {
        refuse(STATUS_OBJECT_NAME_COLLISION)
    } else {
        None
    }
}

/// Whether `stream_info` asks for the main stream, or why it cannot be had.
pub open spec fn main_stream(stream_info: Option<StreamInfo>, is_dir: bool) -> Result<
    bool,
    OperationError,
> {
    match stream_info {
        Some(info) => info.default_on(is_dir),
        None => Ok(true),
    }
}

/// Why the existing entry `e` is not opened.
pub open spec fn open_refusal(
    fs: FsView,
    e: usize,
    stream_info: Option<StreamInfo>,
    req: CreateRequest,
) -> Option<OperationError> {
    let entry = fs.entries[e];
    if entry_refusal(entry.stat, req) is Some {
        entry_refusal(entry.stat, req)
    } else {
        match main_stream(stream_info, entry.is_dir()) {
            Err(error) => Some(error),
            Ok(true) => main_refusal(entry, req),
            Ok(false) => stream_refusal(fs, e, stream_info->0.name@, req),
        }
    }
}

/// Handle `h` opened on stream `name` of entry `e`, which is emptied or made on the way.
pub open spec fn stream_opened(
    fs: FsView,
    e: usize,
    name: Seq<u16>,
    req: CreateRequest,
    now: u64,
    h: usize,
) -> FsView {
    let stat = fs.entries[e].stat;
    if stat.alt_streams.contains_key(folded(name)) {
        let s = stat.alt_streams[folded(name)].id;
        let fs = if req.overwrites() {
            fs.with_stat(
                e,
                StatView { attrs: stat.attrs | FILE_ATTRIBUTE_ARCHIVE, ..stat }.modified(now),
            ).with_stream(s, StreamView { data: Seq::empty(), ..fs.streams[s] })
        } else {
            fs
        };
        fs.opened(h, e, Some(s), req.delete_on_close())
    } else {
        fs.with_stat(e, stat.accessed(now)).with_new_stream(e, name).opened(
            h,
            e,
            Some(fs.next_stream as usize),
            req.delete_on_close(),
        )
    }
}

/// Handle `h` opened on entry `e` itself, which is emptied on the way if asked for.
pub open spec fn main_opened(fs: FsView, e: usize, req: CreateRequest, now: u64, h: usize) -> FsView {
    let entry = fs.entries[e];
    let fs = if !entry.is_dir() && req.overwrites() {
        fs.with_data(e, Seq::empty()).with_stat(
            e,
            StatView {
                attrs: (req.file_attributes | FILE_ATTRIBUTE_ARCHIVE) & SUPPORTED_ATTRS,
                ..entry.stat
            }.modified(now),
        )
    } else {
        fs
    };
    fs.opened(h, e, None, req.delete_on_close())
}

/// Whether a request for a name that directory `d` does not hold gets as far as making an entry.
pub open spec fn makes_new(fs: FsView, d: usize, req: CreateRequest) -> bool {
    &&& !fs.entries[d].stat.delete_pending
    &&& if req.wants_dir() {
        req.create_disposition == FILE_CREATE || req.create_disposition == FILE_OPEN_IF
    } else {
        !req.only_existing()
    }
}

/// Why no new entry is made in directory `d`.
pub open spec fn missing_refusal(
    fs: FsView,
    d: usize,
    name: FullName,
    inherited: Result<SecurityDescriptor, OperationError>,
    req: CreateRequest,
) -> Option<OperationError> {
    if fs.entries[d].stat.delete_pending {
        refuse(STATUS_DELETE_PENDING)
    } else if !makes_new(fs, d, req) {
        if req.create_disposition == FILE_OPEN || !req.wants_dir() {
            refuse(STATUS_OBJECT_NAME_NOT_FOUND)
        } else {
            refuse(STATUS_INVALID_PARAMETER)
        }
    } else if req.deletes_readonly() {
        refuse(STATUS_CANNOT_DELETE)
    } else {
        match (inherited, main_stream(name.stream_info, req.wants_dir())) {
            (Err(error), _) => Some(error),
            (_, Err(error)) => Some(error),
            _ => None,
        }
    }
}

/// A new entry in directory `d`, and handle `h` opened on it or on the stream that was asked for.
pub open spec fn new_opened(
    fs: FsView,
    d: usize,
    name: FullName,
    sec_desc: Seq<u8>,
    req: CreateRequest,
    now: u64,
    parent_now: u64,
    h: usize,
) -> FsView {
    let is_dir = req.wants_dir();
    let e = fs.next_entry as usize;
    let entry = EntryView {
        stat: StatView::fresh(fs.id_counter, req.new_attrs(), sec_desc, Some(d), now),
        content: if is_dir {
            Content::Directory { children: Map::empty() }
        } else {
            Content::File { data: Seq::empty() }
        },
    };
    let fs = fs.with_id_spent().with_new_entry(d, name.file_name@, entry);
    let fs = fs.with_stat(d, fs.entries[d].stat.modified(parent_now));
    if main_stream(name.stream_info, is_dir) == Ok::<bool, OperationError>(false) {
        fs.with_new_stream(e, name.stream_info->0.name@).opened(
            h,
            e,
            Some(fs.next_stream as usize),
            req.delete_on_close(),
        )
    } else {
        fs.opened(h, e, None, req.delete_on_close())
    }
}

/// The entry that directory `d` holds under `name`.
pub open spec fn found(fs: FsView, d: usize, name: Seq<u16>) -> Option<usize> {
    if fs.entries[d].children().contains_key(folded(name)) {
        Some(fs.entries[d].children()[folded(name)].id)
    } else {
        None
    }
}

/// Why the root directory is not opened.
pub open spec fn root_refusal(req: CreateRequest) -> Option<OperationError> {
    if req.create_disposition != FILE_OPEN && req.create_disposition != FILE_OPEN_IF {
        refuse(STATUS_INVALID_PARAMETER)
    } else if has(req.create_options, FILE_NON_DIRECTORY_FILE) {
        refuse(STATUS_FILE_IS_A_DIRECTORY)
    } else {
        None
    }
}

/// Why a request is refused. `path` is where the path of the request leads: nowhere, to the root
/// directory, or to a name in a directory.
pub open spec fn create_refusal(
    fs: FsView,
    path: Result<Option<PathInfo>, OperationError>,
    inherited: Result<SecurityDescriptor, OperationError>,
    req: CreateRequest,
) -> Option<OperationError> {
    if req.create_disposition > FILE_MAXIMUM_DISPOSITION {
        refuse(STATUS_INVALID_PARAMETER)
    } else {
        match path {
            Err(error) => Some(error),
            Ok(Some(path)) => match found(fs, path.parent, path.name.file_name@) {
                Some(e) => open_refusal(fs, e, path.name.stream_info, req),
                None => missing_refusal(fs, path.parent, path.name, inherited, req),
            },
            Ok(None) => root_refusal(req),
        }
    }
}

/// Whether a request makes a new entry, as far as the file system itself has a say.
pub open spec fn wants_new(
    fs: FsView,
    path: Result<Option<PathInfo>, OperationError>,
    req: CreateRequest,
) -> bool {
    &&& req.create_disposition <= FILE_MAXIMUM_DISPOSITION
    &&& path matches Ok(Some(path))
    &&& found(fs, path.parent, path.name.file_name@) is None
    &&& makes_new(fs, path.parent, req)
    &&& !req.deletes_readonly()
}

/// The file system after a request that was not refused and got handle `h`.
pub open spec fn created(
    fs: FsView,
    path: Option<PathInfo>,
    sec_desc: Seq<u8>,
    req: CreateRequest,
    now: u64,
    parent_now: u64,
    h: usize,
) -> FsView {
    match path {
        Some(path) => match found(fs, path.parent, path.name.file_name@) {
            Some(e) => if main_stream(path.name.stream_info, fs.entries[e].is_dir()) == Ok::<
                bool,
                OperationError,
            >(false) {
                stream_opened(fs, e, path.name.stream_info->0.name@, req, now, h)
            } else {
                main_opened(fs, e, req, now, h)
            },
            None => new_opened(
                fs,
                path.parent,
                path.name,
                sec_desc,
                req,
                now,
                parent_now,
                h,
            ),
        },
        None => fs.opened(h, ROOT, None, req.info_delete_on_close),
    }
}

/// What the opener learns beside the handle: whether it is on a directory, and whether the entry
/// or stream is new. A new directory is reported as one only with a stream of it.
pub open spec fn created_kind(fs: FsView, path: Option<PathInfo>, req: CreateRequest) -> (
    bool,
    bool,
) {
    match path {
        Some(path) => match found(fs, path.parent, path.name.file_name@) {
            Some(e) => if main_stream(path.name.stream_info, fs.entries[e].is_dir()) == Ok::<
                bool,
                OperationError,
            >(false) {
                (
                    false,
                    !fs.entries[e].stat.alt_streams.contains_key(
                        folded(path.name.stream_info->0.name@),
                    ),
                )
            } else {
                (fs.entries[e].is_dir(), false)
            },
            None => (
                req.wants_dir() && main_stream(path.name.stream_info, true) == Ok::<
                    bool,
                    OperationError,
                >(false),
                true,
            ),
        },
        None => (true, false),
    }
}

/// What a path leads to is there, and the names in it can be handed out again.
pub open spec fn path_valid(fs: FsView, path: Result<Option<PathInfo>, OperationError>) -> bool {
    path matches Ok(Some(path)) ==> {
        &&& fs.entries.contains_key(path.parent)
        &&& fs.entries[path.parent].is_dir()
        &&& path.name.valid()
    }
}

/// One more handle on what a path leads to can be counted.
pub open spec fn count_fits(fs: FsView, path: Result<Option<PathInfo>, OperationError>) -> bool {
    match path {
        Ok(Some(path)) => found(fs, path.parent, path.name.file_name@) matches Some(e)
            ==> fs.has_handle_room(e),
        Ok(None) => fs.has_handle_room(ROOT),
        Err(_) => true,
    }
}

/// Either one more handle can be counted, as `r` says, or the request is refused whatever a new
/// entry would inherit.
pub open spec fn counts_or_refuses(
    fs: FsView,
    path: Result<Option<PathInfo>, OperationError>,
    req: CreateRequest,
    r: bool,
) -> bool {
    forall|inherited: Result<SecurityDescriptor, OperationError>|
        r == (#[trigger] create_refusal(fs, path, inherited, req) is None ==> count_fits(fs, path))
}

/// Whether the root directory can be opened.
fn check_root(req: CreateRequest) -> (r: Result<(), OperationError>)
    ensures
        match root_refusal(req) {
            Some(error) => r == Err::<(), OperationError>(error),
            None => r is Ok,
        },
{
    if req.create_disposition != FILE_OPEN && req.create_disposition != FILE_OPEN_IF {
        return nt_res(STATUS_INVALID_PARAMETER);
    }
    if has_flag(req.create_options, FILE_NON_DIRECTORY_FILE) {
        return nt_res(STATUS_FILE_IS_A_DIRECTORY);
    }
    Ok(())
}

impl MemFsHandler {
    /// Whether one more handle on what a path leads to can be counted, for a request that is not
    /// refused.
    pub fn can_open(
        &self,
        path: &Result<Option<PathInfo>, OperationError>,
        req: CreateRequest,
    ) -> (r: bool)
        requires
            self@.wf(),
            path_valid(self@, *path),
        ensures
            counts_or_refuses(self@, *path, req, r),
    {
        if req.create_disposition > FILE_MAXIMUM_DISPOSITION {
            return true;
        }
        match path {
            Ok(Some(path)) => match self.lookup(path.parent, path.name.file_name.as_slice()) {
                Some(e) => {
                    proof {
                        assert(self@.links(path.parent, folded(path.name.file_name@), e));
                    }
                    self.stat(e).handle_count < u32::MAX || self.check_open(
                        e,
                        &path.name.stream_info,
                        req,
                    ).is_err()
                },
                None => true,
            },
            Ok(None) => self.stat(ROOT).handle_count < u32::MAX || check_root(req).is_err(),
            Err(_) => true,
        }
    }

    /// Whether a request makes a new entry. Only then does [`MemFsHandler::create_file`] look at
    /// what the new entry would inherit.
    pub fn creates_entry(
        &self,
        path: &Result<Option<PathInfo>, OperationError>,
        req: CreateRequest,
    ) -> (r: bool)
        requires
            self@.wf(),
            path_valid(self@, *path),
        ensures
            r == wants_new(self@, *path, req),
    {
        if req.create_disposition > FILE_MAXIMUM_DISPOSITION {
            return false;
        }
        match path {
            Ok(Some(path)) => {
                if self.lookup(path.parent, path.name.file_name.as_slice()).is_some() {
                    return false;
                }
                if self.stat(path.parent).delete_pending {
                    return false;
                }
                let is_dir = has_flag(req.create_options, FILE_DIRECTORY_FILE);
                let attrs: u32 = if is_dir {
                    req.file_attributes
                } else {
                    req.file_attributes | FILE_ATTRIBUTE_ARCHIVE
                };
                if has_flag(attrs, FILE_ATTRIBUTE_READONLY) && has_flag(
                    req.create_options,
                    FILE_DELETE_ON_CLOSE,
                ) {
                    return false;
                }
                if is_dir {
                    req.create_disposition == FILE_CREATE || req.create_disposition == FILE_OPEN_IF
                } else {
                    req.create_disposition != FILE_OPEN && req.create_disposition != FILE_OVERWRITE
                }
            },
            _ => false,
        }
    }

    /// The entry that directory `d` holds under `name`.
    pub fn lookup(&self, d: usize, name: &[u16]) -> (r: Option<usize>)
        requires
            self@.entries.contains_key(d),
            self@.entries[d].is_dir(),
        ensures
            r == found(self@, d, name@),
    {
        self.children(d).get(EntryNameRef::new(name))
    }

    /// Opens or creates what `path` leads to. `inherited` is the security descriptor for a new
    /// entry, `now` the time at which an entry or stream is touched or made, and `parent_now` the
    /// time at which the directory of a new entry is changed.
    pub fn create_file(
        &mut self,
        path: &Result<Option<PathInfo>, OperationError>,
        inherited: Result<SecurityDescriptor, OperationError>,
        req: CreateRequest,
        now: u64,
        parent_now: u64,
    ) -> (r: Result<CreateFileInfo, OperationError>)
        requires
            old(self)@.wf(),
            path_valid(old(self)@, *path),
            create_refusal(old(self)@, *path, inherited, req) is None ==> count_fits(
                old(self)@,
                *path,
            ),
        ensures
            match create_refusal(old(self)@, *path, inherited, req) {
                Some(error) => {
                    &&& r == Err::<CreateFileInfo, OperationError>(error)
                    &&& final(self)@ == if wants_new(old(self)@, *path, req) {
                        old(self)@.with_id_spent()
                    } else {
                        old(self)@
                    }
                },
                None => {
                    &&& r matches Ok(info)
                    &&& !old(self)@.handles.contains_key(info.context)
                    &&& (info.is_dir, info.new_file_created) == created_kind(
                        old(self)@,
                        path->Ok_0,
                        req,
                    )
                    &&& final(self)@ == created(
                        old(self)@,
                        path->Ok_0,
                        inherited->Ok_0@,
                        req,
                        now,
                        parent_now,
                        info.context,
                    )
                },
            },
            final(self)@.wf(),
    {
        if req.create_disposition > FILE_MAXIMUM_DISPOSITION {
            return nt_res(STATUS_INVALID_PARAMETER);
        }
        let path = match path {
            Ok(Some(path)) => path,
            Ok(None) => {
                if let Err(error) = check_root(req) {
                    return Err(error);
                }
                let context: usize = self.open_handle(ROOT, None, req.info_delete_on_close);
                return Ok(CreateFileInfo { context, is_dir: true, new_file_created: false });
            },
            Err(error) => return Err(*error),
        };
        let d: usize = path.parent;
        if let Some(e) = self.lookup(d, path.name.file_name.as_slice()) {
            proof {
                assert(self@.links(d, folded(path.name.file_name@), e));
            }
            match (self.check_open(e, &path.name.stream_info, req), &path.name.stream_info) {
                (Ok(false), Some(stream_info)) => Ok(
                    self.open_stream(e, &stream_info.name, req, now),
                ),
                (Ok(_), _) => Ok(self.open_main(e, req, now)),
                (Err(error), _) => Err(error),
            }
        } else {
            if self.stat(d).delete_pending {
                return nt_res(STATUS_DELETE_PENDING);
            }
            if has_flag(req.create_options, FILE_DIRECTORY_FILE) {
                if req.create_disposition == FILE_OPEN {
                    return nt_res(STATUS_OBJECT_NAME_NOT_FOUND);
                }
                if req.create_disposition != FILE_CREATE && req.create_disposition != FILE_OPEN_IF {
                    return nt_res(STATUS_INVALID_PARAMETER);
                }
            } else if req.create_disposition == FILE_OPEN || req.create_disposition
                == FILE_OVERWRITE {
                return nt_res(STATUS_OBJECT_NAME_NOT_FOUND);
            }
            self.create_new(&path.name, inherited, d, req, now, parent_now)
        }
    }

    /// Whether the existing entry `e` can be opened, and if so, whether it is the entry itself that
    /// is asked for and not another stream of it.
    fn check_open(&self, e: usize, stream_info: &Option<StreamInfo>, req: CreateRequest) -> (r:
        Result<bool, OperationError>)
        requires
            self@.wf(),
            self@.entries.contains_key(e),
        ensures
            match open_refusal(self@, e, *stream_info, req) {
                Some(error) => r == Err::<bool, OperationError>(error),
                None => r is Ok && r == main_stream(*stream_info, self@.entries[e].is_dir()),
            },
    {
        let is_readonly = has_flag(self.stat(e).attrs.value, FILE_ATTRIBUTE_READONLY);
        if is_readonly && (has_flag(req.desired_access, FILE_WRITE_DATA) || has_flag(
            req.desired_access,
            FILE_APPEND_DATA,
        )) {
            return nt_res(STATUS_ACCESS_DENIED);
        }
        if self.stat(e).delete_pending {
            return nt_res(STATUS_DELETE_PENDING);
        }
        if is_readonly && has_flag(req.create_options, FILE_DELETE_ON_CLOSE) {
            return nt_res(STATUS_CANNOT_DELETE);
        }
        if let Some(stream_info) = stream_info {
            match stream_info.check_default(self.entry(e).is_dir()) {
                Ok(true) => {},
                Ok(false) => {
                    return match self.check_stream(e, &stream_info.name, req) {
                        Ok(()) => Ok(false),
                        Err(error) => Err(error),
                    };
                },
                Err(error) => return Err(error),
            }
        }
        match self.check_main(e, req) {
            Ok(()) => Ok(true),
            Err(error) => Err(error),
        }
    }

    /// Whether the stream `name` of entry `e` can be opened.
    fn check_stream(&self, e: usize, name: &Vec<u16>, req: CreateRequest) -> (r: Result<
        (),
        OperationError,
    >)
        requires
            self@.wf(),
            self@.entries.contains_key(e),
        ensures
            match stream_refusal(self@, e, name@, req) {
                Some(error) => r == Err::<(), OperationError>(error),
                None => r is Ok,
            },
    {
        let is_readonly = has_flag(self.stat(e).attrs.value, FILE_ATTRIBUTE_READONLY);
        let found: Option<usize> = self.stat(e).alt_streams.get(EntryNameRef::new(name.as_slice()));
        if let Some(s) = found {
            proof {
                assert(self@.owns(e, folded(name@), s));
            }
            if self.stream(s).delete_pending {
                return nt_res(STATUS_DELETE_PENDING);
            }
            if (req.create_disposition == FILE_OVERWRITE || req.create_disposition
                == FILE_OVERWRITE_IF) && is_readonly {
                return nt_res(STATUS_ACCESS_DENIED);
            }
            if req.create_disposition == FILE_CREATE {
                return nt_res(STATUS_OBJECT_NAME_COLLISION);
            }
        } else {
            if req.create_disposition == FILE_OPEN || req.create_disposition == FILE_OVERWRITE {
                return nt_res(STATUS_OBJECT_NAME_NOT_FOUND);
            }
            if is_readonly {
                return nt_res(STATUS_ACCESS_DENIED);
            }
        }
        Ok(())
    }

    /// Whether entry `e` itself can be opened.
    fn check_main(&self, e: usize, req: CreateRequest) -> (r: Result<(), OperationError>)
        requires
            self@.entries.contains_key(e),
        ensures
            match main_refusal(self@.entries[e], req) {
                Some(error) => r == Err::<(), OperationError>(error),
                None => r is Ok,
            },
    {
        let attrs: u32 = self.stat(e).attrs.value;
        if self.entry(e).is_dir() {
            if has_flag(req.create_options, FILE_NON_DIRECTORY_FILE) {
                return nt_res(STATUS_FILE_IS_A_DIRECTORY);
            }
            if req.create_disposition == FILE_CREATE {
                return nt_res(STATUS_OBJECT_NAME_COLLISION);
            }
            if req.create_disposition != FILE_OPEN && req.create_disposition != FILE_OPEN_IF {
                return nt_res(STATUS_INVALID_PARAMETER);
            }
        } else {
            if has_flag(req.create_options, FILE_DIRECTORY_FILE) {
                return nt_res(STATUS_NOT_A_DIRECTORY);
            }
            if req.create_disposition == FILE_SUPERSEDE || req.create_disposition == FILE_OVERWRITE
                || req.create_disposition == FILE_OVERWRITE_IF {
                let is_readonly = has_flag(attrs, FILE_ATTRIBUTE_READONLY);
                let is_hidden_system = has_flag(attrs, FILE_ATTRIBUTE_HIDDEN) && has_flag(
                    attrs,
                    FILE_ATTRIBUTE_SYSTEM,
                ) && !(has_flag(req.file_attributes, FILE_ATTRIBUTE_HIDDEN) && has_flag(
                    req.file_attributes,
                    FILE_ATTRIBUTE_SYSTEM,
                ));
                if req.create_disposition != FILE_SUPERSEDE && is_readonly || is_hidden_system {
                    return nt_res(STATUS_ACCESS_DENIED);
                }
            } else if req.create_disposition == FILE_CREATE {
                return nt_res(STATUS_OBJECT_NAME_COLLISION);
            }
        }
        Ok(())
    }

    /// Opens a stream of an entry that is not its main one.
    fn open_stream(&mut self, e: usize, name: &Vec<u16>, req: CreateRequest, now: u64) -> (r:
        CreateFileInfo)
        requires
            old(self)@.wf(),
            old(self)@.entries.contains_key(e),
            old(self)@.has_handle_room(e),
            no_nul(name@),
        ensures
            !old(self)@.handles.contains_key(r.context),
            !r.is_dir,
            r.new_file_created == !old(self)@.entries[e].stat.alt_streams.contains_key(
                folded(name@),
            ),
            final(self)@ == stream_opened(old(self)@, e, name@, req, now, r.context),
            final(self)@.wf(),
    {
        let ghost before = self@;
        let delete_on_close = has_flag(req.create_options, FILE_DELETE_ON_CLOSE);
        let found: Option<usize> = self.stat(e).alt_streams.get(EntryNameRef::new(name.as_slice()));
        if let Some(s) = found {
            proof {
                assert(self@.owns(e, folded(name@), s));
            }
            if req.create_disposition == FILE_SUPERSEDE || req.create_disposition == FILE_OVERWRITE
                || req.create_disposition == FILE_OVERWRITE_IF {
                let value: u32 = self.stat(e).attrs.value;
                proof {
                    lemma_archive_supported(value);
                }
                let stat = self.stat_mut(e);
                stat.attrs.value = value | FILE_ATTRIBUTE_ARCHIVE;
                stat.update_mtime(now);
                self.stream_mut(s).data.clear();
                proof {
                    lemma_same_shape(before, self@, ROOT);
                    assert(self@.owns(e, folded(name@), s));
                }
            }
            let context: usize = self.open_handle(e, Some(s), delete_on_close);
            CreateFileInfo { context, is_dir: false, new_file_created: false }
        } else {
            self.stat_mut(e).update_atime(now);
            proof {
                lemma_same_shape(before, self@, ROOT);
            }
            let s: usize = self.create_stream(e, name);
            let context: usize = self.open_handle(e, Some(s), delete_on_close);
            CreateFileInfo { context, is_dir: false, new_file_created: true }
        }
    }

    /// Makes a new stream of entry `e`.
    pub(crate) fn create_stream(&mut self, e: usize, name: &Vec<u16>) -> (r: usize)
        requires
            old(self)@.wf(),
            old(self)@.entries.contains_key(e),
            !old(self)@.entries[e].stat.alt_streams.contains_key(folded(name@)),
            no_nul(name@),
        ensures
            r == old(self)@.next_stream,
            final(self)@ == old(self)@.with_new_stream(e, name@),
            final(self)@.wf(),
            final(self)@.owned(e, r),
    {
        let ghost before = self@;
        let r: usize = self.add_stream(AltStream::new());
        let _ = self.stat_mut(e).alt_streams.insert(EntryName::new(name.as_slice()), r);
        proof {
            lemma_new_stream(before, e, name@);
        }
        r
    }

    /// Opens an entry itself.
    fn open_main(&mut self, e: usize, req: CreateRequest, now: u64) -> (r: CreateFileInfo)
        requires
            old(self)@.wf(),
            old(self)@.entries.contains_key(e),
            old(self)@.has_handle_room(e),
        ensures
            !old(self)@.handles.contains_key(r.context),
            r.is_dir == old(self)@.entries[e].is_dir(),
            !r.new_file_created,
            final(self)@ == main_opened(old(self)@, e, req, now, r.context),
            final(self)@.wf(),
    {
        let ghost before = self@;
        let is_dir: bool = self.entry(e).is_dir();
        let delete_on_close = has_flag(req.create_options, FILE_DELETE_ON_CLOSE);
        if !is_dir && (req.create_disposition == FILE_SUPERSEDE || req.create_disposition
            == FILE_OVERWRITE || req.create_disposition == FILE_OVERWRITE_IF) {
            self.data_mut(e).clear();
            let stat = self.stat_mut(e);
            stat.attrs = Attributes::new(req.file_attributes | FILE_ATTRIBUTE_ARCHIVE);
            stat.update_mtime(now);
            proof {
                lemma_masked_supported(req.file_attributes | FILE_ATTRIBUTE_ARCHIVE);
                lemma_same_shape(before, self@, ROOT);
            }
        }
        let context: usize = self.open_handle(e, None, delete_on_close);
        CreateFileInfo { context, is_dir, new_file_created: false }
    }

    /// Makes an entry in directory `d` and opens it.
    pub(crate) fn create_new(
        &mut self,
        name: &FullName,
        inherited: Result<SecurityDescriptor, OperationError>,
        d: usize,
        req: CreateRequest,
        now: u64,
        parent_now: u64,
    ) -> (r: Result<CreateFileInfo, OperationError>)
        requires
            old(self)@.wf(),
            old(self)@.entries.contains_key(d),
            old(self)@.entries[d].is_dir(),
            name.valid(),
            found(old(self)@, d, name.file_name@) is None,
            makes_new(old(self)@, d, req),
        ensures
            match missing_refusal(old(self)@, d, *name, inherited, req) {
                Some(error) => {
                    &&& r == Err::<CreateFileInfo, OperationError>(error)
                    &&& final(self)@ == if req.deletes_readonly() {
                        old(self)@
                    } else {
                        old(self)@.with_id_spent()
                    }
                },
                None => {
                    &&& r matches Ok(info)
                    &&& !old(self)@.handles.contains_key(info.context)
                    &&& info.is_dir == (req.wants_dir() && main_stream(name.stream_info, true)
                        == Ok::<bool, OperationError>(false))
                    &&& info.new_file_created
                    &&& final(self)@ == new_opened(
                        old(self)@,
                        d,
                        *name,
                        inherited->Ok_0@,
                        req,
                        now,
                        parent_now,
                        info.context,
                    )
                },
            },
            final(self)@.wf(),
    {
        let ghost before = self@;
        let is_dir = has_flag(req.create_options, FILE_DIRECTORY_FILE);
        let delete_on_close = has_flag(req.create_options, FILE_DELETE_ON_CLOSE);
        let attrs: u32 = if is_dir {
            req.file_attributes
        } else {
            req.file_attributes | FILE_ATTRIBUTE_ARCHIVE
        };
        if has_flag(attrs, FILE_ATTRIBUTE_READONLY) && delete_on_close {
            return nt_res(STATUS_CANNOT_DELETE);
        }
        let id: u64 = self.next_id();
        proof {
            lemma_same_shape(before, self@, ROOT);
        }
        let sec_desc = match inherited {
            Ok(sec_desc) => sec_desc,
            Err(error) => return Err(error),
        };
        let has_stream: bool = match &name.stream_info {
            Some(stream_info) => match stream_info.check_default(is_dir) {
                Ok(default) => !default,
                Err(error) => return Err(error),
            },
            None => false,
        };
        let stat = Stat::new(id, attrs, sec_desc, Some(d), now);
        let entry = if is_dir {
            Entry::Directory(DirEntry::new(stat))
        } else {
            Entry::File(FileEntry::new(stat))
        };
        let ghost counted = self@;
        let ghost entry_view = entry@;
        let e: usize = self.add_entry(entry);
        let _ = self.children_mut(d).insert(EntryName::new(name.file_name.as_slice()), e);
        proof {
            lemma_masked_supported(attrs);
            lemma_new_entry(counted, d, name.file_name@, entry_view);
            assert(self@ =~= counted.with_new_entry(d, name.file_name@, entry_view));
        }
        let ghost linked = self@;
        self.stat_mut(d).update_mtime(parent_now);
        proof {
            lemma_same_shape(linked, self@, ROOT);
        }
        let mut stream: Option<usize> = None;
        if has_stream {
            if let Some(stream_info) = &name.stream_info {
                let s: usize = self.create_stream(e, &stream_info.name);
                stream = Some(s);
            }
        }
        let context: usize = self.open_handle(e, stream, delete_on_close);
        Ok(CreateFileInfo { context, is_dir: is_dir && stream.is_some(), new_file_created: true })
    }
}

} // verus!
