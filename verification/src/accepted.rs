//! Which calls the operations accept, and that they keep the file system in order.
use vstd::prelude::*;

use crate::calls::{on_bytes, under};
use crate::change::FileTimeInfo;
use crate::close_calls::droppable;
use crate::create::{CreateFileInfo, CreateRequest};
use crate::entry::SecurityDescriptor;
use crate::keep::lemma_handle_counts;
use crate::memfs::MemFsHandler;
use crate::model::{FsView, ROOT};
use crate::move_calls::law_own_name_suffices;
use crate::name::folded;
use crate::path::{FullName, PathInfo};
use crate::rename::Destination;
use crate::status::OperationError;

verus! {

/// Through an open handle everything can be asked and changed that has no limits.
pub proof fn law_open_handles_are_accepted(
    fs: &mut MemFsHandler,
    h: usize,
    attrs: u32,
    now: u64,
    creation: FileTimeInfo,
    access: FileTimeInfo,
    write: FileTimeInfo,
    delete: bool,
    changed: Result<SecurityDescriptor, OperationError>,
)
    requires
        old(fs)@.wf(),
        old(fs)@.handles.contains_key(h),
    ensures
        call_requires(MemFsHandler::close_file, (old(fs), h)),
        call_requires(MemFsHandler::set_file_attributes, (old(fs), h, attrs, now)),
        call_requires(MemFsHandler::set_file_time, (old(fs), h, creation, access, write)),
        call_requires(MemFsHandler::delete_file, (old(fs), h, delete)),
        call_requires(MemFsHandler::delete_directory, (old(fs), h, delete)),
        call_requires(MemFsHandler::set_file_security, (old(fs), h, changed, now)),
{
}

/// What an open handle is on can be told of and listed.
pub proof fn law_open_handles_tell(fs: &MemFsHandler, h: usize)
    requires
        fs@.wf(),
        fs@.handles.contains_key(h),
    ensures
        call_requires(MemFsHandler::get_file_information, (fs, h)),
        call_requires(MemFsHandler::find_files, (fs, h)),
        call_requires(MemFsHandler::find_streams, (fs, h)),
        call_requires(MemFsHandler::get_file_security, (fs, h)),
        call_requires(MemFsHandler::flush_file_buffers, (fs, h)),
        call_requires(MemFsHandler::is_dir, (fs, h)),
        call_requires(MemFsHandler::len_of, (fs, h)),
        call_requires(MemFsHandler::can_drop, (fs, h)),
{
}

/// Bytes can be read from every offset inside them or at their end, and written at every offset
/// from which they still fit into memory; they can get every length that does. Where there are no
/// bytes, everything can be asked for, and is refused.
pub proof fn law_offsets_are_accepted(
    fs: &mut MemFsHandler,
    same: &MemFsHandler,
    h: usize,
    offset: i64,
    bytes: &[u8],
    buffer: &mut [u8],
    write_to_eof: bool,
    now: u64,
)
    requires
        old(fs)@.wf(),
        old(fs)@.handles.contains_key(h),
        same@ == old(fs)@,
    ensures
        !on_bytes(same@, h) || 0 <= offset <= under(same@, h).len() ==> call_requires(
            MemFsHandler::read_file,
            (same, h, offset, old(buffer)),
        ),
        !on_bytes(same@, h) || (if write_to_eof {
            under(same@, h).len() + bytes@.len() <= isize::MAX
        } else {
            offset >= 0 && offset + bytes@.len() <= isize::MAX
        }) ==> call_requires(
            MemFsHandler::write_file,
            (old(fs), h, offset, bytes, write_to_eof, now),
        ),
        !on_bytes(same@, h) || 0 <= offset <= isize::MAX ==> {
            &&& call_requires(MemFsHandler::set_end_of_file, (old(fs), h, offset, now))
            &&& call_requires(MemFsHandler::set_allocation_size, (old(fs), h, offset, now))
        },
{
    lemma_handle_counts(same@, h);
}

/// No unit of a name, or of that of its stream, is nul.
pub open spec fn nul_free(name: FullName) -> bool {
    &&& !name.file_name@.contains(0)
    &&& name.stream_info matches Some(info) ==> !info.name@.contains(0)
}

/// A path leads nowhere, to the root directory, or into a directory that is there, under names that
/// can be handed out.
pub open spec fn leads_somewhere(
    fs: FsView,
    path: Result<Option<PathInfo>, OperationError>,
) -> bool {
    path is Ok && path->Ok_0 is Some ==> {
        &&& fs.entries.contains_key(path->Ok_0->0.parent)
        &&& fs.entries[path->Ok_0->0.parent].content is Directory
        &&& nul_free(path->Ok_0->0.name)
    }
}

proof fn lemma_nul_free(name: FullName)
    ensures
        nul_free(name) == name.valid(),
{
    let units = name.file_name@;
    let stream = name.stream_info->0.name@;
    assert(units.contains(0) <==> exists|i: int| 0 <= i < units.len() && units[i] == 0);
    assert(stream.contains(0) <==> exists|i: int| 0 <= i < stream.len() && stream[i] == 0);
}

/// Every request for a path is accepted while handles on what it leads to can still be counted.
pub proof fn law_requests_are_accepted(
    fs: &mut MemFsHandler,
    same: &MemFsHandler,
    path: &Result<Option<PathInfo>, OperationError>,
    inherited: Result<SecurityDescriptor, OperationError>,
    req: CreateRequest,
    now: u64,
    parent_now: u64,
)
    requires
        old(fs)@.wf(),
        same@ == old(fs)@,
        leads_somewhere(same@, *path),
        forall|e: usize| #[trigger]
            same@.entries.contains_key(e) ==> same@.entries[e].stat.handle_count < 0xFFFF_FFFF,
    ensures
        call_requires(
            MemFsHandler::create_file,
            (old(fs), path, inherited, req, now, parent_now),
        ),
        call_requires(MemFsHandler::can_open, (same, path, req)),
        call_requires(MemFsHandler::creates_entry, (same, path, req)),
{
    if path is Ok && path->Ok_0 is Some {
        let found = path->Ok_0->0;
        lemma_nul_free(found.name);
        let key = folded(found.name.file_name@);
        let names = same@.entries[found.parent].children();
        if names.contains_key(key) {
            assert(same@.links(found.parent, key, names[key].id));
        }
    }
    assert(same@.entries.contains_key(ROOT));
}

/// An open handle that can be dropped is accepted for closing.
pub proof fn law_handles_are_accepted_for_closing(
    fs: &mut MemFsHandler,
    h: usize,
    parent_now: u64,
    stream_now: u64,
    removal_now: u64,
)
    requires
        old(fs)@.wf(),
        old(fs)@.handles.contains_key(h),
        droppable(old(fs)@, h),
    ensures
        call_requires(
            MemFsHandler::drop_handle,
            (old(fs), h, parent_now, stream_now, removal_now),
        ),
{
}

/// A move is accepted by the own name of what is moved, to every place, or stream of it, that it
/// can be named by.
pub proof fn law_moves_are_accepted(
    fs: &mut MemFsHandler,
    same: &MemFsHandler,
    h: usize,
    file_name: &[u16],
    new_file_name: &[u16],
    dest: &Destination,
    replace: bool,
    now: u64,
    can: bool,
)
    requires
        old(fs)@.wf(),
        old(fs)@.handles.contains_key(h),
        same@ == old(fs)@,
        (new_file_name@.len() > 0 && new_file_name@[0] == 0x3a) == (*dest is Stream),
        match *dest {
            Destination::Stream { src, dst } => dst is Ok ==> nul_free(dst->Ok_0),
            Destination::Path(path) => leads_somewhere(old(fs)@, path),
        },
        call_ensures(MemFsHandler::is_own_name, (same, h, file_name, dest, replace), true),
        call_ensures(MemFsHandler::can_move, (same, h, file_name, dest, replace), can),
    ensures
        call_requires(MemFsHandler::is_own_name, (same, h, file_name, dest, replace)),
        call_requires(MemFsHandler::can_move, (same, h, file_name, dest, replace)),
        call_requires(
            MemFsHandler::move_file,
            (old(fs), h, file_name, new_file_name, dest, replace, now),
        ),
{
    match *dest {
        Destination::Stream { src, dst } => {
            if dst is Ok {
                lemma_nul_free(dst->Ok_0);
            }
        },
        Destination::Path(path) => {
            if path is Ok && path->Ok_0 is Some {
                lemma_nul_free(path->Ok_0->0.name);
            }
        },
    }
    law_own_name_suffices(same, h, file_name, dest, replace, can);
}

/// Opening and closing leave the file system in order, whatever comes of it.
pub proof fn law_order_is_kept(
    opened: &mut MemFsHandler,
    closed: &mut MemFsHandler,
    path: &Result<Option<PathInfo>, OperationError>,
    inherited: Result<SecurityDescriptor, OperationError>,
    req: CreateRequest,
    now: u64,
    later: u64,
    latest: u64,
    h: usize,
    r: Result<CreateFileInfo, OperationError>,
)
    requires
        call_ensures(
            MemFsHandler::create_file,
            (opened, path, inherited, req, now, later),
            r,
        ),
        call_ensures(MemFsHandler::drop_handle, (closed, h, now, later, latest), ()),
    ensures
        final(opened)@.wf(),
        final(closed)@.wf(),
{
}

/// A move by the own name of what is moved leaves the file system in order.
pub proof fn law_move_keeps_order(
    fs: &mut MemFsHandler,
    same: &MemFsHandler,
    h: usize,
    file_name: &[u16],
    new_file_name: &[u16],
    dest: &Destination,
    replace: bool,
    now: u64,
    r: Result<(), OperationError>,
)
    requires
        same@ == old(fs)@,
        call_ensures(MemFsHandler::is_own_name, (same, h, file_name, dest, replace), true),
        call_ensures(
            MemFsHandler::move_file,
            (fs, h, file_name, new_file_name, dest, replace, now),
            r,
        ),
    ensures
        final(fs)@.wf(),
{
}

} // verus!
