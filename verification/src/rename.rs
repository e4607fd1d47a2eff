//! Moving entries and streams.
use vstd::prelude::*;

use crate::attributes::{has, has_flag, FILE_ATTRIBUTE_READONLY};
use crate::create::{found, main_stream, path_valid, refuse};
use crate::entry::{Names, StatView, StreamView};
use crate::handle::EntryHandle;
use crate::keep::{handle_turned, lemma_handle_counts, lemma_handle_turned, lemma_relinked};
use crate::keep::{lemma_same_shape, lemma_stream_gone, lemma_stream_renamed, lemma_unlinked};
use crate::keep::stream_gone;
use crate::memfs::MemFsHandler;
use crate::model::{FsView, ROOT};
use crate::name::{folded, no_nul, EntryName, EntryNameRef, Link};
use crate::path::{find_name, COLON, name_start, FullName, PathInfo};
use crate::release::{freed, goes_down, without};
use crate::status::{
    nt_res, OperationError, STATUS_ACCESS_DENIED, STATUS_INVALID_DEVICE_REQUEST,
    STATUS_INVALID_PARAMETER, STATUS_OBJECT_NAME_COLLISION, STATUS_OBJECT_NAME_INVALID,
    STATUS_SHARING_VIOLATION,
};

verus! {

/// Why entry `e` cannot take the place of what directory `d` holds under `name`.
pub open spec fn place_refusal(
    fs: FsView,
    d: usize,
    name: Seq<u16>,
    e: usize,
    replace: bool,
) -> Option<OperationError> {
    match found(fs, d, name) {
        None => None,
        Some(t) => if t == e {
            None
        } else if !replace {
            refuse(STATUS_OBJECT_NAME_COLLISION)
        } else if fs.entries[e].is_dir() || fs.entries[t].is_dir()
            || fs.entries[t].stat.handle_count > 0 || has(
            fs.entries[t].stat.attrs,
            FILE_ATTRIBUTE_READONLY,
        ) {
            refuse(STATUS_ACCESS_DENIED)
        } else {
            None
        },
    }
}

/// The file system with the place `name` in directory `d` cleared for entry `e`: a file that was
/// there is gone.
pub open spec fn place_cleared(fs: FsView, d: usize, name: Seq<u16>, e: usize) -> FsView {
    match found(fs, d, name) {
        Some(t) => if t == e {
            fs
        } else {
            without(
                fs.with_children(d, fs.entries[d].children().remove(folded(name))),
                Set::empty().insert(t),
            )
        },
        None => fs,
    }
}

/// What directory `src` holds under `src_name` is put into directory `dst` under `dst_name`, and
/// noted for `handle`.
pub open spec fn entry_moved(
    fs: FsView,
    handle: EntryHandle,
    src: usize,
    src_name: Seq<u16>,
    dst: usize,
    dst_name: Seq<u16>,
    now: u64,
) -> FsView {
    let e = handle.entry;
    let id = fs.entries[src].children()[folded(src_name)].id;
    let fs = fs.with_children(src, fs.entries[src].children().remove(folded(src_name)));
    let fs = fs.with_children(
        dst,
        fs.entries[dst].children().insert(folded(dst_name), Link { name: dst_name, id }),
    );
    let fs = fs.with_stat(src, fs.entries[src].stat.modified(now));
    let fs = fs.with_stat(dst, fs.entries[dst].stat.modified(now));
    fs.with_stat(
        e,
        handle.accessed(StatView { parent: Some(dst), ..fs.entries[e].stat }, now),
    )
}

/// The stream that entry `e` has under `name`.
pub open spec fn stream_found(fs: FsView, e: usize, name: Seq<u16>) -> Option<usize> {
    if fs.entries[e].stat.alt_streams.contains_key(folded(name)) {
        Some(fs.entries[e].stat.alt_streams[folded(name)].id)
    } else {
        None
    }
}

/// Why stream `alt` of entry `e`, or its main one, cannot take the place of the stream `name`.
pub open spec fn slot_refusal(
    fs: FsView,
    e: usize,
    name: Seq<u16>,
    alt: Option<usize>,
    replace: bool,
) -> Option<OperationError> {
    match stream_found(fs, e, name) {
        None => None,
        Some(t) => if alt == Some(t) {
            None
        } else if !replace {
            refuse(STATUS_OBJECT_NAME_COLLISION)
        } else if fs.streams[t].handle_count > 0 {
            refuse(STATUS_ACCESS_DENIED)
        } else {
            None
        },
    }
}

/// Entry `e` without the stream `name`, unless that is stream `alt`.
pub open spec fn slot_cleared(fs: FsView, e: usize, name: Seq<u16>, alt: Option<usize>) -> FsView {
    match stream_found(fs, e, name) {
        Some(t) => if alt == Some(t) {
            fs
        } else {
            let stat = fs.entries[e].stat;
            fs.with_stat(
                e,
                StatView { alt_streams: stat.alt_streams.remove(folded(name)), ..stat },
            ).minus_stream(t)
        },
        None => fs,
    }
}

/// The bytes of the file under handle `h` become a new stream `name`, and the handle goes with
/// them. A pending deletion goes too.
pub open spec fn main_to_stream(fs: FsView, h: usize, name: Seq<u16>, now: u64) -> FsView {
    let e = fs.handles[h].entry;
    let entry = fs.entries[e];
    let s = fs.next_stream as usize;
    let stream = StreamView {
        handle_count: 1,
        delete_pending: entry.stat.delete_pending,
        data: entry.data(),
    };
    let fs = fs.with_new_stream(e, name).with_stream(s, stream).with_data(e, Seq::empty());
    fs.with_stat(
        e,
        StatView { delete_pending: false, ..fs.entries[e].stat }.accessed(now),
    ).with_handle(h, EntryHandle { alt_stream: Some(s), ..fs.handles[h] })
}

/// The bytes of the stream under handle `h` become those of the file, and the handle goes with
/// them. The stream `name` is deleted.
pub open spec fn stream_to_main(fs: FsView, h: usize, name: Seq<u16>, now: u64) -> FsView {
    let e = fs.handles[h].entry;
    let s = fs.handles[h].alt_stream->0;
    let stream = fs.streams[s];
    let stat = fs.entries[e].stat;
    let t = stat.alt_streams[folded(name)].id;
    let fs = fs.with_stream(
        s,
        StreamView {
            handle_count: (stream.handle_count - 1) as u32,
            delete_pending: false,
            ..stream
        },
    ).with_data(e, stream.data).with_stat(
        e,
        StatView {
            delete_pending: stream.delete_pending,
            alt_streams: stat.alt_streams.remove(folded(name)),
            ..stat
        }.accessed(now),
    ).with_handle(h, EntryHandle { alt_stream: None, ..fs.handles[h] });
    if fs.streams[t].handle_count == 0 {
        fs.minus_stream(t)
    } else {
        fs
    }
}

/// `names` with `name` leading to `id`. A name that is there already keeps its spelling.
pub open spec fn renamed(names: Names, name: Seq<u16>, id: usize) -> Names {
    let spelling = if names.contains_key(folded(name)) {
        names[folded(name)].name
    } else {
        name
    };
    names.insert(folded(name), Link { name: spelling, id })
}

/// The stream `src_name` of the entry under handle `h` is called `dst_name`, and the handle is on
/// it.
pub open spec fn stream_to_stream(
    fs: FsView,
    h: usize,
    src_name: Seq<u16>,
    dst_name: Seq<u16>,
    now: u64,
) -> FsView {
    let e = fs.handles[h].entry;
    let stat = fs.entries[e].stat;
    let t = stat.alt_streams[folded(src_name)].id;
    fs.with_stat(
        e,
        StatView {
            alt_streams: renamed(stat.alt_streams.remove(folded(src_name)), dst_name, t),
            ..stat
        }.accessed(now),
    ).with_handle(h, EntryHandle { alt_stream: Some(t), ..fs.handles[h] })
}

/// Where something is moved to.
#[derive(Debug)]
pub enum Destination {
    /// Another stream of the same entry: the last part of the path that the handle was opened by,
    /// taken apart, and the new name, taken apart.
    Stream { src: Result<FullName, OperationError>, dst: Result<FullName, OperationError> },
    /// Where the new path leads.
    Path(Result<Option<PathInfo>, OperationError>),
}

/// A new name that starts with a colon names a stream of the same entry.
pub open spec fn names_stream(new_file_name: Seq<u16>) -> bool {
    new_file_name.len() > 0 && new_file_name[0] == COLON
}

/// The names in `dest` can be handed out, and the directory in it is there.
pub open spec fn dest_valid(fs: FsView, dest: Destination) -> bool {
    match dest {
        Destination::Stream { src, dst } => dst matches Ok(dst) ==> dst.valid(),
        Destination::Path(path) => path_valid(fs, path),
    }
}

/// Why the stream under handle `h` is not moved.
pub open spec fn stream_move_refusal(
    fs: FsView,
    h: usize,
    src: Result<FullName, OperationError>,
    dst: Result<FullName, OperationError>,
    replace: bool,
) -> Option<OperationError> {
    let e = fs.handles[h].entry;
    let alt = fs.handles[h].alt_stream;
    let is_dir = fs.entries[e].is_dir();
    match (src, dst) {
        (Err(error), _) => Some(error),
        (_, Err(error)) => Some(error),
        (Ok(src), Ok(dst)) => match main_stream(dst.stream_info, is_dir) {
            Err(error) => Some(error),
            Ok(to_main) => if is_dir && (alt is None || to_main) {
                refuse(STATUS_OBJECT_NAME_INVALID)
            } else if !to_main {
                slot_refusal(fs, e, dst.stream_info->0.name@, alt, replace)
            } else if alt is Some && fs.streams[alt->0].handle_count > 1 {
                refuse(STATUS_SHARING_VIOLATION)
            } else if alt is Some && !replace {
                refuse(STATUS_OBJECT_NAME_COLLISION)
            } else {
                None
            },
        },
    }
}

/// The place for a stream that is moved is cleared, or left alone where the main stream is it.
pub open spec fn slot_ready(fs: FsView, h: usize, dst: FullName) -> FsView {
    let e = fs.handles[h].entry;
    if goes_to_main(fs, h, dst) {
        fs
    } else {
        slot_cleared(fs, e, dst.stream_info->0.name@, fs.handles[h].alt_stream)
    }
}

/// `dst` is the main stream of the entry under handle `h`.
pub open spec fn goes_to_main(fs: FsView, h: usize, dst: FullName) -> bool {
    main_stream(dst.stream_info, fs.entries[fs.handles[h].entry].is_dir()) == Ok::<
        bool,
        OperationError,
    >(true)
}

/// The file system after the stream under handle `h` is moved.
pub open spec fn stream_moved(fs: FsView, h: usize, src: FullName, dst: FullName, now: u64) -> FsView {
    let e = fs.handles[h].entry;
    let ready = slot_ready(fs, h, dst);
    match (fs.handles[h].alt_stream is None, goes_to_main(fs, h, dst)) {
        (true, true) => ready.with_stat(e, ready.entries[e].stat.accessed(now)),
        (true, false) => main_to_stream(ready, h, dst.stream_info->0.name@, now),
        (false, true) => stream_to_main(ready, h, src.stream_info->0.name@, now),
        (false, false) => stream_to_stream(
            ready,
            h,
            src.stream_info->0.name@,
            dst.stream_info->0.name@,
            now,
        ),
    }
}

/// The old name of a stream that is moved is there to be taken away.
pub open spec fn stream_movable(fs: FsView, h: usize, src: FullName, dst: FullName) -> bool {
    fs.handles[h].alt_stream is Some ==> {
        &&& src.stream_info is Some
        &&& stream_found(
            slot_ready(fs, h, dst),
            fs.handles[h].entry,
            src.stream_info->0.name@,
        ) is Some
    }
}

/// Why the entry under handle `h` is not moved.
pub open spec fn entry_move_refusal(
    fs: FsView,
    h: usize,
    path: Result<Option<PathInfo>, OperationError>,
    replace: bool,
) -> Option<OperationError> {
    if fs.handles[h].alt_stream is Some {
        refuse(STATUS_OBJECT_NAME_INVALID)
    } else {
        match path {
            Err(error) => Some(error),
            Ok(None) => refuse(STATUS_OBJECT_NAME_INVALID),
            Ok(Some(path)) => if path.name.stream_info is Some {
                refuse(STATUS_OBJECT_NAME_INVALID)
            } else {
                place_refusal(
                    fs,
                    path.parent,
                    path.name.file_name@,
                    fs.handles[h].entry,
                    replace,
                )
            },
        }
    }
}

/// The old name of an entry that is moved is there to be taken away, and the new one is free then.
pub open spec fn entry_movable(fs: FsView, h: usize, src_name: Seq<u16>, path: PathInfo) -> bool {
    let e = fs.handles[h].entry;
    let src = fs.entries[e].stat.parent->0;
    let dst_name = path.name.file_name@;
    let ready = place_cleared(fs, path.parent, dst_name, e);
    &&& ready.entries[src].children().contains_key(folded(src_name))
    &&& ready.entries[path.parent].children().contains_key(folded(dst_name)) ==> src == path.parent
        && folded(src_name) == folded(dst_name)
}

/// Why nothing is moved.
pub open spec fn move_refusal(
    fs: FsView,
    h: usize,
    file_name: Seq<u16>,
    dest: Destination,
    replace: bool,
) -> Option<OperationError> {
    if name_start(file_name) is None {
        refuse(STATUS_INVALID_PARAMETER)
    } else if !fs.parent_live(fs.handles[h].entry) {
        refuse(STATUS_INVALID_DEVICE_REQUEST)
    } else {
        match dest {
            Destination::Stream { src, dst } => stream_move_refusal(fs, h, src, dst, replace),
            Destination::Path(path) => entry_move_refusal(fs, h, path, replace),
        }
    }
}

/// The last part of `path`.
pub open spec fn last_part(path: Seq<u16>) -> Seq<u16> {
    path.skip(name_start(path)->0)
}

/// The names that a move takes away and puts in place are such that it can be done.
pub open spec fn movable(fs: FsView, h: usize, file_name: Seq<u16>, dest: Destination) -> bool {
    match dest {
        Destination::Stream { src, dst } => stream_movable(fs, h, src->Ok_0, dst->Ok_0),
        Destination::Path(path) => entry_movable(fs, h, last_part(file_name), path->Ok_0->0),
    }
}

/// The file system after a move.
pub open spec fn moved(
    fs: FsView,
    h: usize,
    file_name: Seq<u16>,
    dest: Destination,
    now: u64,
) -> FsView {
    let handle = fs.handles[h];
    match dest {
        Destination::Stream { src, dst } => stream_moved(fs, h, src->Ok_0, dst->Ok_0, now),
        Destination::Path(path) => {
            let path = path->Ok_0->0;
            entry_moved(
                place_cleared(fs, path.parent, path.name.file_name@, handle.entry),
                handle,
                fs.entries[handle.entry].stat.parent->0,
                last_part(file_name),
                path.parent,
                path.name.file_name@,
                now,
            )
        },
    }
}

/// The path that is moved from is the one that leads to what handle `h` is on.
pub open spec fn own_name(fs: FsView, h: usize, file_name: Seq<u16>, dest: Destination) -> bool {
    let handle = fs.handles[h];
    let stat = fs.entries[handle.entry].stat;
    match dest {
        Destination::Stream { src, dst } => handle.alt_stream is Some ==> {
            &&& src->Ok_0.stream_info is Some
            &&& stream_found(fs, handle.entry, src->Ok_0.stream_info->0.name@)
                == handle.alt_stream
        },
        Destination::Path(path) => found(fs, stat.parent->0, last_part(file_name)) == Some(
            handle.entry,
        ),
    }
}

/// A file that goes takes nothing with it.
proof fn lemma_file_alone(fs: FsView, t: usize)
    requires
        !fs.entries[t].is_dir(),
    ensures
        freed(fs, t) =~= Set::empty().insert(t),
{
    let path = seq![t];
    assert(goes_down(fs, t, path));
    assert(path.last() == t);
    assert forall|c: usize| #[trigger] freed(fs, t).contains(c) implies c == t by {
        let path = choose|path: Seq<usize>| #[trigger] goes_down(fs, t, path) && path.last() == c;
        if path.len() > 1 {
            assert(fs.linked(path[0], path[1]));
        }
    }
}

/// Clearing a place takes nothing away but a file that is not open.
proof fn lemma_cleared(fs: FsView, d: usize, name: Seq<u16>, e: usize, replace: bool)
    requires
        fs.wf(),
        fs.entries.contains_key(d),
        fs.entries[d].is_dir(),
        place_refusal(fs, d, name, e, replace) is None,
    ensures
        forall|x: usize| #[trigger]
            fs.entries.contains_key(x) && (fs.entries[x].is_dir() || x == e) ==> place_cleared(
                fs,
                d,
                name,
                e,
            ).entries.contains_key(x) && place_cleared(fs, d, name, e).entries[x].is_dir()
                == fs.entries[x].is_dir() && place_cleared(fs, d, name, e).entries[x].stat
                == fs.entries[x].stat,
        forall|x: usize, key: Seq<u16>| #[trigger]
            fs.links(x, key, e) ==> place_cleared(fs, d, name, e).links(x, key, e),
{
}

/// Whether a new name names a stream of the same entry.
pub fn is_stream_name(new_file_name: &[u16]) -> (r: bool)
    ensures
        r == names_stream(new_file_name@),
{
    new_file_name.len() > 0 && new_file_name[0] == COLON
}

impl MemFsHandler {
    /// Whether entry `e` can take the place of what directory `d` holds under `name`.
    fn check_place(&self, d: usize, name: &Vec<u16>, e: usize, replace: bool) -> (r: Result<
        (),
        OperationError,
    >)
        requires
            self@.wf(),
            self@.entries.contains_key(e),
            self@.entries.contains_key(d),
            self@.entries[d].is_dir(),
        ensures
            match place_refusal(self@, d, name@, e, replace) {
                Some(error) => r == Err::<(), OperationError>(error),
                None => r is Ok,
            },
    {
        if let Some(t) = self.lookup(d, name.as_slice()) {
            proof {
                assert(self@.links(d, folded(name@), t));
            }
            if t == e {
                return Ok(());
            }
            if !replace {
                return nt_res(STATUS_OBJECT_NAME_COLLISION);
            }
            if self.entry(e).is_dir() || self.entry(t).is_dir() {
                return nt_res(STATUS_ACCESS_DENIED);
            }
            if self.stat(t).handle_count > 0 || has_flag(
                self.stat(t).attrs.value,
                FILE_ATTRIBUTE_READONLY,
            ) {
                return nt_res(STATUS_ACCESS_DENIED);
            }
        }
        Ok(())
    }

    /// Whether stream `alt` of entry `e`, or its main one, can take the place of the stream `name`.
    fn check_slot(&self, e: usize, name: &Vec<u16>, alt: Option<usize>, replace: bool) -> (r:
        Result<(), OperationError>)
        requires
            self@.wf(),
            self@.entries.contains_key(e),
        ensures
            match slot_refusal(self@, e, name@, alt, replace) {
                Some(error) => r == Err::<(), OperationError>(error),
                None => r is Ok,
            },
    {
        if let Some(t) = self.stat(e).alt_streams.get(EntryNameRef::new(name.as_slice())) {
            proof {
                assert(self@.owns(e, folded(name@), t));
            }
            if alt == Some(t) {
                return Ok(());
            }
            if !replace {
                return nt_res(STATUS_OBJECT_NAME_COLLISION);
            }
            if self.stream(t).handle_count > 0 {
                return nt_res(STATUS_ACCESS_DENIED);
            }
        }
        Ok(())
    }

    /// Whether the stream under handle `h` can be moved.
    fn check_stream_move(&self, h: usize, dst: &FullName, replace: bool) -> (r: Result<
        bool,
        OperationError,
    >)
        requires
            self@.wf(),
            self@.handles.contains_key(h),
        ensures
            forall|src: FullName|
                match #[trigger] stream_move_refusal(self@, h, Ok(src), Ok(*dst), replace) {
                    Some(error) => r == Err::<bool, OperationError>(error),
                    None => r == Ok::<bool, OperationError>(goes_to_main(self@, h, *dst)),
                },
            r matches Ok(main) && !main ==> dst.stream_info is Some,
    {
        proof {
            lemma_handle_counts(self@, h);
        }
        let handle = self.handle(h);
        let e: usize = handle.entry;
        let is_dir = self.entry(e).is_dir();
        let mut to_main = true;
        if let Some(stream_info) = &dst.stream_info {
            to_main = match stream_info.check_default(is_dir) {
                Ok(default) => default,
                Err(error) => return Err(error),
            };
        }
        if is_dir && (handle.alt_stream.is_none() || to_main) {
            return nt_res(STATUS_OBJECT_NAME_INVALID);
        }
        if to_main {
            if let Some(s) = handle.alt_stream {
                if self.stream(s).handle_count > 1 {
                    return nt_res(STATUS_SHARING_VIOLATION);
                }
                if !replace {
                    return nt_res(STATUS_OBJECT_NAME_COLLISION);
                }
            }
        } else if let Some(dst_info) = &dst.stream_info {
            if let Err(error) = self.check_slot(e, &dst_info.name, handle.alt_stream, replace) {
                return Err(error);
            }
        }
        Ok(to_main)
    }

    /// Whether what handle `h` is on can be moved, as far as rules go.
    fn check_move(
        &self,
        h: usize,
        file_name: &[u16],
        dest: &Destination,
        replace: bool,
    ) -> (r: Result<(), OperationError>)
        requires
            self@.wf(),
            self@.handles.contains_key(h),
            dest_valid(self@, *dest),
        ensures
            match move_refusal(self@, h, file_name@, *dest, replace) {
                Some(error) => r == Err::<(), OperationError>(error),
                None => r is Ok,
            },
    {
        proof {
            lemma_handle_counts(self@, h);
        }
        if find_name(file_name).is_none() {
            return nt_res(STATUS_INVALID_PARAMETER);
        }
        let handle = self.handle(h);
        let e: usize = handle.entry;
        match self.stat(e).parent {
            Some(d) => {
                if !self.has_entry(d) {
                    return nt_res(STATUS_INVALID_DEVICE_REQUEST);
                }
            },
            None => return nt_res(STATUS_INVALID_DEVICE_REQUEST),
        }
        match dest {
            Destination::Stream { src: Ok(src), dst: Ok(dst) } => {
                let checked = self.check_stream_move(h, dst, replace);
                assert((stream_move_refusal(self@, h, Ok(*src), Ok(*dst), replace) is None)
                    == checked is Ok);
                match checked {
                    Ok(_) => Ok(()),
                    Err(error) => Err(error),
                }
            },
            Destination::Stream { src: Err(error), dst: _ } => Err(*error),
            Destination::Stream { src: _, dst: Err(error) } => Err(*error),
            Destination::Path(path) => {
                if handle.alt_stream.is_some() {
                    return nt_res(STATUS_OBJECT_NAME_INVALID);
                }
                match path {
                    Ok(Some(path)) => {
                        if path.name.stream_info.is_some() {
                            return nt_res(STATUS_OBJECT_NAME_INVALID);
                        }
                        self.check_place(path.parent, &path.name.file_name, e, replace)
                    },
                    Ok(None) => nt_res(STATUS_OBJECT_NAME_INVALID),
                    Err(error) => Err(*error),
                }
            },
        }
    }

    /// Whether a move that is not refused can be done: the old name is there to be taken away, and
    /// the new one is free then.
    pub fn can_move(
        &self,
        h: usize,
        file_name: &[u16],
        dest: &Destination,
        replace_if_existing: bool,
    ) -> (r: bool)
        requires
            self@.wf(),
            self@.handles.contains_key(h),
            dest_valid(self@, *dest),
        ensures
            r == (move_refusal(self@, h, file_name@, *dest, replace_if_existing) is None ==> movable(
                self@,
                h,
                file_name@,
                *dest,
            )),
    {
        proof {
            lemma_handle_counts(self@, h);
        }
        if self.check_move(h, file_name, dest, replace_if_existing).is_err() {
            return true;
        }
        let handle = self.handle(h);
        let e: usize = handle.entry;
        match dest {
            Destination::Stream { src: Ok(src), dst: Ok(dst) } => {
                if handle.alt_stream.is_none() {
                    return true;
                }
                let src_name = match &src.stream_info {
                    Some(src_info) => EntryNameRef::new(src_info.name.as_slice()),
                    None => return false,
                };
                if self.stat(e).alt_streams.get(src_name).is_none() {
                    return false;
                }
                match self.check_stream_move(h, dst, replace_if_existing) {
                    Ok(to_main) => {
                        proof {
                            assert(stream_move_refusal(
                                self@,
                                h,
                                Ok(*src),
                                Ok(*dst),
                                replace_if_existing,
                            ) is None);
                        }
                        if to_main {
                            return true;
                        }
                    },
                    Err(_) => vstd::pervasive::unreached(),
                }
                match &dst.stream_info {
                    Some(dst_info) => {
                        let dst_name = EntryNameRef::new(dst_info.name.as_slice());
                        let t: Option<usize> = self.stat(e).alt_streams.get(dst_name);
                        t.is_none() || t == handle.alt_stream || !(src_name == dst_name)
                    },
                    None => vstd::pervasive::unreached(),
                }
            },
            Destination::Path(Ok(Some(path))) => {
                let src: usize = match self.stat(e).parent {
                    Some(d) => d,
                    None => vstd::pervasive::unreached(),
                };
                proof {
                    assert(self@.linked(src, e));
                    let key = choose|key: Seq<u16>| #[trigger] self@.links(src, key, e);
                    assert(self@.links(src, key, e));
                }
                let start: usize = match find_name(file_name) {
                    Some(start) => start,
                    None => vstd::pervasive::unreached(),
                };
                let src_name: &[u16] = vstd::slice::slice_subrange(
                    file_name,
                    start,
                    file_name.len(),
                );
                proof {
                    assert(src_name@ =~= last_part(file_name@));
                }
                if self.lookup(src, src_name).is_none() {
                    return false;
                }
                let dst_name: &[u16] = path.name.file_name.as_slice();
                let same = src == path.parent && EntryNameRef::new(src_name) == EntryNameRef::new(
                    dst_name,
                );
                match self.lookup(path.parent, dst_name) {
                    Some(t) => {
                        proof {
                            assert(self@.links(path.parent, folded(dst_name@), t));
                        }
                        (t == e) == same
                    },
                    None => true,
                }
            },
            _ => vstd::pervasive::unreached(),
        }
    }

    /// Whether the path that is moved from is the one that leads to what handle `h` is on, for a
    /// move that is not refused.
    pub fn is_own_name(
        &self,
        h: usize,
        file_name: &[u16],
        dest: &Destination,
        replace_if_existing: bool,
    ) -> (r: bool)
        requires
            self@.wf(),
            self@.handles.contains_key(h),
            dest_valid(self@, *dest),
        ensures
            r == (move_refusal(self@, h, file_name@, *dest, replace_if_existing) is None
                ==> own_name(self@, h, file_name@, *dest)),
    {
        proof {
            lemma_handle_counts(self@, h);
        }
        if self.check_move(h, file_name, dest, replace_if_existing).is_err() {
            return true;
        }
        let handle = self.handle(h);
        let e: usize = handle.entry;
        match dest {
            Destination::Stream { src: Ok(src), dst: Ok(_) } => {
                if handle.alt_stream.is_none() {
                    return true;
                }
                match &src.stream_info {
                    Some(src_info) => {
                        let name = EntryNameRef::new(src_info.name.as_slice());
                        self.stat(e).alt_streams.get(name) == handle.alt_stream
                    },
                    None => false,
                }
            },
            Destination::Path(_) => {
                let src: usize = match self.stat(e).parent {
                    Some(d) => d,
                    None => vstd::pervasive::unreached(),
                };
                proof {
                    assert(self@.linked(src, e));
                    let key = choose|key: Seq<u16>| #[trigger] self@.links(src, key, e);
                    assert(self@.links(src, key, e));
                }
                let start: usize = match find_name(file_name) {
                    Some(start) => start,
                    None => vstd::pervasive::unreached(),
                };
                let src_name: &[u16] = vstd::slice::slice_subrange(
                    file_name,
                    start,
                    file_name.len(),
                );
                proof {
                    assert(src_name@ =~= last_part(file_name@));
                }
                self.lookup(src, src_name) == Some(e)
            },
            _ => vstd::pervasive::unreached(),
        }
    }

    /// Moves what handle `h` is on, which was opened by `file_name`. `dest` is what
    /// `new_file_name` stands for.
    pub fn move_file(
        &mut self,
        h: usize,
        file_name: &[u16],
        new_file_name: &[u16],
        dest: &Destination,
        replace_if_existing: bool,
        now: u64,
    ) -> (r: Result<(), OperationError>)
        requires
            old(self)@.wf(),
            old(self)@.handles.contains_key(h),
            names_stream(new_file_name@) == (*dest is Stream),
            dest_valid(old(self)@, *dest),
            move_refusal(old(self)@, h, file_name@, *dest, replace_if_existing) is None ==> movable(
                old(self)@,
                h,
                file_name@,
                *dest,
            ),
        ensures
            match move_refusal(old(self)@, h, file_name@, *dest, replace_if_existing) {
                Some(error) => {
                    &&& r == Err::<(), OperationError>(error)
                    &&& final(self)@ == old(self)@
                },
                None => {
                    &&& r is Ok
                    &&& final(self)@ == moved(old(self)@, h, file_name@, *dest, now)
                },
            },
            r is Err || own_name(old(self)@, h, file_name@, *dest) ==> final(self)@.wf(),
    {
        let ghost before = self@;
        proof {
            lemma_handle_counts(before, h);
        }
        if let Err(error) = self.check_move(h, file_name, dest, replace_if_existing) {
            return Err(error);
        }
        let handle = self.handle(h);
        let e: usize = handle.entry;
        match dest {
            Destination::Stream { src: Ok(src), dst: Ok(dst) } => {
                let to_main = match self.check_stream_move(h, dst, replace_if_existing) {
                    Ok(to_main) => to_main,
                    Err(error) => return Err(error),
                };
                proof {
                    assert(stream_move_refusal(
                        before,
                        h,
                        Ok(*src),
                        Ok(*dst),
                        replace_if_existing,
                    ) is None);
                }
                self.move_stream(h, src, dst, to_main, now, Ghost(replace_if_existing));
            },
            Destination::Path(Ok(Some(path))) => {
                let src: usize = match self.stat(e).parent {
                    Some(d) => d,
                    None => vstd::pervasive::unreached(),
                };
                let start: usize = match find_name(file_name) {
                    Some(start) => start,
                    None => vstd::pervasive::unreached(),
                };
                let src_name: &[u16] = vstd::slice::slice_subrange(
                    file_name,
                    start,
                    file_name.len(),
                );
                let dst_name: &Vec<u16> = &path.name.file_name;
                proof {
                    assert(before.linked(src, e));
                    let key = choose|key: Seq<u16>| #[trigger] before.links(src, key, e);
                    assert(before.links(src, key, e));
                    assert(src_name@ =~= last_part(file_name@));
                    lemma_cleared(before, path.parent, dst_name@, e, replace_if_existing);
                }
                self.clear_place(path.parent, dst_name, e, Ghost(replace_if_existing));
                self.move_entry(handle, src, src_name, path.parent, dst_name, now);
            },
            _ => vstd::pervasive::unreached(),
        }
        Ok(())
    }

    /// Moves the stream under handle `h`, to the main one of its entry or another.
    fn move_stream(
        &mut self,
        h: usize,
        src: &FullName,
        dst: &FullName,
        to_main: bool,
        now: u64,
        Ghost(replace): Ghost<bool>,
    )
        requires
            old(self)@.wf(),
            old(self)@.handles.contains_key(h),
            dst.valid(),
            to_main == goes_to_main(old(self)@, h, *dst),
            stream_move_refusal(old(self)@, h, Ok(*src), Ok(*dst), replace) is None,
            stream_movable(old(self)@, h, *src, *dst),
        ensures
            final(self)@ == stream_moved(old(self)@, h, *src, *dst, now),
            (old(self)@.handles[h].alt_stream is Some ==> stream_found(
                old(self)@,
                old(self)@.handles[h].entry,
                src.stream_info->0.name@,
            ) == old(self)@.handles[h].alt_stream) ==> final(self)@.wf(),
    {
        let ghost before = self@;
        proof {
            lemma_handle_counts(before, h);
        }
        let handle = self.handle(h);
        let e: usize = handle.entry;
        if to_main {
            if handle.alt_stream.is_none() {
                self.stat_mut(e).update_atime(now);
                proof {
                    lemma_same_shape(before, self@, ROOT);
                }
            } else {
                match &src.stream_info {
                    Some(src_info) => self.move_stream_to_main(h, &src_info.name, now),
                    None => vstd::pervasive::unreached(),
                }
            }
        } else if let Some(dst_info) = &dst.stream_info {
            self.clear_slot(e, &dst_info.name, handle.alt_stream, Ghost(replace));
            if handle.alt_stream.is_none() {
                self.move_main_to_stream(h, &dst_info.name, now);
            } else {
                match &src.stream_info {
                    Some(src_info) => self.move_stream_to_stream(
                        h,
                        &src_info.name,
                        &dst_info.name,
                        now,
                    ),
                    None => vstd::pervasive::unreached(),
                }
            }
        }
    }

    /// Clears the place `name` in directory `d` for entry `e`.
    fn clear_place(&mut self, d: usize, name: &Vec<u16>, e: usize, Ghost(replace): Ghost<bool>)
        requires
            old(self)@.wf(),
            old(self)@.entries.contains_key(e),
            old(self)@.entries.contains_key(d),
            old(self)@.entries[d].is_dir(),
            place_refusal(old(self)@, d, name@, e, replace) is None,
        ensures
            final(self)@ == place_cleared(old(self)@, d, name@, e),
            final(self)@.wf(),
    {
        let ghost before = self@;
        if let Some(t) = self.lookup(d, name.as_slice()) {
            if t != e {
                let _ = self.children_mut(d).remove(EntryNameRef::new(name.as_slice()));
                proof {
                    assert(before.links(d, folded(name@), t));
                    assert(before.wf_but(t));
                    lemma_unlinked(before, d, folded(name@), t);
                    lemma_file_alone(self@, t);
                }
                self.release(t);
            }
        }
    }

    /// Clears the place `name` among the streams of entry `e`.
    fn clear_slot(
        &mut self,
        e: usize,
        name: &Vec<u16>,
        alt: Option<usize>,
        Ghost(replace): Ghost<bool>,
    )
        requires
            old(self)@.wf(),
            old(self)@.entries.contains_key(e),
            slot_refusal(old(self)@, e, name@, alt, replace) is None,
        ensures
            final(self)@ == slot_cleared(old(self)@, e, name@, alt),
            final(self)@.wf(),
    {
        let ghost before = self@;
        let found: Option<usize> = self.stat(e).alt_streams.get(EntryNameRef::new(name.as_slice()));
        if let Some(t) = found {
            proof {
                assert(before.owns(e, folded(name@), t));
            }
            if alt != Some(t) {
                let _ = self.stat_mut(e).alt_streams.remove(EntryNameRef::new(name.as_slice()));
                self.remove_stream(t);
                proof {
                    assert(stream_gone(before, self@, e, folded(name@), t));
                    lemma_stream_gone(before, self@, e, folded(name@), t, ROOT);
                }
            }
        }
    }

    /// Moves what directory `src` holds under `src_name`.
    fn move_entry(
        &mut self,
        handle: EntryHandle,
        src: usize,
        src_name: &[u16],
        dst: usize,
        dst_name: &Vec<u16>,
        now: u64,
    )
        requires
            old(self)@.wf(),
            old(self)@.entries.contains_key(handle.entry),
            old(self)@.entries[handle.entry].stat.parent == Some(src),
            old(self)@.entries.contains_key(src),
            old(self)@.entries[src].is_dir(),
            old(self)@.entries.contains_key(dst),
            old(self)@.entries[dst].is_dir(),
            old(self)@.entries[src].children().contains_key(folded(src_name@)),
            old(self)@.entries[dst].children().contains_key(folded(dst_name@)) ==> src == dst
                && folded(src_name@) == folded(dst_name@),
        ensures
            final(self)@ == entry_moved(
                old(self)@,
                handle,
                src,
                src_name@,
                dst,
                dst_name@,
                now,
            ),
            no_nul(dst_name@) && old(self)@.links(src, folded(src_name@), handle.entry)
                ==> final(self)@.wf(),
    {
        let ghost before = self@;
        let e: usize = handle.entry;
        let id: usize = match self.children_mut(src).remove(EntryNameRef::new(src_name)) {
            Some(id) => id,
            None => vstd::pervasive::unreached(),
        };
        let ghost out = self@;
        let _ = self.children_mut(dst).insert(EntryName::new(dst_name.as_slice()), id);
        self.stat_mut(src).update_mtime(now);
        if src != dst {
            self.stat_mut(dst).update_mtime(now);
            self.stat_mut(e).parent = Some(dst);
        }
        handle.update_atime(self.stat_mut(e), now);
        proof {
            if no_nul(dst_name@) && before.links(src, folded(src_name@), e) {
                assert(before.wf_but(e));
                lemma_unlinked(before, src, folded(src_name@), e);
                lemma_relinked(out, self@, dst, dst_name@, e);
            }
        }
    }

    /// Makes the bytes of the file under handle `h` a new stream.
    fn move_main_to_stream(&mut self, h: usize, name: &Vec<u16>, now: u64)
        requires
            old(self)@.wf(),
            old(self)@.handles.contains_key(h),
            old(self)@.handles[h].alt_stream is None,
            !old(self)@.entries[old(self)@.handles[h].entry].is_dir(),
            stream_found(old(self)@, old(self)@.handles[h].entry, name@) is None,
            no_nul(name@),
        ensures
            final(self)@ == main_to_stream(old(self)@, h, name@, now),
            final(self)@.wf(),
    {
        let handle = self.handle(h);
        let e: usize = handle.entry;
        let delete_pending = self.stat(e).delete_pending;
        let s: usize = self.create_stream(e, name);
        let ghost mid = self@;
        let mut data: Vec<u8> = Vec::new();
        std::mem::swap(&mut data, self.data_mut(e));
        let stat = self.stat_mut(e);
        stat.delete_pending = false;
        stat.update_atime(now);
        let stream = self.stream_mut(s);
        stream.handle_count = 1;
        stream.delete_pending = delete_pending;
        stream.data = data;
        self.set_handle(h, EntryHandle { alt_stream: Some(s), ..handle });
        proof {
            assert(handle_turned(mid, self@, h));
            lemma_handle_turned(mid, self@, h);
            assert(self@ =~= main_to_stream(old(self)@, h, name@, now));
        }
    }

    /// Makes the bytes of the stream under handle `h` those of the file.
    fn move_stream_to_main(&mut self, h: usize, name: &Vec<u16>, now: u64)
        requires
            old(self)@.wf(),
            old(self)@.handles.contains_key(h),
            old(self)@.handles[h].alt_stream is Some,
            old(self)@.streams[old(self)@.handles[h].alt_stream->0].handle_count <= 1,
            !old(self)@.entries[old(self)@.handles[h].entry].is_dir(),
            stream_found(old(self)@, old(self)@.handles[h].entry, name@) is Some,
        ensures
            final(self)@ == stream_to_main(old(self)@, h, name@, now),
            old(self)@.owns(
                old(self)@.handles[h].entry,
                folded(name@),
                old(self)@.handles[h].alt_stream->0,
            ) ==> final(self)@.wf(),
    {
        let ghost before = self@;
        proof {
            lemma_handle_counts(before, h);
        }
        let handle = self.handle(h);
        let e: usize = handle.entry;
        let s: usize = match handle.alt_stream {
            Some(s) => s,
            None => vstd::pervasive::unreached(),
        };
        let delete_pending = self.stream(s).delete_pending;
        let data: Vec<u8> = self.stream(s).data.clone();
        let count: u32 = self.stream(s).handle_count - 1;
        let stream = self.stream_mut(s);
        stream.handle_count = count;
        stream.delete_pending = false;
        *self.data_mut(e) = data;
        self.set_handle(h, EntryHandle { alt_stream: None, ..handle });
        let ghost turned = self@;
        proof {
            assert(handle_turned(before, turned, h));
            lemma_handle_turned(before, turned, h);
        }
        let stat = self.stat_mut(e);
        stat.delete_pending = delete_pending;
        let t: usize = match stat.alt_streams.remove(EntryNameRef::new(name.as_slice())) {
            Some(t) => t,
            None => vstd::pervasive::unreached(),
        };
        stat.update_atime(now);
        proof {
            assert(turned.owns(e, folded(name@), t));
        }
        if self.stream(t).handle_count == 0 {
            self.remove_stream(t);
            proof {
                assert(stream_gone(turned, self@, e, folded(name@), t));
                lemma_stream_gone(turned, self@, e, folded(name@), t, ROOT);
            }
        }
        proof {
            assert(self@ =~= stream_to_main(before, h, name@, now));
        }
    }

    /// Gives a stream of the entry under handle `h` another name.
    fn move_stream_to_stream(
        &mut self,
        h: usize,
        src_name: &Vec<u16>,
        dst_name: &Vec<u16>,
        now: u64,
    )
        requires
            old(self)@.wf(),
            old(self)@.handles.contains_key(h),
            old(self)@.handles[h].alt_stream is Some,
            stream_found(old(self)@, old(self)@.handles[h].entry, src_name@) is Some,
            stream_found(old(self)@, old(self)@.handles[h].entry, dst_name@) matches Some(t)
                ==> old(self)@.handles[h].alt_stream == Some(t),
        ensures
            final(self)@ == stream_to_stream(old(self)@, h, src_name@, dst_name@, now),
            no_nul(dst_name@) && old(self)@.owns(
                old(self)@.handles[h].entry,
                folded(src_name@),
                old(self)@.handles[h].alt_stream->0,
            ) ==> final(self)@.wf(),
    {
        let ghost before = self@;
        let handle = self.handle(h);
        let e: usize = handle.entry;
        let stat = self.stat_mut(e);
        let t: usize = match stat.alt_streams.remove(EntryNameRef::new(src_name.as_slice())) {
            Some(t) => t,
            None => vstd::pervasive::unreached(),
        };
        let _ = stat.alt_streams.insert(EntryName::new(dst_name.as_slice()), t);
        stat.update_atime(now);
        self.set_handle(h, EntryHandle { alt_stream: Some(t), ..handle });
        proof {
            assert(self@ =~= stream_to_stream(before, h, src_name@, dst_name@, now));
            let s = handle.alt_stream->0;
            if no_nul(dst_name@) && before.owns(e, folded(src_name@), s) {
                if before.entries[e].stat.alt_streams.contains_key(folded(dst_name@)) {
                    assert(before.owns(e, folded(dst_name@), s));
                }
                lemma_stream_renamed(before, self@, e, folded(src_name@), dst_name@, s);
            }
        }
    }
}

} // verus!