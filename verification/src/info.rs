//! What handles and the file system tell about themselves.
use vstd::prelude::*;

use crate::attributes::output_attrs;
use crate::entry::{Entry, Names, SecurityDescriptor};
use crate::io::bytes_of;
use crate::keep::lemma_handle_counts;
use crate::memfs::MemFsHandler;
use crate::model::FsView;
use crate::name::{folded, lists, no_nul, EntryName, Link};
use crate::path::COLON;
use crate::status::{nt_res, OperationError, STATUS_INVALID_DEVICE_REQUEST};
use crate::wide::{lemma_utf16_no_nul, name_from_str, name_from_units, string_from_str, utf16};

verus! {

/// What is told of an open handle.
#[derive(Clone, Copy, Debug, PartialEq, Eq, Structural)]
pub struct FileInfo {
    pub attributes: u32,
    pub creation_time: u64,
    pub last_access_time: u64,
    pub last_write_time: u64,
    pub file_size: u64,
    pub number_of_links: u32,
    pub file_index: u64,
}

/// What a listing of a directory tells of one entry.
#[derive(Debug)]
pub struct FindData {
    pub attributes: u32,
    pub creation_time: u64,
    pub last_access_time: u64,
    pub last_write_time: u64,
    pub file_size: u64,
    pub file_name: Vec<u16>,
}

/// What a listing of streams tells of one stream.
#[derive(Debug)]
pub struct FindStreamData {
    pub size: i64,
    pub name: Vec<u16>,
}

#[derive(Clone, Copy, Debug, PartialEq, Eq, Structural)]
pub struct DiskSpaceInfo {
    pub byte_count: u64,
    pub free_byte_count: u64,
    pub available_byte_count: u64,
}

#[derive(Debug)]
pub struct VolumeInfo {
    pub name: Vec<u16>,
    pub serial_number: u32,
    pub max_component_length: u32,
    pub fs_flags: u32,
    pub fs_name: Vec<u16>,
}

pub const FILE_CASE_SENSITIVE_SEARCH: u32 = 0x00000001;

pub const FILE_CASE_PRESERVED_NAMES: u32 = 0x00000002;

pub const FILE_UNICODE_ON_DISK: u32 = 0x00000004;

pub const FILE_PERSISTENT_ACLS: u32 = 0x00000008;

pub const FILE_NAMED_STREAMS: u32 = 0x00040000;

/// Handle `h` is on a directory itself, not on a stream of it.
pub open spec fn on_dir(fs: FsView, h: usize) -> bool {
    fs.handles[h].alt_stream is None && fs.entries[fs.handles[h].entry].is_dir()
}

/// What is told of handle `h`.
pub open spec fn file_info(fs: FsView, h: usize) -> FileInfo {
    let stat = fs.entries[fs.handles[h].entry].stat;
    FileInfo {
        attributes: output_attrs(stat.attrs, on_dir(fs, h)),
        creation_time: stat.ctime,
        last_access_time: stat.atime,
        last_write_time: stat.mtime,
        file_size: match bytes_of(fs, h) {
            Some(bytes) => bytes.len() as u64,
            None => 0,
        },
        number_of_links: 1,
        file_index: stat.id,
    }
}

/// `keys` are the names in `names`, each once.
pub open spec fn enumerates(keys: Seq<Seq<u16>>, names: Names) -> bool {
    &&& keys.no_duplicates()
    &&& forall|i: int| 0 <= i < keys.len() ==> names.contains_key(#[trigger] keys[i])
    &&& forall|key: Seq<u16>| #[trigger] names.contains_key(key) ==> keys.contains(key)
}

/// `item` tells of the entry behind `link`.
pub open spec fn tells(item: FindData, fs: FsView, link: Link) -> bool {
    let entry = fs.entries[link.id];
    &&& item.attributes == output_attrs(entry.stat.attrs, entry.is_dir())
    &&& item.creation_time == entry.stat.ctime
    &&& item.last_access_time == entry.stat.atime
    &&& item.last_write_time == entry.stat.mtime
    &&& item.file_size == entry.data().len() as u64
    &&& item.file_name@ == link.name
}

/// `items` tells of every entry in directory `d` once, in some order.
pub open spec fn lists_entries(items: Seq<FindData>, fs: FsView, d: usize) -> bool {
    let names = fs.entries[d].children();
    exists|keys: Seq<Seq<u16>>| #[trigger]
        enumerates(keys, names) && items.len() == keys.len() && forall|i: int|
            0 <= i < items.len() ==> tells(#[trigger] items[i], fs, names[keys[i]])
}

/// How the stream `name` is called in a listing.
pub open spec fn stream_title(name: Seq<u16>) -> Seq<u16> {
    seq![COLON] + name + utf16(":$DATA"@)
}

/// `item` tells of the stream behind `link`.
pub open spec fn tells_stream(item: FindStreamData, fs: FsView, link: Link) -> bool {
    &&& item.size == fs.streams[link.id].data.len() as i64
    &&& item.name@ == stream_title(link.name)
}

/// `items` tells of every stream in `names` once, in some order.
pub open spec fn lists_streams(items: Seq<FindStreamData>, fs: FsView, names: Names) -> bool {
    exists|keys: Seq<Seq<u16>>| #[trigger]
        enumerates(keys, names) && items.len() == keys.len() && forall|i: int|
            0 <= i < items.len() ==> tells_stream(#[trigger] items[i], fs, names[keys[i]])
}

/// The keys of `items`.
spec fn keys_of(items: Seq<(EntryName, usize)>) -> Seq<Seq<u16>> {
    Seq::new(items.len(), |i: int| folded(items[i].0@))
}

proof fn lemma_enumerates(items: Seq<(EntryName, usize)>, names: Names)
    requires
        lists(items, names),
    ensures
        enumerates(keys_of(items), names),
        forall|i: int|
            0 <= i < items.len() ==> names[#[trigger] keys_of(items)[i]] == (Link {
                name: items[i].0@,
                id: items[i].1,
            }),
{
    let keys = keys_of(items);
    assert forall|i: int| 0 <= i < items.len() implies names.contains_key(#[trigger] keys[i])
        && names[keys[i]] == (Link { name: items[i].0@, id: items[i].1 }) by {
        assert(keys[i] == folded(items[i].0@));
    }
    assert forall|i: int, j: int|
        0 <= i < keys.len() && 0 <= j < keys.len() && i != j implies keys[i] != keys[j] by {
        if i < j {
            assert(folded(items[i].0@) != folded(items[j].0@));
        } else {
            assert(folded(items[j].0@) != folded(items[i].0@));
        }
    }
    assert forall|key: Seq<u16>| #[trigger] names.contains_key(key) implies keys.contains(key) by {
        let i = choose|i: int| 0 <= i < items.len() && folded(#[trigger] items[i].0@) == key;
        assert(keys[i] == key);
    }
}

impl MemFsHandler {
    /// Whether handle `h` is on a directory itself.
    pub fn is_dir(&self, h: usize) -> (r: bool)
        requires
            self@.wf(),
            self@.handles.contains_key(h),
        ensures
            r == on_dir(self@, h),
    {
        proof {
            lemma_handle_counts(self@, h);
        }
        let handle = self.handle(h);
        handle.is_dir(self.entry(handle.entry))
    }

    pub fn get_file_information(&self, h: usize) -> (r: Result<FileInfo, OperationError>)
        requires
            self@.wf(),
            self@.handles.contains_key(h),
        ensures
            r == Ok::<FileInfo, OperationError>(file_info(self@, h)),
    {
        proof {
            lemma_handle_counts(self@, h);
        }
        let handle = self.handle(h);
        let stat = self.stat(handle.entry);
        Ok(
            FileInfo {
                attributes: stat.attrs.get_output_attrs(self.is_dir(h)),
                creation_time: stat.ctime,
                last_access_time: stat.atime,
                last_write_time: stat.mtime,
                file_size: match self.len_of(h) {
                    Some(len) => len as u64,
                    None => 0,
                },
                number_of_links: 1,
                file_index: stat.id,
            },
        )
    }

    /// The entries in the directory that handle `h` is on.
    pub fn find_files(&self, h: usize) -> (r: Result<Vec<FindData>, OperationError>)
        requires
            self@.wf(),
            self@.handles.contains_key(h),
        ensures
            if on_dir(self@, h) {
                r is Ok && lists_entries(r->Ok_0@, self@, self@.handles[h].entry)
            } else {
                r == Err::<Vec<FindData>, OperationError>(
                    OperationError::NtStatus(STATUS_INVALID_DEVICE_REQUEST),
                )
            },
    {
        proof {
            lemma_handle_counts(self@, h);
        }
        if !self.is_dir(h) {
            return nt_res(STATUS_INVALID_DEVICE_REQUEST);
        }
        let d: usize = self.handle(h).entry;
        let items: &Vec<(EntryName, usize)> = self.children(d).items();
        let mut found: Vec<FindData> = Vec::new();
        let ghost names = self@.entries[d].children();
        let mut i: usize = 0;
        while i < items.len()
            invariant
                i <= items@.len(),
                self@.wf(),
                self@.entries.contains_key(d),
                names == self@.entries[d].children(),
                lists(items@, names),
                found@.len() == i,
                forall|j: int|
                    0 <= j < i ==> tells(
                        #[trigger] found@[j],
                        self@,
                        Link { name: items@[j].0@, id: items@[j].1 },
                    ),
            decreases items@.len() - i,
        {
            let c: usize = items[i].1;
            proof {
                assert(self@.links(d, folded(items@[i as int].0@), c));
            }
            let stat = self.stat(c);
            found.push(
                FindData {
                    attributes: stat.attrs.get_output_attrs(self.entry(c).is_dir()),
                    creation_time: stat.ctime,
                    last_access_time: stat.atime,
                    last_write_time: stat.mtime,
                    file_size: match self.entry(c) {
                        Entry::File(file) => file.data.len() as u64,
                        Entry::Directory(_) => 0,
                    },
                    file_name: name_from_units(items[i].0.borrow().units),
                },
            );
            i += 1;
        }
        proof {
            lemma_enumerates(items@, names);
            assert forall|j: int| 0 <= j < found@.len() implies tells(
                #[trigger] found@[j],
                self@,
                names[keys_of(items@)[j]],
            ) by {}
        }
        Ok(found)
    }

    /// The streams of the entry that handle `h` is on: the main one of a file, then the others.
    pub fn find_streams(&self, h: usize) -> (r: Result<Vec<FindStreamData>, OperationError>)
        requires
            self@.wf(),
            self@.handles.contains_key(h),
        ensures
            r is Ok,
            ({
                let entry = self@.entries[self@.handles[h].entry];
                let items = r->Ok_0@;
                if entry.is_dir() {
                    lists_streams(items, self@, entry.stat.alt_streams)
                } else {
                    &&& items.len() > 0
                    &&& items[0].size == entry.data().len() as i64
                    &&& items[0].name@ == utf16("::$DATA"@)
                    &&& lists_streams(items.skip(1), self@, entry.stat.alt_streams)
                }
            }),
    {
        proof {
            lemma_handle_counts(self@, h);
            reveal_strlit("::$DATA");
            reveal_strlit(":$DATA");
            lemma_utf16_no_nul(":$DATA"@);
        }
        let e: usize = self.handle(h).entry;
        let mut found: Vec<FindStreamData> = Vec::new();
        if let Entry::File(file) = self.entry(e) {
            found.push(
                FindStreamData { size: file.data.len() as i64, name: name_from_str("::$DATA") },
            );
        }
        let ghost first = found@;
        let items: &Vec<(EntryName, usize)> = self.stat(e).alt_streams.items();
        let ghost names = self@.entries[e].stat.alt_streams;
        let mut i: usize = 0;
        while i < items.len()
            invariant
                i <= items@.len(),
                self@.wf(),
                self@.entries.contains_key(e),
                names == self@.entries[e].stat.alt_streams,
                lists(items@, names),
                no_nul(utf16(":$DATA"@)),
                found@.len() == first.len() + i,
                forall|j: int| 0 <= j < first.len() ==> found@[j] == first[j],
                forall|j: int|
                    0 <= j < i ==> tells_stream(
                        #[trigger] found@[first.len() + j],
                        self@,
                        Link { name: items@[j].0@, id: items@[j].1 },
                    ),
            decreases items@.len() - i,
        {
            let s: usize = items[i].1;
            proof {
                assert(self@.owns(e, folded(items@[i as int].0@), s));
            }
            let mut name_buf: Vec<u16> = vec![COLON];
            name_buf.extend_from_slice(items[i].0.borrow().units);
            name_buf.extend_from_slice(string_from_str(":$DATA").as_slice());
            proof {
                assert(name_buf@ =~= stream_title(items@[i as int].0@));
            }
            found.push(
                FindStreamData {
                    size: self.stream(s).data.len() as i64,
                    name: name_from_units(name_buf.as_slice()),
                },
            );
            i += 1;
        }
        proof {
            lemma_enumerates(items@, names);
            let rest = found@.skip(first.len() as int);
            assert forall|j: int| 0 <= j < rest.len() implies tells_stream(
                #[trigger] rest[j],
                self@,
                names[keys_of(items@)[j]],
            ) by {
                assert(rest[j] == found@[first.len() + j]);
            }
            assert(lists_streams(rest, self@, names));
            if first.len() == 0 {
                assert(rest =~= found@);
            } else {
                assert(found@[0] == first[0]);
            }
        }
        Ok(found)
    }

    /// The security descriptor of the entry that handle `h` is on.
    pub fn get_file_security(&self, h: usize) -> (r: &SecurityDescriptor)
        requires
            self@.wf(),
            self@.handles.contains_key(h),
        ensures
            r@ == self@.entries[self@.handles[h].entry].stat.sec_desc,
    {
        proof {
            lemma_handle_counts(self@, h);
        }
        let e: usize = self.handle(h).entry;
        &self.stat(e).sec_desc
    }

    /// The security descriptor of directory `d`, which new entries in it inherit from.
    pub fn directory_security(&self, d: usize) -> (r: &SecurityDescriptor)
        requires
            self@.entries.contains_key(d),
            self@.entries[d].is_dir(),
        ensures
            r@ == self@.entries[d].stat.sec_desc,
    {
        &self.stat(d).sec_desc
    }

    /// The room that is claimed for the volume.
    pub fn get_disk_free_space(&self) -> (r: Result<DiskSpaceInfo, OperationError>)
        ensures
            r == Ok::<DiskSpaceInfo, OperationError>(
                (DiskSpaceInfo {
                    byte_count: 1_073_741_824,
                    free_byte_count: 536_870_912,
                    available_byte_count: 536_870_912,
                }),
            ),
    {
        Ok(
            DiskSpaceInfo {
                byte_count: 1024 * 1024 * 1024,
                free_byte_count: 512 * 1024 * 1024,
                available_byte_count: 512 * 1024 * 1024,
            },
        )
    }

    /// What the volume is called and can do. `max_component_length` is the longest name that paths
    /// may hold. A file system name of its own does not play well with user account control.
    pub fn get_volume_information(&self, max_component_length: u32) -> (r: Result<
        VolumeInfo,
        OperationError,
    >)
        ensures
            r matches Ok(info) && {
                &&& info.name@ == utf16("dokan-rust memfs"@)
                &&& info.serial_number == 0
                &&& info.max_component_length == max_component_length
                &&& info.fs_flags == 0x4000F
                &&& info.fs_name@ == utf16("NTFS"@)
            },
    {
        proof {
            reveal_strlit("dokan-rust memfs");
            reveal_strlit("NTFS");
            assert(2u32 | 1 | 4 | 8 | 0x00040000 == 0x4000F) by (bit_vector);
        }
        Ok(
            VolumeInfo {
                name: name_from_str("dokan-rust memfs"),
                serial_number: 0,
                max_component_length,
                fs_flags: FILE_CASE_PRESERVED_NAMES | FILE_CASE_SENSITIVE_SEARCH
                    | FILE_UNICODE_ON_DISK | FILE_PERSISTENT_ACLS | FILE_NAMED_STREAMS,
                fs_name: name_from_str("NTFS"),
            },
        )
    }

    pub fn mounted(&self) -> (r: Result<(), OperationError>)
        ensures
            r == Ok::<(), OperationError>(()),
    {
        Ok(())
    }

    pub fn unmounted(&self) -> (r: Result<(), OperationError>)
        ensures
            r == Ok::<(), OperationError>(()),
    {
        Ok(())
    }
}

} // verus!
