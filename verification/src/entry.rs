//! Files, directories and streams as they lie in the file system's tables.
use vstd::prelude::*;

use crate::attributes::{Attributes, SUPPORTED_ATTRS};
use crate::name::{Link, NameMap};

verus! {

/// The names in a directory, or of the streams of an entry: folded name to spelling and number.
pub type Names = Map<Seq<u16>, Link>;

/// A security descriptor in its self-relative binary form. It is carried, never looked into.
#[derive(Debug)]
pub struct SecurityDescriptor {
    pub bytes: Vec<u8>,
}

impl SecurityDescriptor {
    pub open spec fn view(&self) -> Seq<u8> {
        self.bytes@
    }
}

/// A stream beside the main one of an entry.
#[derive(Debug)]
pub struct AltStream {
    pub handle_count: u32,
    pub delete_pending: bool,
    pub data: Vec<u8>,
}

/// The value of an [`AltStream`].
#[verifier::ext_equal]
pub struct StreamView {
    pub handle_count: u32,
    pub delete_pending: bool,
    pub data: Seq<u8>,
}

/// A stream that nobody has opened or written.
pub open spec fn new_stream() -> StreamView {
    StreamView { handle_count: 0, delete_pending: false, data: Seq::empty() }
}

impl AltStream {
    pub open spec fn view(&self) -> StreamView {
        StreamView {
            handle_count: self.handle_count,
            delete_pending: self.delete_pending,
            data: self.data@,
        }
    }

    pub fn new() -> (r: Self)
        ensures
            r@ == new_stream(),
    {
        Self { handle_count: 0, delete_pending: false, data: Vec::new() }
    }
}

/// What a file and a directory have in common. Times are in units of 100 ns since 1601.
#[derive(Debug)]
pub struct Stat {
    pub id: u64,
    pub attrs: Attributes,
    pub ctime: u64,
    pub mtime: u64,
    pub atime: u64,
    pub sec_desc: SecurityDescriptor,
    pub handle_count: u32,
    pub delete_pending: bool,
    /// The directory that the entry was last put into. It may be gone by now.
    pub parent: Option<usize>,
    pub alt_streams: NameMap,
}

/// The value of a [`Stat`].
#[verifier::ext_equal]
pub struct StatView {
    pub id: u64,
    pub attrs: u32,
    pub ctime: u64,
    pub mtime: u64,
    pub atime: u64,
    pub sec_desc: Seq<u8>,
    pub handle_count: u32,
    pub delete_pending: bool,
    pub parent: Option<usize>,
    pub alt_streams: Names,
}

impl StatView {
    /// What a new entry starts with.
    pub open spec fn fresh(id: u64, attrs: u32, sec_desc: Seq<u8>, parent: Option<usize>, now: u64) -> Self {
        StatView {
            id,
            attrs: attrs & SUPPORTED_ATTRS,
            ctime: now,
            mtime: now,
            atime: now,
            sec_desc,
            handle_count: 0,
            delete_pending: false,
            parent,
            alt_streams: Map::empty(),
        }
    }

    /// Accessed at `t`.
    pub open spec fn accessed(self, t: u64) -> Self {
        StatView { atime: t, ..self }
    }

    /// Changed, and so accessed, at `t`.
    pub open spec fn modified(self, t: u64) -> Self {
        StatView { mtime: t, atime: t, ..self }
    }
}

impl Stat {
    pub open spec fn view(&self) -> StatView {
        StatView {
            id: self.id,
            attrs: self.attrs.value,
            ctime: self.ctime,
            mtime: self.mtime,
            atime: self.atime,
            sec_desc: self.sec_desc@,
            handle_count: self.handle_count,
            delete_pending: self.delete_pending,
            parent: self.parent,
            alt_streams: self.alt_streams@,
        }
    }

    pub fn new(
        id: u64,
        attrs: u32,
        sec_desc: SecurityDescriptor,
        parent: Option<usize>,
        now: u64,
    ) -> (r: Self)
        ensures
            r@ == StatView::fresh(id, attrs, sec_desc@, parent, now),
    {
        Self {
            id,
            attrs: Attributes::new(attrs),
            ctime: now,
            mtime: now,
            atime: now,
            sec_desc,
            handle_count: 0,
            delete_pending: false,
            parent,
            alt_streams: NameMap::new(),
        }
    }

    pub fn update_atime(&mut self, atime: u64)
        ensures
            final(self)@ == old(self)@.accessed(atime),
    {
        self.atime = atime;
    }

    pub fn update_mtime(&mut self, mtime: u64)
        ensures
            final(self)@ == old(self)@.modified(mtime),
    {
        self.update_atime(mtime);
        self.mtime = mtime;
    }
}

#[derive(Debug)]
pub struct FileEntry {
    pub stat: Stat,
    pub data: Vec<u8>,
}

#[derive(Debug)]
pub struct DirEntry {
    pub stat: Stat,
    pub children: NameMap,
}

#[derive(Debug)]
pub enum Entry {
    File(FileEntry),
    Directory(DirEntry),
}

/// What an entry holds besides its [`StatView`].
pub enum Content {
    File { data: Seq<u8> },
    Directory { children: Names },
}

/// The value of an [`Entry`].
pub struct EntryView {
    pub stat: StatView,
    pub content: Content,
}

impl EntryView {
    pub open spec fn is_dir(self) -> bool {
        self.content is Directory
    }

    /// The names in a directory; none for a file.
    pub open spec fn children(self) -> Names {
        match self.content {
            Content::File { data } => Map::empty(),
            Content::Directory { children } => children,
        }
    }

    /// The bytes of a file; none for a directory.
    pub open spec fn data(self) -> Seq<u8> {
        match self.content {
            Content::File { data } => data,
            Content::Directory { children } => Seq::empty(),
        }
    }
}

impl FileEntry {
    pub open spec fn view(&self) -> EntryView {
        EntryView { stat: self.stat@, content: Content::File { data: self.data@ } }
    }

    /// An empty file.
    pub fn new(stat: Stat) -> (r: Self)
        ensures
            r@ == (EntryView { stat: stat@, content: Content::File { data: Seq::empty() } }),
    {
        Self { stat, data: Vec::new() }
    }
}

impl DirEntry {
    pub open spec fn view(&self) -> EntryView {
        EntryView { stat: self.stat@, content: Content::Directory { children: self.children@ } }
    }

    /// An empty directory.
    pub fn new(stat: Stat) -> (r: Self)
        ensures
            r@ == (EntryView { stat: stat@, content: Content::Directory { children: Map::empty() } }),
    {
        Self { stat, children: NameMap::new() }
    }
}

impl Entry {
    pub open spec fn view(&self) -> EntryView {
        match *self {
            Entry::File(file) => file@,
            Entry::Directory(dir) => dir@,
        }
    }

    pub fn stat(&self) -> (r: &Stat)
        ensures
            r@ == self@.stat,
    {
        match self {
            Entry::File(file) => &file.stat,
            Entry::Directory(dir) => &dir.stat,
        }
    }

    pub fn stat_mut(&mut self) -> (r: &mut Stat)
        ensures
            r@ == old(self)@.stat,
            final(self)@ == (EntryView { stat: final(r)@, ..old(self)@ }),
    {
        match self {
            Entry::File(file) => &mut file.stat,
            Entry::Directory(dir) => &mut dir.stat,
        }
    }

    pub fn is_dir(&self) -> (r: bool)
        ensures
            r == self@.is_dir(),
    {
        match self {
            Entry::File(_) => false,
            Entry::Directory(_) => true,
        }
    }
}

} // verus!
