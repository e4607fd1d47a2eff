//! Archives of the distribution server.
use vstd::prelude::*;

use crate::ident::{uuid_time, NaiveDateTime, Uuid};

verus! {

pub struct User {
    id: Uuid,
}

pub enum Archive {
    Borrowed(Uuid),
    Owned(ArchiveMeta),
}

pub struct ArchiveMeta {
    hash: u128,
    kind: ArchiveKind,
    edit: u64,
    last: Option<Uuid>,
    next: Option<Uuid>,
}

pub enum ArchiveKind {
    Copy(Uuid),
    Text(Box<TextFile>),
}

pub struct TextFile {
    encoding: TextEncoding,
}

#[derive(Clone, Copy, Debug, PartialEq, Eq, Structural)]
pub enum TextEncoding {
    NoEncoding,
    ASCII,
    UTF8,
}

pub struct PngImage {
    buffer: Vec<u8>,
}

impl Archive {
    /// When an archive with identifier `id` was made: the time in a time based identifier, and
    /// nothing for an identifier of another version.
    pub fn create_time(&self, id: &Uuid) -> (r: Option<NaiveDateTime>)
        ensures
            match uuid_time(id.value) {
                Some(t) => {
                    &&& r is Some
                    &&& r->0.valid()
                    &&& r->0.seconds() == t.0
                    &&& r->0.nanosecond == t.1
                },
                None => r is None,
            },
    {
        let (s, ns) = match id.get_timestamp() {
            Some(t) => t,
            None => {
                return None;
            },
        };
        Some(NaiveDateTime::from_timestamp(s as i64, ns))
    }
}

impl ArchiveMeta {
    /// Does nothing so far.
    pub fn edit_time(&self) -> (r: ())
        ensures
            r == (),
    {
    }
}

impl TextFile {
    /// Walks over the characters of the file. No encoding has any so far.
    pub fn chars(&self) -> (r: ())
        ensures
            r == (),
    {
        match self.encoding {
            TextEncoding::NoEncoding => {},
            TextEncoding::UTF8 => {},
            TextEncoding::ASCII => {},
        }
    }
}

impl Default for TextEncoding {
    fn default() -> (r: Self)
        ensures
            r == TextEncoding::NoEncoding,
    {
        Self::NoEncoding
    }
}

} // verus!
