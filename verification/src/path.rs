//! Paths that were taken apart.
use vstd::prelude::*;

use crate::name::no_nul;
use crate::status::OperationError;

verus! {

/// The stream that a name asks for.
#[derive(Debug)]
pub struct StreamInfo {
    pub name: Vec<u16>,
    /// Whether this is the main stream of a file, or why a file cannot have it.
    pub on_file: Result<bool, OperationError>,
    /// Whether this is the main stream of a directory, or why a directory cannot have it.
    pub on_dir: Result<bool, OperationError>,
}

impl StreamInfo {
    /// Whether this is the main stream of an entry, or why the entry cannot have it.
    pub open spec fn default_on(self, is_dir: bool) -> Result<bool, OperationError> {
        if is_dir {
            self.on_dir
        } else {
            self.on_file
        }
    }

    pub fn check_default(&self, is_dir: bool) -> (r: Result<bool, OperationError>)
        ensures
            r == self.default_on(is_dir),
    {
        if is_dir {
            match self.on_dir {
                Ok(default) => Ok(default),
                Err(error) => Err(error),
            }
        } else {
            match self.on_file {
                Ok(default) => Ok(default),
                Err(error) => Err(error),
            }
        }
    }
}

/// The last part of a path: the name of the entry, and the stream of it if one is named.
#[derive(Debug)]
pub struct FullName {
    pub file_name: Vec<u16>,
    pub stream_info: Option<StreamInfo>,
}

impl FullName {
    /// The names come out of a nul terminated path.
    pub open spec fn valid(self) -> bool {
        &&& no_nul(self.file_name@)
        &&& self.stream_info is Some ==> no_nul(self.stream_info->0.name@)
    }

    /// Whether the names could come out of a nul terminated path.
    pub fn is_valid(&self) -> (r: bool)
        ensures
            r == self.valid(),
    {
        has_no_nul(self.file_name.as_slice()) && match &self.stream_info {
            Some(info) => has_no_nul(info.name.as_slice()),
            None => true,
        }
    }
}

fn has_no_nul(name: &[u16]) -> (r: bool)
    ensures
        r == no_nul(name@),
{
    let mut i: usize = 0;
    while i < name.len()
        invariant
            i <= name@.len(),
            forall|j: int| 0 <= j < i ==> name@[j] != 0,
        decreases name@.len() - i,
    {
        if name[i] == 0 {
            return false;
        }
        i += 1;
    }
    true
}

/// What a path leads to: a directory, by number, and a name in it.
#[derive(Debug)]
pub struct PathInfo {
    pub name: FullName,
    pub parent: usize,
}

/// The backslash that sets the parts of a path apart.
pub const SEPARATOR: u16 = 0x5c;

/// The colon that sets the name of a stream apart.
pub const COLON: u16 = 0x3a;

/// Where the last part of `path`, the one behind its last backslash, starts.
pub open spec fn name_start(path: Seq<u16>) -> Option<int>
    decreases path.len(),
{
    if path.len() == 0 {
        None
    } else if path.last() == SEPARATOR {
        Some(path.len() as int)
    } else {
        name_start(path.drop_last())
    }
}

/// Where the last part of `path`, the one behind its last backslash, starts.
pub fn find_name(path: &[u16]) -> (r: Option<usize>)
    ensures
        match r {
            Some(start) => {
                &&& name_start(path@) == Some(start as int)
                &&& 0 < start <= path@.len()
                &&& path@[start - 1] == SEPARATOR
                &&& forall|i: int| start <= i < path@.len() ==> path@[i] != SEPARATOR
            },
            None => {
                &&& name_start(path@) is None
                &&& forall|i: int| 0 <= i < path@.len() ==> path@[i] != SEPARATOR
            },
        },
{
    let mut start: usize = path.len();
    proof {
        assert(path@.take(start as int) =~= path@);
    }
    while start > 0
        invariant
            start <= path@.len(),
            name_start(path@) == name_start(path@.take(start as int)),
            forall|i: int| start <= i < path@.len() ==> path@[i] != SEPARATOR,
        decreases start,
    {
        proof {
            assert(path@.take(start as int).drop_last() =~= path@.take(start - 1));
        }
        if path[start - 1] == SEPARATOR {
            return Some(start);
        }
        start -= 1;
    }
    None
}

} // verus!
