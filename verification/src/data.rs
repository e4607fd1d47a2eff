//! The bytes of a file or stream.
use vstd::prelude::*;

verus! {

/// How many bytes a read at `offset` into a buffer of `room` bytes gives.
pub open spec fn read_len(data: Seq<u8>, offset: int, room: int) -> int {
    if room <= data.len() - offset {
        room
    } else {
        data.len() - offset
    }
}

/// `data` after `bytes` were written at `offset`: a gap behind the old end is filled with zeros.
pub open spec fn overwritten(data: Seq<u8>, offset: int, bytes: Seq<u8>) -> Seq<u8> {
    let end = offset + bytes.len();
    Seq::new(
        if end > data.len() {
            end as nat
        } else {
            data.len()
        },
        |i: int|
            if offset <= i < end {
                bytes[i - offset]
            } else if i < data.len() {
                data[i]
            } else {
                0
            },
    )
}

/// `data` cut down, or filled up with zeros, to `len` bytes.
pub open spec fn resized(data: Seq<u8>, len: int) -> Seq<u8> {
    Seq::new(
        len as nat,
        |i: int|
            if i < data.len() {
                data[i]
            } else {
                0
            },
    )
}

/// `data` cut down to at most `len` bytes.
pub open spec fn capped(data: Seq<u8>, len: int) -> Seq<u8> {
    if len < data.len() {
        data.take(len)
    } else {
        data
    }
}

/// The low 32 bits of `len`.
pub open spec fn low_u32(len: int) -> u32 {
    (len % 0x1_0000_0000) as u32
}

pub(crate) fn usize_low_u32(len: usize) -> (r: u32)
    ensures
        r == low_u32(len as int),
{
    let wide: u64 = len as u64;
    proof {
        assert(wide as u32 == wide % 0x1_0000_0000) by (bit_vector);
    }
    wide as u32
}

/// Copies what stands in `data` from `offset` on to the front of `buffer` and gives the number of
/// bytes copied, in 32 bits.
pub fn read_at(data: &Vec<u8>, offset: usize, buffer: &mut [u8]) -> (r: u32)
    requires
        offset <= data@.len(),
    ensures
        ({
            let n = read_len(data@, offset as int, old(buffer)@.len() as int);
            &&& r == low_u32(n)
            &&& final(buffer)@ == data@.subrange(offset as int, offset + n) + old(buffer)@.skip(n)
        }),
{
    let rest: usize = data.len() - offset;
    let len: usize = if buffer.len() <= rest {
        buffer.len()
    } else {
        rest
    };
    let mut i: usize = 0;
    while i < len
        invariant
            i <= len,
            len <= old(buffer)@.len(),
            offset + len <= data.len(),
            buffer@ =~= data@.subrange(offset as int, offset + i) + old(buffer)@.skip(i as int),
        decreases len - i,
    {
        buffer[i] = data[offset + i];
        i += 1;
    }
    usize_low_u32(len)
}

/// Writes `buffer` at `offset`, or at the end of `data`, and gives the number of bytes written, in
/// 32 bits.
pub fn write_at(data: &mut Vec<u8>, offset: usize, write_to_eof: bool, buffer: &[u8]) -> (r: u32)
    requires
        write_to_eof ==> old(data)@.len() + buffer@.len() <= isize::MAX,
        !write_to_eof ==> offset + buffer@.len() <= isize::MAX,
    ensures
        r == low_u32(buffer@.len() as int),
        final(data)@ == overwritten(
            old(data)@,
            if write_to_eof {
                old(data)@.len() as int
            } else {
                offset as int
            },
            buffer@,
        ),
{
    let start: usize = if write_to_eof {
        data.len()
    } else {
        offset
    };
    let len: usize = buffer.len();
    let ghost before = data@;
    if start + len > data.len() {
        resize(data, start + len);
    }
    let ghost grown = data@;
    let mut i: usize = 0;
    while i < len
        invariant
            i <= len,
            len == buffer@.len(),
            start + len <= isize::MAX,
            start + len <= grown.len(),
            data@ =~= grown.take(start as int) + buffer@.take(i as int) + grown.skip(start + i),
        decreases len - i,
    {
        data[start + i] = buffer[i];
        i += 1;
    }
    proof {
        assert(data@ =~= overwritten(before, start as int, buffer@));
    }
    usize_low_u32(len)
}

/// Cuts `data` down, or fills it up with zeros, to `len` bytes.
pub fn resize(data: &mut Vec<u8>, len: usize)
    requires
        len <= isize::MAX,
    ensures
        final(data)@ == resized(old(data)@, len as int),
{
    let ghost before = data@;
    data.resize(len, 0);
    proof {
        if len > before.len() {
            assert forall|i: int| 0 <= i < before.len() implies data@[i] == before[i] by {
                assert(data@.subrange(0, before.len() as int)[i] == before[i]);
            }
        }
        assert(data@ =~= resized(before, len as int));
    }
}

/// `Vec::capacity`: how many bytes `data` can hold without a new allocation. Its documentation
/// says no more than that this is at least the length.
#[verifier::external_body]
fn capacity(data: &Vec<u8>) -> (r: usize)
    ensures
        r >= data@.len(),
{
    data.capacity()
}

/// Makes room for `alloc_size` bytes: what lies behind them is cut off, and `data` is never made
/// longer.
pub fn set_alloc(data: &mut Vec<u8>, alloc_size: usize)
    requires
        alloc_size <= isize::MAX,
    ensures
        final(data)@ == capped(old(data)@, alloc_size as int),
{
    let cap: usize = capacity(data);
    if alloc_size < data.len() {
        let ghost before = data@;
        resize(data, alloc_size);
        proof {
            assert(data@ =~= before.take(alloc_size as int));
        }
    } else if alloc_size < cap {
        let mut new_data: Vec<u8> = Vec::with_capacity(alloc_size);
        new_data.append(data);
        *data = new_data;
    } else if alloc_size > cap {
        data.reserve(alloc_size - cap);
    }
}

} // verus!
