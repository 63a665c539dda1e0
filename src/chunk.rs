//! Chunked file access: how much one ReadFile call returns, when a caller
//! has reached the end, and how far a write extends a file.
use vstd::prelude::*;

verus! {

/// Bytes returned by one read when the caller gives no length.
pub const DEFAULT_READ_LEN: u64 = 65536;

/// One answer to a ReadFile request.
pub struct FileChunk {
    pub offset: u64,
    pub data: Vec<u8>,
    pub eof: bool,
}

/// Bytes that a read of `length` (or the default) at `offset` returns from a
/// file of `file_len` bytes.
pub open spec fn read_len(file_len: nat, offset: nat, length: Option<u64>) -> nat {
    let want: nat = match length {
        Some(l) => l as nat,
        None => DEFAULT_READ_LEN as nat,
    };
    if offset >= file_len {
        0
    } else if want < file_len - offset {
        want
    } else {
        (file_len - offset) as nat
    }
}

/// How many bytes to read for a request at `offset` of `length` bytes
/// (the default when absent) on a file of `file_len` bytes.
pub fn plan_read(file_len: u64, offset: u64, length: Option<u64>) -> (r: u64)
    ensures
        r == read_len(file_len as nat, offset as nat, length),
        offset as nat + r <= file_len || r == 0,
{
    if offset >= file_len {
        return 0;
    }
    let remaining = file_len - offset;
    let want = match length {
        Some(l) => l,
        None => DEFAULT_READ_LEN,
    };
    if want < remaining {
        want
    } else {
        remaining
    }
}

/// Builds the chunk for `data`, read at `offset` of a file of `file_len`
/// bytes: end of file is reached once nothing lies beyond the data.
pub fn chunk_from_read(file_len: u64, offset: u64, data: Vec<u8>) -> (r: FileChunk)
    ensures
        r.offset == offset,
        r.data@ == data@,
        r.eof == (offset as nat + data@.len() >= file_len),
{
    let n = data.len() as u64;
    let eof = offset >= file_len || n >= file_len - offset;
    FileChunk { offset, data, eof }
}

/// Where the caller asks next after `chunk`; none once the file has ended.
pub fn next_offset(chunk: &FileChunk) -> (r: Option<u64>)
    ensures
        chunk.eof ==> r is None,
        !chunk.eof && chunk.offset + chunk.data@.len() <= u64::MAX ==> r == Some(
            (chunk.offset + chunk.data@.len()) as u64,
        ),
        !chunk.eof && chunk.offset + chunk.data@.len() > u64::MAX ==> r is None,
{
    if chunk.eof {
        return None;
    }
    let n = chunk.data.len() as u64;
    if chunk.data.len() as u128 + chunk.offset as u128 > u64::MAX as u128 {
        None
    } else {
        Some(chunk.offset + n)
    }
}

/// Data of the read at `offset` of a file holding `file`.
pub open spec fn chunk_data(file: Seq<u8>, offset: nat, length: Option<u64>) -> Seq<u8> {
    file.subrange(offset as int, (offset + read_len(file.len(), offset, length)) as int)
}

/// End-of-file flag of the read at `offset`.
pub open spec fn chunk_eof(file: Seq<u8>, offset: nat, length: Option<u64>) -> bool {
    offset + read_len(file.len(), offset, length) >= file.len()
}

/// Concatenation of the data of every read, from `offset` on, up to the
/// chunk that reports end of file.
pub open spec fn read_from(file: Seq<u8>, offset: nat, length: Option<u64>) -> Seq<u8>
    decreases file.len() - offset,
{
    if offset >= file.len() || read_len(file.len(), offset, length) == 0 {
        Seq::empty()
    } else if chunk_eof(file, offset, length) {
        chunk_data(file, offset, length)
    } else {
        chunk_data(file, offset, length) + read_from(
            file,
            offset + read_len(file.len(), offset, length),
            length,
        )
    }
}

proof fn lemma_read_from_suffix(file: Seq<u8>, offset: nat, length: Option<u64>)
    requires
        offset <= file.len(),
        length is None || length->Some_0 > 0,
    ensures
        read_from(file, offset, length) == file.subrange(offset as int, file.len() as int),
    decreases file.len() - offset,
{
    let n = read_len(file.len(), offset, length);
    if offset >= file.len() {
        assert(file.subrange(offset as int, file.len() as int) =~= Seq::<u8>::empty());
    } else if chunk_eof(file, offset, length) {
        assert(offset + n == file.len());
    } else {
        lemma_read_from_suffix(file, offset + n, length);
        assert(file.subrange(offset as int, (offset + n) as int) + file.subrange(
            (offset + n) as int,
            file.len() as int,
        ) =~= file.subrange(offset as int, file.len() as int));
    }
}

/// Reading from offset 0 and asking again at `offset + len(data)` until a
/// chunk reports end of file gives back the whole file, when each read asks
/// for at least one byte; the total is the file size.
pub proof fn lemma_read_complete(file: Seq<u8>, length: Option<u64>)
    requires
        length is None || length->Some_0 > 0,
    ensures
        read_from(file, 0, length) == file,
        read_from(file, 0, length).len() == file.len(),
{
    lemma_read_from_suffix(file, 0, length);
    assert(file.subrange(0, file.len() as int) =~= file);
}

/// Concatenation of the data of successive reads from `offset` on, the
/// read number `i` asking for `lens[i]`, up to the chunk that reports end
/// of file (or until `lens` runs out).
pub open spec fn read_calls(file: Seq<u8>, offset: nat, lens: Seq<Option<u64>>) -> Seq<u8>
    decreases lens.len(),
{
    if lens.len() == 0 {
        Seq::empty()
    } else if chunk_eof(file, offset, lens[0]) {
        chunk_data(file, offset, lens[0])
    } else {
        chunk_data(file, offset, lens[0]) + read_calls(
            file,
            offset + read_len(file.len(), offset, lens[0]),
            lens.drop_first(),
        )
    }
}

proof fn lemma_read_calls_suffix(file: Seq<u8>, offset: nat, lens: Seq<Option<u64>>)
    requires
        offset <= file.len(),
        lens.len() >= 1,
        lens.len() >= file.len() - offset,
        forall|i: int| 0 <= i < lens.len() ==> (#[trigger] lens[i]) is None || lens[i]->Some_0 > 0,
    ensures
        read_calls(file, offset, lens) == file.subrange(offset as int, file.len() as int),
    decreases lens.len(),
{
    let n = read_len(file.len(), offset, lens[0]);
    if chunk_eof(file, offset, lens[0]) {
        assert(offset + n == file.len() || offset == file.len());
    } else {
        let rest = lens.drop_first();
        assert forall|i: int| 0 <= i < rest.len() implies (#[trigger] rest[i]) is None || rest[i]->Some_0 > 0 by {
            assert(rest[i] == lens[i + 1]);
        }
        lemma_read_calls_suffix(file, offset + n, rest);
        assert(file.subrange(offset as int, (offset + n) as int) + file.subrange(
            (offset + n) as int,
            file.len() as int,
        ) =~= file.subrange(offset as int, file.len() as int));
    }
}

/// Reading from offset 0, each read asking at `offset + len(data)` for a
/// length of its own (at least one byte, or the default), until a chunk
/// reports end of file, gives back the whole file, whose size is the total.
/// As many reads as the file has bytes (and at least one) always suffice.
pub proof fn lemma_read_complete_any_lengths(file: Seq<u8>, lens: Seq<Option<u64>>)
    requires
        lens.len() >= 1,
        lens.len() >= file.len(),
        forall|i: int| 0 <= i < lens.len() ==> (#[trigger] lens[i]) is None || lens[i]->Some_0 > 0,
    ensures
        read_calls(file, 0, lens) == file,
        read_calls(file, 0, lens).len() == file.len(),
{
    lemma_read_calls_suffix(file, 0, lens);
    assert(file.subrange(0, file.len() as int) =~= file);
}

/// An empty file is read completely by any single read, whatever length it
/// asks for.
pub proof fn lemma_read_empty_file(file: Seq<u8>, lens: Seq<Option<u64>>)
    requires
        file.len() == 0,
        lens.len() >= 1,
    ensures
        read_calls(file, 0, lens) == file,
{
    assert(chunk_eof(file, 0, lens[0]));
    assert(chunk_data(file, 0, lens[0]) =~= file);
}

/// Why a write cannot be carried out.
#[derive(Debug, PartialEq, Eq, Structural)]
pub enum WriteError {
    /// `offset + len(data)` does not fit in 64 bits.
    LengthOverflow,
}

/// Length of the file after writing `data_len` bytes at `offset` into a
/// file of `current_len` bytes: it grows to cover the write, never shrinks.
pub fn write_extent(current_len: u64, offset: u64, data_len: u64) -> (r: Result<u64, WriteError>)
    ensures
        offset + data_len > u64::MAX ==> r == Err::<u64, WriteError>(WriteError::LengthOverflow),
        offset + data_len <= u64::MAX ==> r == Ok::<u64, WriteError>(
            if offset + data_len > current_len {
                (offset + data_len) as u64
            } else {
                current_len
            },
        ),
{
    match offset.checked_add(data_len) {
        None => Err(WriteError::LengthOverflow),
        Some(required) => {
            if required > current_len {
                Ok(required)
            } else {
                Ok(current_len)
            }
        },
    }
}

} // verus!
