//! Primitive reads over an in-memory byte stream: a position that walks a
//! byte vector. Every read either returns exactly the field the wire spec
//! places at the old position, or `TruncatedStream` when the bytes run out.

use vstd::bytes::{u16_from_le_bytes, u32_from_le_bytes};
use vstd::prelude::*;
use vstd::slice::slice_subrange;
use vstd::utf8::valid_utf8;

use crate::model::FormatError;
use crate::model::RecordHeader;
use crate::wire::{is_first_nul_at, le16_at, le32_at, record_header_at, zstring_at};
use crate::wire::lemma_first_nul_unique;

verus! {

/// Relies on std::str::from_utf8: it accepts exactly the byte sequences
/// that are valid UTF-8, as vstd's `valid_utf8` defines them.
#[verifier::external_body]
fn utf8_ok(b: &Vec<u8>) -> (r: bool)
    ensures
        r == valid_utf8(b@),
{
    std::str::from_utf8(b.as_slice()).is_ok()
}

/// One byte.
pub fn read_u8(data: &Vec<u8>, pos: &mut usize) -> (r: Result<u8, FormatError>)
    requires
        *old(pos) <= data@.len(),
    ensures
        *final(pos) <= data@.len(),
        match r {
            Ok(v) => {
                &&& *old(pos) + 1 <= data@.len()
                &&& *final(pos) == *old(pos) + 1
                &&& v == data@[*old(pos) as int]
            },
            Err(e) => {
                &&& e == FormatError::TruncatedStream
                &&& *old(pos) + 1 > data@.len()
                &&& *final(pos) == *old(pos)
            },
        },
{
    if data.len() - *pos < 1 {
        return Err(FormatError::TruncatedStream);
    }
    let v = data[*pos];
    *pos = *pos + 1;
    Ok(v)
}

/// A 16-bit little-endian field.
pub fn read_u16(data: &Vec<u8>, pos: &mut usize) -> (r: Result<u16, FormatError>)
    requires
        *old(pos) <= data@.len(),
    ensures
        *final(pos) <= data@.len(),
        match r {
            Ok(v) => {
                &&& *old(pos) + 2 <= data@.len()
                &&& *final(pos) == *old(pos) + 2
                &&& v == le16_at(data@, *old(pos) as int)
            },
            Err(e) => {
                &&& e == FormatError::TruncatedStream
                &&& *old(pos) + 2 > data@.len()
                &&& *final(pos) == *old(pos)
            },
        },
{
    if data.len() - *pos < 2 {
        return Err(FormatError::TruncatedStream);
    }
    let s = slice_subrange(data.as_slice(), *pos, *pos + 2);
    let v = u16_from_le_bytes(s);
    *pos = *pos + 2;
    Ok(v)
}

/// A 32-bit little-endian field.
pub fn read_u32(data: &Vec<u8>, pos: &mut usize) -> (r: Result<u32, FormatError>)
    requires
        *old(pos) <= data@.len(),
    ensures
        *final(pos) <= data@.len(),
        match r {
            Ok(v) => {
                &&& *old(pos) + 4 <= data@.len()
                &&& *final(pos) == *old(pos) + 4
                &&& v == le32_at(data@, *old(pos) as int)
            },
            Err(e) => {
                &&& e == FormatError::TruncatedStream
                &&& *old(pos) + 4 > data@.len()
                &&& *final(pos) == *old(pos)
            },
        },
{
    if data.len() - *pos < 4 {
        return Err(FormatError::TruncatedStream);
    }
    let s = slice_subrange(data.as_slice(), *pos, *pos + 4);
    let v = u32_from_le_bytes(s);
    *pos = *pos + 4;
    Ok(v)
}

/// A four-byte record or subrecord tag, read as its little-endian 32-bit
/// value.
pub fn read_ident(data: &Vec<u8>, pos: &mut usize) -> (r: Result<u32, FormatError>)
    requires
        *old(pos) <= data@.len(),
    ensures
        *final(pos) <= data@.len(),
        match r {
            Ok(v) => {
                &&& *old(pos) + 4 <= data@.len()
                &&& *final(pos) == *old(pos) + 4
                &&& v == le32_at(data@, *old(pos) as int)
            },
            Err(e) => {
                &&& e == FormatError::TruncatedStream
                &&& *old(pos) + 4 > data@.len()
                &&& *final(pos) == *old(pos)
            },
        },
{
    read_u32(data, pos)
}

/// Advance past `n` bytes without decoding them.
pub fn skip(data: &Vec<u8>, pos: &mut usize, n: usize) -> (r: Result<(), FormatError>)
    requires
        *old(pos) <= data@.len(),
    ensures
        *final(pos) <= data@.len(),
        match r {
            Ok(()) => {
                &&& *old(pos) + n <= data@.len()
                &&& *final(pos) == *old(pos) + n
            },
            Err(e) => {
                &&& e == FormatError::TruncatedStream
                &&& *old(pos) + n > data@.len()
                &&& *final(pos) == *old(pos)
            },
        },
{
    if data.len() - *pos < n {
        return Err(FormatError::TruncatedStream);
    }
    *pos = *pos + n;
    Ok(())
}

/// Copy the next `n` bytes out of the stream.
pub fn read_bytes(data: &Vec<u8>, pos: &mut usize, n: usize) -> (r: Result<Vec<u8>, FormatError>)
    requires
        *old(pos) <= data@.len(),
    ensures
        *final(pos) <= data@.len(),
        match r {
            Ok(v) => {
                &&& *old(pos) + n <= data@.len()
                &&& *final(pos) == *old(pos) + n
                &&& v@ == data@.subrange(*old(pos) as int, *old(pos) + n as int)
            },
            Err(e) => {
                &&& e == FormatError::TruncatedStream
                &&& *old(pos) + n > data@.len()
                &&& *final(pos) == *old(pos)
            },
        },
{
    if data.len() - *pos < n {
        return Err(FormatError::TruncatedStream);
    }
    let end: usize = *pos + n;
    let mut v: Vec<u8> = Vec::new();
    let mut k: usize = *pos;
    while k < end
        invariant
            *pos <= k <= end,
            end == *pos + n,
            end <= data@.len(),
            v@ == data@.subrange(*pos as int, k as int),
        decreases end - k,
    {
        v.push(data[k]);
        k = k + 1;
        proof {
            assert(v@ =~= data@.subrange(*pos as int, k as int));
        }
    }
    *pos = end;
    Ok(v)
}

/// A zstring with declared length `len`, as `wire::zstring_at` lays it out.
/// On success the position stands just past the terminator byte.
pub fn read_zstring(data: &Vec<u8>, pos: &mut usize, len: u32) -> (r: Result<
    Vec<u8>,
    FormatError,
>)
    requires
        *old(pos) <= data@.len(),
    ensures
        *final(pos) <= data@.len(),
        match r {
            Ok(v) => zstring_at(data@, *old(pos) as int, len) == Ok::<_, FormatError>((
                v@,
                *final(pos) as int,
            )),
            Err(e) => zstring_at(data@, *old(pos) as int, len) == Err::<(Seq<u8>, int), _>(e),
        },
{
    let ghost start = *pos as int;
    if len > 0 {
        if (data.len() - *pos) < (len as usize) {
            return Err(FormatError::TruncatedStream);
        }
        let content = match read_bytes(data, pos, (len - 1) as usize) {
            Ok(c) => c,
            Err(e) => {
                return Err(e);
            },
        };
        match skip(data, pos, 1) {
            Ok(()) => {},
            Err(e) => {
                proof {
                    assert(false);
                }
                return Err(e);
            },
        }
        if !utf8_ok(&content) {
            return Err(FormatError::InvalidText);
        }
        Ok(content)
    } else {
        let mut j: usize = *pos;
        while j < data.len() && data[j] != 0
            invariant
                *pos <= j <= data@.len(),
                start == *pos as int,
                forall|k: int| start <= k < j as int ==> data@[k] != 0u8,
            decreases data@.len() - j,
        {
            j = j + 1;
        }
        if j == data.len() {
            proof {
                assert forall|jj: int| !is_first_nul_at(data@, start, jj) by {
                    if is_first_nul_at(data@, start, jj) {
                        assert(data@[jj] != 0u8);
                    }
                }
            }
            return Err(FormatError::TruncatedStream);
        }
        proof {
            assert(is_first_nul_at(data@, start, j as int));
            let jj = choose|jj: int| is_first_nul_at(data@, start, jj);
            lemma_first_nul_unique(data@, start, jj, j as int);
        }
        let content = match read_bytes(data, pos, j - *pos) {
            Ok(c) => c,
            Err(e) => {
                proof {
                    assert(false);
                }
                return Err(e);
            },
        };
        match skip(data, pos, 1) {
            Ok(()) => {},
            Err(e) => {
                proof {
                    assert(false);
                }
                return Err(e);
            },
        }
        if !utf8_ok(&content) {
            return Err(FormatError::InvalidText);
        }
        Ok(content)
    }
}

/// The 24-byte header that opens every record.
pub fn parse_record_header(data: &Vec<u8>, pos: &mut usize) -> (r: Result<
    RecordHeader,
    FormatError,
>)
    requires
        *old(pos) <= data@.len(),
    ensures
        *final(pos) <= data@.len(),
        match r {
            Ok(h) => {
                &&& *old(pos) + 24 <= data@.len()
                &&& *final(pos) == *old(pos) + 24
                &&& h == record_header_at(data@, *old(pos) as int)
            },
            Err(e) => {
                &&& e == FormatError::TruncatedStream
                &&& *old(pos) + 24 > data@.len()
                &&& *final(pos) == *old(pos)
            },
        },
{
    if data.len() - *pos < 24 {
        return Err(FormatError::TruncatedStream);
    }
    let record_type = match read_u32(data, pos) {
        Ok(v) => v,
        Err(e) => {
            return Err(e);
        },
    };
    let size = match read_u32(data, pos) {
        Ok(v) => v,
        Err(e) => {
            return Err(e);
        },
    };
    let flags = match read_u32(data, pos) {
        Ok(v) => v,
        Err(e) => {
            return Err(e);
        },
    };
    let id = match read_u32(data, pos) {
        Ok(v) => v,
        Err(e) => {
            return Err(e);
        },
    };
    let revision = match read_u32(data, pos) {
        Ok(v) => v,
        Err(e) => {
            return Err(e);
        },
    };
    let version = match read_u16(data, pos) {
        Ok(v) => v,
        Err(e) => {
            return Err(e);
        },
    };
    let unknown = match read_u16(data, pos) {
        Ok(v) => v,
        Err(e) => {
            return Err(e);
        },
    };
    Ok(RecordHeader { record_type, size, flags, id, revision, version, unknown })
}

} // verus!
