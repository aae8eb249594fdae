//! The byte-level description of the plugin format: subrecord tags,
//! little-endian field helpers and the zstring encoding. The decoder and
//! encoder are verified against the spec functions of this module.

use vstd::bytes::{
    spec_u16_from_le_bytes, spec_u16_to_le_bytes, spec_u32_from_le_bytes, spec_u32_to_le_bytes,
};
use vstd::prelude::*;
use vstd::utf8::valid_utf8;

use crate::model::{empty_plugin, FormatError, MuscView, PluginView, RecordHeader};
use crate::model::{VERSION_0_94, VERSION_1_7};

verus! {

// Every four-byte ASCII tag is carried as the little-endian 32-bit value of
// its bytes, so a tag read is one 32-bit read.
/// `TES4`, the file magic.
pub const TAG_TES4: u32 = 0x3453_4554;

/// `HEDR`, the header subrecord.
pub const TAG_HEDR: u32 = 0x5244_4548;

/// `GRUP`, the group marker.
pub const TAG_GRUP: u32 = 0x5055_5247;

/// `MAST`, a master-filename subrecord.
pub const TAG_MAST: u32 = 0x5453_414D;

/// `DATA`, the fixed trailing block after each `MAST`.
pub const TAG_DATA: u32 = 0x4154_4144;

/// `XXXX`, the length-escape subrecord.
pub const TAG_XXXX: u32 = 0x5858_5858;

/// `CNAM`, the author zstring.
pub const TAG_CNAM: u32 = 0x4D41_4E43;

/// `SNAM`, the description zstring.
pub const TAG_SNAM: u32 = 0x4D41_4E53;

/// `INTV`, an opaque 32-bit field.
pub const TAG_INTV: u32 = 0x5654_4E49;

/// `INCC`, an opaque 32-bit field.
pub const TAG_INCC: u32 = 0x4343_4E49;

/// `ONAM`, the override form-id array.
pub const TAG_ONAM: u32 = 0x4D41_4E4F;

/// `MUSC`, the music-track group label and record type.
pub const TAG_MUSC: u32 = 0x4353_554D;

/// `EDID`, the editor-id zstring of a record.
pub const TAG_EDID: u32 = 0x4449_4445;

/// `FNAM`, the flags subrecord of a music record.
pub const TAG_FNAM: u32 = 0x4D41_4E46;

/// `PNAM`, the priority/ducking subrecord of a music record.
pub const TAG_PNAM: u32 = 0x4D41_4E50;

/// `WNAM`, the fade-duration subrecord of a music record.
pub const TAG_WNAM: u32 = 0x4D41_4E57;

/// `TNAM`, the track-id array of a music record.
pub const TAG_TNAM: u32 = 0x4D41_4E54;

/// The 16-bit little-endian value stored at offset `i` of `s`.
pub open spec fn le16_at(s: Seq<u8>, i: int) -> u16 {
    spec_u16_from_le_bytes(s.subrange(i, i + 2))
}

/// The 32-bit little-endian value stored at offset `i` of `s`.
pub open spec fn le32_at(s: Seq<u8>, i: int) -> u32 {
    spec_u32_from_le_bytes(s.subrange(i, i + 4))
}

/// The record header stored at offset `i` of `s`.
pub open spec fn record_header_at(s: Seq<u8>, i: int) -> RecordHeader {
    RecordHeader {
        record_type: le32_at(s, i),
        size: le32_at(s, i + 4),
        flags: le32_at(s, i + 8),
        id: le32_at(s, i + 12),
        revision: le32_at(s, i + 16),
        version: le16_at(s, i + 20),
        unknown: le16_at(s, i + 22),
    }
}

/// `j` is the position of the first zero byte of `s` at or after `i`.
pub open spec fn is_first_nul_at(s: Seq<u8>, i: int, j: int) -> bool {
    &&& i <= j < s.len()
    &&& s[j] == 0u8
    &&& forall|k: int| i <= k < j ==> s[k] != 0u8
}

/// There is at most one first zero byte.
pub proof fn lemma_first_nul_unique(s: Seq<u8>, i: int, j1: int, j2: int)
    requires
        is_first_nul_at(s, i, j1),
        is_first_nul_at(s, i, j2),
    ensures
        j1 == j2,
{
    if j1 < j2 {
        assert(s[j1] != 0u8);
    }
    if j2 < j1 {
        assert(s[j2] != 0u8);
    }
}

/// The zstring whose length field reads `len`, stored at offset `i` of `s`:
/// the decoded text bytes and the offset of the first byte after the
/// terminator. A declared length `len > 0` frames `len - 1` text bytes plus
/// one terminator byte; a declared length of zero means "read until the
/// first zero byte" (the unbounded form used with the length escape).
pub open spec fn zstring_at(s: Seq<u8>, i: int, len: u32) -> Result<(Seq<u8>, int), FormatError> {
    if len > 0 {
        if i + len > s.len() {
            Err(FormatError::TruncatedStream)
        } else {
            let content = s.subrange(i, i + len - 1);
            if !valid_utf8(content) {
                Err(FormatError::InvalidText)
            } else {
                Ok((content, i + len))
            }
        }
    } else {
        if exists|j: int| is_first_nul_at(s, i, j) {
            let j = choose|j: int| is_first_nul_at(s, i, j);
            let content = s.subrange(i, j);
            if !valid_utf8(content) {
                Err(FormatError::InvalidText)
            } else {
                Ok((content, j + 1))
            }
        } else {
            Err(FormatError::TruncatedStream)
        }
    }
}

/// A declared length of one frames no text: the zstring decodes to the
/// empty string, consuming exactly the terminator byte.
pub proof fn lemma_zstring_len_one(s: Seq<u8>, i: int)
    requires
        0 <= i,
        i + 1 <= s.len(),
    ensures
        zstring_at(s, i, 1) == Ok::<_, FormatError>((Seq::<u8>::empty(), i + 1)),
{
    assert(s.subrange(i, i) =~= Seq::<u8>::empty());
    assert(valid_utf8(Seq::<u8>::empty()));
}

/// A declared length of zero reads until the first zero byte: with the
/// terminator standing first, the zstring decodes to the empty string.
pub proof fn lemma_zstring_len_zero(s: Seq<u8>, i: int)
    requires
        0 <= i < s.len(),
        s[i] == 0u8,
    ensures
        zstring_at(s, i, 0) == Ok::<_, FormatError>((Seq::<u8>::empty(), i + 1)),
{
    assert(is_first_nul_at(s, i, i));
    let j = choose|j: int| is_first_nul_at(s, i, j);
    lemma_first_nul_unique(s, i, j, i);
    assert(s.subrange(i, i) =~= Seq::<u8>::empty());
    assert(valid_utf8(Seq::<u8>::empty()));
}

/// What is left of a group's declared content length after `used` bytes of
/// records: never negative, so it can serve as a termination measure.
pub open spec fn remaining_of(content: int, used: int) -> int {
    if used < content {
        content - used
    } else {
        0
    }
}

/// The `cnt` 32-bit little-endian values stored back to back at offset `i`.
pub open spec fn u32s_at(s: Seq<u8>, i: int, cnt: int) -> Seq<u32> {
    Seq::new(cnt as nat, |k: int| le32_at(s, i + 4 * k))
}

/// One music record stored at offset `i`: a 24-byte record header followed
/// by the fixed subrecord schema `EDID`, `FNAM`, `PNAM`, `WNAM`, `TNAM`.
/// Returns the record and the offset just past its `TNAM` array.
pub open spec fn spec_record_at(s: Seq<u8>, i: int) -> Result<(MuscView, int), FormatError> {
    if i + 24 > s.len() {
        Err(FormatError::TruncatedStream)
    } else {
        let hdr = record_header_at(s, i);
        let i1 = i + 24;
        if i1 + 4 > s.len() {
            Err(FormatError::TruncatedStream)
        } else if le32_at(s, i1) != TAG_EDID {
            Err(FormatError::UnexpectedField(TAG_EDID, le32_at(s, i1)))
        } else if i1 + 6 > s.len() {
            Err(FormatError::TruncatedStream)
        } else {
            match zstring_at(s, i1 + 6, le16_at(s, i1 + 4) as u32) {
                Err(e) => Err(e),
                Ok((edid, i2)) => if i2 + 4 > s.len() {
                    Err(FormatError::TruncatedStream)
                } else if le32_at(s, i2) != TAG_FNAM {
                    Err(FormatError::UnexpectedField(TAG_FNAM, le32_at(s, i2)))
                } else if i2 + 10 > s.len() {
                    Err(FormatError::TruncatedStream)
                } else {
                    let flags = le32_at(s, i2 + 6);
                    let i3 = i2 + 10;
                    if i3 + 4 > s.len() {
                        Err(FormatError::TruncatedStream)
                    } else if le32_at(s, i3) != TAG_PNAM {
                        Err(FormatError::UnexpectedField(TAG_PNAM, le32_at(s, i3)))
                    } else if i3 + 10 > s.len() {
                        Err(FormatError::TruncatedStream)
                    } else {
                        let priority = le16_at(s, i3 + 6);
                        let ducking = le16_at(s, i3 + 8);
                        let i4 = i3 + 10;
                        if i4 + 4 > s.len() {
                            Err(FormatError::TruncatedStream)
                        } else if le32_at(s, i4) != TAG_WNAM {
                            Err(FormatError::UnexpectedField(TAG_WNAM, le32_at(s, i4)))
                        } else if i4 + 10 > s.len() {
                            Err(FormatError::TruncatedStream)
                        } else {
                            let fade = le32_at(s, i4 + 6);
                            let i5 = i4 + 10;
                            if i5 + 4 > s.len() {
                                Err(FormatError::TruncatedStream)
                            } else if le32_at(s, i5) != TAG_TNAM {
                                Err(FormatError::UnexpectedField(TAG_TNAM, le32_at(s, i5)))
                            } else if i5 + 6 > s.len() {
                                Err(FormatError::TruncatedStream)
                            } else {
                                let cnt = (le16_at(s, i5 + 4) as u32 / 4) as int;
                                if i5 + 6 + 4 * cnt > s.len() {
                                    Err(FormatError::TruncatedStream)
                                } else {
                                    let m = MuscView {
                                        form_id: hdr.id,
                                        editor_id: edid,
                                        flags: flags,
                                        priority: priority,
                                        ducking: ducking,
                                        fade_duration: fade,
                                        track_ids: u32s_at(s, i5 + 6, cnt),
                                    };
                                    Ok((m, i5 + 6 + 4 * cnt))
                                }
                            }
                        }
                    }
                },
            }
        }
    }
}

/// A parsed record always moves the offset forward and stays inside the
/// stream, and the decoder's byte accounting for it is exact: a record with
/// a `k`-byte editor id and `t` track ids spans `67 + k + 4*t` bytes.
pub proof fn lemma_record_advances(s: Seq<u8>, i: int)
    requires
        i >= 0,
        spec_record_at(s, i) is Ok,
    ensures
        ({
            let (m, i2) = spec_record_at(s, i)->Ok_0;
            &&& i2 == i + 67 + m.editor_id.len() + 4 * m.track_ids.len()
            &&& i < i2 <= s.len()
        }),
{
}

/// The records of one music group: repeated `spec_record_at` until the
/// group's declared content length is used up. `remaining` is what is left
/// of that declared length; the group is done as soon as it reaches (or
/// overshoots to) zero. Returns the accumulated records and the offset just
/// past the last one.
pub open spec fn spec_parse_records(s: Seq<u8>, i: int, remaining: int, music: Seq<MuscView>) -> Result<
    (Seq<MuscView>, int),
    FormatError,
>
    decreases remaining,
{
    if remaining <= 0 {
        Ok((music, i))
    } else {
        match spec_record_at(s, i) {
            Err(e) => Err(e),
            Ok((m, i2)) => {
                let used = i2 - i;
                let rem2 = if remaining - used > 0 {
                    remaining - used
                } else {
                    0
                };
                spec_parse_records(s, i2, rem2, music.push(m))
            },
        }
    }
}

/// Record parsing only moves forward through the stream.
pub proof fn lemma_parse_records_advances(s: Seq<u8>, i: int, remaining: int, music: Seq<MuscView>)
    requires
        0 <= i <= s.len(),
        spec_parse_records(s, i, remaining, music) is Ok,
    ensures
        ({
            let (m2, i2) = spec_parse_records(s, i, remaining, music)->Ok_0;
            i <= i2 <= s.len()
        }),
    decreases remaining,
{
    if remaining <= 0 {
    } else {
        match spec_record_at(s, i) {
            Err(e) => {},
            Ok((m, i2)) => {
                lemma_record_advances(s, i);
                let used = i2 - i;
                let rem2 = if remaining - used > 0 {
                    remaining - used
                } else {
                    0
                };
                lemma_parse_records_advances(s, i2, rem2, music.push(m));
            },
        }
    }
}

/// One group at offset `i` (just past its `GRUP` tag) and everything after
/// it: declared total length, label, type and stamp fields, then either the
/// music records (label `MUSC`) or an opaque span of `total - 24` bytes,
/// then the next group, if any.
pub open spec fn spec_parse_groups(s: Seq<u8>, i: int, p: PluginView) -> Result<
    PluginView,
    FormatError,
>
    decreases s.len() - i, 1int,
{
    if i < 0 || i + 20 > s.len() {
        Err(FormatError::TruncatedStream)
    } else {
        let total = le32_at(s, i);
        let gtype = le32_at(s, i + 8);
        if gtype != 0 {
            Err(FormatError::UnsupportedGroup)
        } else if total < 24 {
            Err(FormatError::TruncatedStream)
        } else {
            let label = le32_at(s, i + 4);
            let content = total - 24;
            let j = i + 20;
            if label == TAG_MUSC {
                match spec_parse_records(s, j, content as int, p.music) {
                    Err(e) => Err(e),
                    Ok((music2, j2)) => {
                        if j <= j2 <= s.len() {
                            spec_parse_after_group(
                                s,
                                j2,
                                PluginView { music: music2, ..p },
                            )
                        } else {
                            // spec_parse_records never leaves the stream;
                            // see lemma_parse_records_advances.
                            Err(FormatError::TruncatedStream)
                        }
                    },
                }
            } else {
                if j + content > s.len() {
                    Err(FormatError::TruncatedStream)
                } else {
                    spec_parse_after_group(s, j + content, p)
                }
            }
        }
    }
}

/// The stream just past a finished group: the end of the file ends the
/// parse, a further `GRUP` tag opens the next group, and anything else ends
/// the parse with the plugin as it stands.
pub open spec fn spec_parse_after_group(s: Seq<u8>, i: int, p: PluginView) -> Result<
    PluginView,
    FormatError,
>
    decreases s.len() - i, 0int,
{
    if i >= s.len() {
        Ok(p)
    } else if i + 4 > s.len() {
        Err(FormatError::TruncatedStream)
    } else if le32_at(s, i) == TAG_GRUP {
        spec_parse_groups(s, i + 4, p)
    } else {
        Ok(p)
    }
}

/// The top-level subrecords between the file header and the first group:
/// master names, author, description, overrides, the opaque 32-bit fields
/// and the length escape. `x` carries a pending `XXXX` true length, to be
/// used in place of the next subrecord's declared 16-bit length.
pub open spec fn spec_parse_fields(s: Seq<u8>, i: int, p: PluginView, x: Option<u32>) -> Result<
    PluginView,
    FormatError,
>
    decreases s.len() - i,
{
    if i < 0 {
        Err(FormatError::TruncatedStream)
    } else if i >= s.len() {
        Ok(p)
    } else if i + 4 > s.len() {
        Err(FormatError::TruncatedStream)
    } else if le32_at(s, i) == TAG_GRUP {
        spec_parse_groups(s, i + 4, p)
    } else if i + 6 > s.len() {
        Err(FormatError::TruncatedStream)
    } else {
        let tag = le32_at(s, i);
        let len: u32 = match x {
            Some(xl) => xl,
            None => le16_at(s, i + 4) as u32,
        };
        let j = i + 6;
        if tag == TAG_MAST {
            match zstring_at(s, j, len) {
                Err(e) => Err(e),
                Ok((name, j2)) => {
                    if !(j < j2 <= s.len()) {
                        // zstring_at never leaves the stream; see
                        // lemma_zstring_advances.
                        Err(FormatError::TruncatedStream)
                    } else if j2 + 14 > s.len() {
                        Err(FormatError::TruncatedStream)
                    } else {
                        spec_parse_fields(
                            s,
                            j2 + 14,
                            PluginView { masters: p.masters.push(name), ..p },
                            None,
                        )
                    }
                },
            }
        } else if tag == TAG_XXXX {
            if j + 4 > s.len() {
                Err(FormatError::TruncatedStream)
            } else {
                spec_parse_fields(s, j + 4, p, Some(le32_at(s, j)))
            }
        } else if tag == TAG_CNAM {
            match zstring_at(s, j, len) {
                Err(e) => Err(e),
                Ok((a, j2)) => {
                    if !(j < j2 <= s.len()) {
                        Err(FormatError::TruncatedStream)
                    } else {
                        spec_parse_fields(s, j2, PluginView { author: a, ..p }, None)
                    }
                },
            }
        } else if tag == TAG_SNAM {
            match zstring_at(s, j, len) {
                Err(e) => Err(e),
                Ok((d, j2)) => {
                    if !(j < j2 <= s.len()) {
                        Err(FormatError::TruncatedStream)
                    } else {
                        spec_parse_fields(s, j2, PluginView { description: d, ..p }, None)
                    }
                },
            }
        } else if tag == TAG_INTV {
            if j + 4 > s.len() {
                Err(FormatError::TruncatedStream)
            } else {
                spec_parse_fields(s, j + 4, PluginView { intv: le32_at(s, j), ..p }, None)
            }
        } else if tag == TAG_INCC {
            if j + 4 > s.len() {
                Err(FormatError::TruncatedStream)
            } else {
                spec_parse_fields(s, j + 4, PluginView { incc: le32_at(s, j), ..p }, None)
            }
        } else if tag == TAG_ONAM {
            let cnt = (len / 4) as int;
            if j + 4 * cnt > s.len() {
                Err(FormatError::TruncatedStream)
            } else {
                spec_parse_fields(
                    s,
                    j + 4 * cnt,
                    PluginView { overrides: p.overrides + u32s_at(s, j, cnt), ..p },
                    None,
                )
            }
        } else {
            Err(FormatError::UnknownField(tag))
        }
    }
}

/// A decoded zstring always moves the offset forward and stays inside the
/// stream, and its content is one byte shorter than the span it occupies.
pub proof fn lemma_zstring_advances(s: Seq<u8>, i: int, len: u32)
    requires
        0 <= i <= s.len(),
        zstring_at(s, i, len) is Ok,
    ensures
        ({
            let (c, j2) = zstring_at(s, i, len)->Ok_0;
            &&& i < j2 <= s.len()
            &&& c.len() == j2 - i - 1
        }),
{
}

/// The whole file: the `TES4` magic, twenty reserved bytes, the `HEDR`
/// header subrecord (whose version must read 1.7 or 0.94), then the
/// top-level subrecords and the groups.
pub open spec fn spec_parse(s: Seq<u8>) -> Result<PluginView, FormatError> {
    if s.len() < 4 {
        Err(FormatError::TruncatedStream)
    } else if le32_at(s, 0) != TAG_TES4 {
        Err(FormatError::BadMagic)
    } else if s.len() < 28 {
        Err(FormatError::TruncatedStream)
    } else if le32_at(s, 24) != TAG_HEDR {
        Err(FormatError::UnexpectedField(TAG_HEDR, le32_at(s, 24)))
    } else if s.len() < 42 {
        Err(FormatError::TruncatedStream)
    } else {
        let version = le32_at(s, 30);
        if version != VERSION_1_7 && version != VERSION_0_94 {
            Err(FormatError::UnsupportedVersion)
        } else {
            let p = PluginView {
                version: version,
                num_records: le32_at(s, 34),
                next_object_id: le32_at(s, 38),
                ..empty_plugin()
            };
            spec_parse_fields(s, 42, p, None)
        }
    }
}

// ---------------------------------------------------------------------
// The encoded form. The encoder never copies a declared length from the
// input: every length below is recomputed from the content it frames.
// ---------------------------------------------------------------------
/// `n` zero bytes.
pub open spec fn zero_bytes(n: int) -> Seq<u8> {
    Seq::new(n as nat, |i: int| 0u8)
}

/// The encoded zstring: a 16-bit length that counts the text plus its
/// terminator, the text bytes, one zero byte.
pub open spec fn zstring_bytes(s: Seq<u8>) -> Seq<u8> {
    spec_u16_to_le_bytes((s.len() + 1) as u16) + s + seq![0u8]
}

/// The 18 reserved bytes after the `TES4` size field, as plugin files in
/// the wild carry them.
pub open spec fn reserved_prefix() -> Seq<u8> {
    Seq::new(18, |i: int| if i == 14 { 0x2Cu8 } else { 0u8 })
}

/// One master entry: the `MAST` zstring and its fixed 14-byte `DATA`
/// trailer.
pub open spec fn master_block(m: Seq<u8>) -> Seq<u8> {
    spec_u32_to_le_bytes(TAG_MAST) + zstring_bytes(m) + spec_u32_to_le_bytes(TAG_DATA)
        + spec_u16_to_le_bytes(8) + zero_bytes(8)
}

/// All master entries, in order.
pub open spec fn masters_bytes(ms: Seq<Seq<u8>>) -> Seq<u8>
    decreases ms.len(),
{
    if ms.len() == 0 {
        Seq::empty()
    } else {
        master_block(ms[0]) + masters_bytes(ms.drop_first())
    }
}

/// Appending one master appends its block.
pub proof fn lemma_masters_bytes_snoc(ms: Seq<Seq<u8>>, m: Seq<u8>)
    ensures
        masters_bytes(ms.push(m)) == masters_bytes(ms) + master_block(m),
    decreases ms.len(),
{
    vstd::bytes::lemma_auto_spec_u16_to_from_le_bytes();
    vstd::bytes::lemma_auto_spec_u32_to_from_le_bytes();
    reveal_with_fuel(masters_bytes, 3);
    if ms.len() == 0 {
        assert(ms.push(m).drop_first() =~= Seq::<Seq<u8>>::empty());
        assert(masters_bytes(ms.push(m)) =~= master_block(m));
        assert(masters_bytes(ms) + master_block(m) =~= master_block(m));
    } else {
        assert(ms.push(m).drop_first() =~= ms.drop_first().push(m));
        lemma_masters_bytes_snoc(ms.drop_first(), m);
        assert(masters_bytes(ms.push(m)) =~= masters_bytes(ms) + master_block(m));
    }
}

/// The back-to-back encoding of 32-bit values.
pub open spec fn u32s_bytes(vs: Seq<u32>) -> Seq<u8>
    decreases vs.len(),
{
    if vs.len() == 0 {
        Seq::empty()
    } else {
        spec_u32_to_le_bytes(vs[0]) + u32s_bytes(vs.drop_first())
    }
}

/// Appending one value appends its four bytes.
pub proof fn lemma_u32s_bytes_snoc(vs: Seq<u32>, v: u32)
    ensures
        u32s_bytes(vs.push(v)) == u32s_bytes(vs) + spec_u32_to_le_bytes(v),
    decreases vs.len(),
{
    vstd::bytes::lemma_auto_spec_u32_to_from_le_bytes();
    reveal_with_fuel(u32s_bytes, 3);
    if vs.len() == 0 {
        assert(vs.push(v).drop_first() =~= Seq::<u32>::empty());
        assert(u32s_bytes(vs.push(v)) =~= u32s_bytes(vs) + spec_u32_to_le_bytes(v));
    } else {
        assert(vs.push(v).drop_first() =~= vs.drop_first().push(v));
        lemma_u32s_bytes_snoc(vs.drop_first(), v);
        assert(u32s_bytes(vs.push(v)) =~= u32s_bytes(vs) + spec_u32_to_le_bytes(v));
    }
}

/// The override array, present only when there are overrides. When its
/// byte length does not fit the 16-bit length field, the length escape is
/// applied: an `XXXX` subrecord carries the true 32-bit length and the
/// `ONAM` length field is written as zero.
pub open spec fn onam_block(o: Seq<u32>) -> Seq<u8> {
    if o.len() == 0 {
        Seq::empty()
    } else if 4 * o.len() <= 0xFFFF {
        spec_u32_to_le_bytes(TAG_ONAM) + spec_u16_to_le_bytes((4 * o.len()) as u16) + u32s_bytes(o)
    } else {
        spec_u32_to_le_bytes(TAG_XXXX) + spec_u16_to_le_bytes(4) + spec_u32_to_le_bytes(
            (4 * o.len()) as u32,
        ) + spec_u32_to_le_bytes(TAG_ONAM) + spec_u16_to_le_bytes(0) + u32s_bytes(o)
    }
}

/// The byte length of one encoded music record.
pub open spec fn musc_size(m: MuscView) -> int {
    67 + m.editor_id.len() as int + 4 * m.track_ids.len() as int
}

/// One encoded music record: a 24-byte record header whose declared size
/// counts the subrecords that follow, then the fixed schema `EDID`,
/// `FNAM`, `PNAM`, `WNAM`, `TNAM`.
pub open spec fn musc_record_bytes(m: MuscView) -> Seq<u8> {
    spec_u32_to_le_bytes(TAG_MUSC) + spec_u32_to_le_bytes(
        (43 + m.editor_id.len() + 4 * m.track_ids.len()) as u32,
    ) + spec_u32_to_le_bytes(0) + spec_u32_to_le_bytes(m.form_id) + spec_u32_to_le_bytes(0)
        + spec_u16_to_le_bytes(0) + spec_u16_to_le_bytes(0) + spec_u32_to_le_bytes(TAG_EDID)
        + zstring_bytes(m.editor_id) + spec_u32_to_le_bytes(TAG_FNAM) + spec_u16_to_le_bytes(4)
        + spec_u32_to_le_bytes(m.flags) + spec_u32_to_le_bytes(TAG_PNAM) + spec_u16_to_le_bytes(4)
        + spec_u16_to_le_bytes(m.priority) + spec_u16_to_le_bytes(m.ducking)
        + spec_u32_to_le_bytes(TAG_WNAM) + spec_u16_to_le_bytes(4) + spec_u32_to_le_bytes(
        m.fade_duration,
    ) + spec_u32_to_le_bytes(TAG_TNAM) + spec_u16_to_le_bytes((4 * m.track_ids.len()) as u16)
        + u32s_bytes(m.track_ids)
}

/// All music records, in order.
pub open spec fn muscs_bytes(music: Seq<MuscView>) -> Seq<u8>
    decreases music.len(),
{
    if music.len() == 0 {
        Seq::empty()
    } else {
        musc_record_bytes(music[0]) + muscs_bytes(music.drop_first())
    }
}

/// Appending one record appends its bytes.
pub proof fn lemma_muscs_bytes_snoc(music: Seq<MuscView>, m: MuscView)
    ensures
        muscs_bytes(music.push(m)) == muscs_bytes(music) + musc_record_bytes(m),
    decreases music.len(),
{
    vstd::bytes::lemma_auto_spec_u16_to_from_le_bytes();
    vstd::bytes::lemma_auto_spec_u32_to_from_le_bytes();
    reveal_with_fuel(muscs_bytes, 3);
    if music.len() == 0 {
        assert(music.push(m).drop_first() =~= Seq::<MuscView>::empty());
        assert(muscs_bytes(music.push(m)) =~= muscs_bytes(music) + musc_record_bytes(m));
    } else {
        assert(music.push(m).drop_first() =~= music.drop_first().push(m));
        lemma_muscs_bytes_snoc(music.drop_first(), m);
        assert(muscs_bytes(music.push(m)) =~= muscs_bytes(music) + musc_record_bytes(m));
    }
}

/// The summed byte length of the encoded music records.
pub open spec fn muscs_size(music: Seq<MuscView>) -> int
    decreases music.len(),
{
    if music.len() == 0 {
        0
    } else {
        musc_size(music[0]) + muscs_size(music.drop_first())
    }
}

/// Appending one record grows the sum by its size, and the sum is never
/// negative.
pub proof fn lemma_muscs_size_snoc(music: Seq<MuscView>, m: MuscView)
    ensures
        muscs_size(music.push(m)) == muscs_size(music) + musc_size(m),
        muscs_size(music) >= 0,
    decreases music.len(),
{
    reveal_with_fuel(muscs_size, 3);
    if music.len() == 0 {
        assert(music.push(m).drop_first() =~= Seq::<MuscView>::empty());
    } else {
        assert(music.push(m).drop_first() =~= music.drop_first().push(m));
        lemma_muscs_size_snoc(music.drop_first(), m);
    }
}

/// The summed record size is never negative.
pub proof fn lemma_muscs_size_nonneg(music: Seq<MuscView>)
    ensures
        muscs_size(music) >= 0,
    decreases music.len(),
{
    if music.len() > 0 {
        lemma_muscs_size_nonneg(music.drop_first());
    }
}

/// The group that carries the music records, present only when there is at
/// least one: its declared length counts its own 24-byte header plus its
/// records.
pub open spec fn group_block(music: Seq<MuscView>) -> Seq<u8> {
    if music.len() == 0 {
        Seq::empty()
    } else {
        spec_u32_to_le_bytes(TAG_GRUP) + spec_u32_to_le_bytes((muscs_size(music) + 24) as u32)
            + spec_u32_to_le_bytes(TAG_MUSC) + spec_u32_to_le_bytes(0) + zero_bytes(8)
            + muscs_bytes(music)
    }
}

/// The bytes each master contributes to the declared `TES4` header size.
pub open spec fn masters_size(ms: Seq<Seq<u8>>) -> int
    decreases ms.len(),
{
    if ms.len() == 0 {
        0
    } else {
        21 + ms[0].len() + masters_size(ms.drop_first())
    }
}

/// Appending one master grows the sum by its share, and the sum is never
/// negative.
pub proof fn lemma_masters_size_snoc(ms: Seq<Seq<u8>>, m: Seq<u8>)
    ensures
        masters_size(ms.push(m)) == masters_size(ms) + 21 + m.len(),
        masters_size(ms) >= 0,
    decreases ms.len(),
{
    reveal_with_fuel(masters_size, 3);
    if ms.len() == 0 {
        assert(ms.push(m).drop_first() =~= Seq::<Seq<u8>>::empty());
    } else {
        assert(ms.push(m).drop_first() =~= ms.drop_first().push(m));
        lemma_masters_size_snoc(ms.drop_first(), m);
    }
}

/// The masters' share of the header size is never negative.
pub proof fn lemma_masters_size_nonneg(ms: Seq<Seq<u8>>)
    ensures
        masters_size(ms) >= 0,
    decreases ms.len(),
{
    if ms.len() > 0 {
        lemma_masters_size_nonneg(ms.drop_first());
    }
}

/// The value of the declared `TES4` header size: the `HEDR` subrecord,
/// the author and description zstrings with their tags and length fields,
/// and the master entries.
pub open spec fn header_size_val(p: PluginView) -> int {
    18 + 7 + p.author.len() + 7 + p.description.len() + masters_size(p.masters)
}

/// One music record small enough to encode: its zstring length and its
/// track-array byte length fit their 16-bit fields.
pub open spec fn musc_encodable(m: MuscView) -> bool {
    &&& m.editor_id.len() <= 0xFFFE
    &&& 4 * m.track_ids.len() <= 0xFFFF
}

/// A plugin whose recomputed length fields all fit: the declared header
/// size in 16 bits, the override array in 32, the music group in 32, and
/// every record's own fields in theirs.
pub open spec fn encodable(p: PluginView) -> bool {
    &&& p.author.len() <= 0xFFFE
    &&& p.description.len() <= 0xFFFE
    &&& (forall|i: int| 0 <= i < p.masters.len() ==> p.masters[i].len() <= 0xFFFE)
    &&& header_size_val(p) <= 0xFFFF
    &&& 4 * p.overrides.len() <= 0xFFFF_FFFF
    &&& (forall|i: int| 0 <= i < p.music.len() ==> musc_encodable(#[trigger] p.music[i]))
    &&& muscs_size(p.music) + 24 <= 0xFFFF_FFFF
}

/// The encoded plugin: magic and recomputed header size, the reserved
/// bytes, the `HEDR` subrecord, author, description, masters, overrides
/// and the music group.
pub open spec fn spec_encode(p: PluginView) -> Seq<u8> {
    spec_u32_to_le_bytes(TAG_TES4) + spec_u16_to_le_bytes(header_size_val(p) as u16)
        + reserved_prefix() + spec_u32_to_le_bytes(TAG_HEDR) + spec_u16_to_le_bytes(12)
        + spec_u32_to_le_bytes(p.version) + spec_u32_to_le_bytes(p.num_records)
        + spec_u32_to_le_bytes(p.next_object_id) + spec_u32_to_le_bytes(TAG_CNAM) + zstring_bytes(
        p.author,
    ) + spec_u32_to_le_bytes(TAG_SNAM) + zstring_bytes(p.description) + masters_bytes(p.masters)
        + onam_block(p.overrides) + group_block(p.music)
}

} // verus!
