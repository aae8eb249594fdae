//! The laws that relate the encoder to the decoder: a decoded encoding
//! gives the plugin back (with the fields the encoder does not emit reset),
//! the length escape delivers content of the true length, and a group with
//! a foreign label is skipped to exactly the right offset.

use vstd::bytes::{
    lemma_auto_spec_u16_to_from_le_bytes, lemma_auto_spec_u32_to_from_le_bytes,
    spec_u16_to_le_bytes, spec_u32_to_le_bytes,
};
use vstd::prelude::*;
use vstd::utf8::valid_utf8;

use crate::model::{empty_plugin, FormatError, MuscView, PluginView};
use crate::model::{VERSION_0_94, VERSION_1_7};
use crate::wire::{
    encodable, group_block, header_size_val, le16_at, le32_at, masters_bytes, masters_size,
    musc_encodable, musc_record_bytes, musc_size, muscs_bytes, muscs_size, onam_block,
    reserved_prefix, spec_encode, spec_parse, spec_parse_after_group, spec_parse_fields,
    spec_parse_groups, spec_parse_records, spec_record_at, u32s_at, u32s_bytes, zero_bytes,
    zstring_at, zstring_bytes,
};
use crate::wire::{
    TAG_CNAM, TAG_DATA, TAG_EDID, TAG_FNAM, TAG_GRUP, TAG_HEDR, TAG_MAST, TAG_MUSC, TAG_ONAM,
    TAG_PNAM, TAG_SNAM, TAG_TES4, TAG_TNAM, TAG_WNAM, TAG_XXXX,
};

verus! {

/// The bytes `c` stand at offset `i` of `s`.
pub open spec fn chunk_at(s: Seq<u8>, i: int, c: Seq<u8>) -> bool {
    &&& 0 <= i
    &&& i + c.len() <= s.len()
    &&& s.subrange(i, i + c.len()) == c
}

/// A chunk that is a concatenation splits into its two halves.
pub proof fn lemma_chunk_split(s: Seq<u8>, i: int, a: Seq<u8>, b: Seq<u8>)
    requires
        chunk_at(s, i, a + b),
    ensures
        chunk_at(s, i, a),
        chunk_at(s, i + a.len(), b),
{
    let ab = a + b;
    assert forall|k: int| 0 <= k < a.len() implies s.subrange(i, i + a.len())[k] == a[k] by {
        assert(s.subrange(i, i + ab.len())[k] == s[i + k]);
        assert(ab[k] == a[k]);
    }
    assert(s.subrange(i, i + a.len()) =~= a);
    assert forall|k: int| 0 <= k < b.len() implies s.subrange(
        i + a.len(),
        i + a.len() + b.len(),
    )[k] == b[k] by {
        assert(s.subrange(i, i + ab.len())[a.len() + k] == s[i + a.len() + k]);
        assert(ab[a.len() + k] == b[k]);
    }
    assert(s.subrange(i + a.len(), i + a.len() + b.len()) =~= b);
}

/// A 32-bit field chunk reads back as its value.
pub proof fn lemma_le32_chunk(s: Seq<u8>, i: int, x: u32)
    requires
        chunk_at(s, i, spec_u32_to_le_bytes(x)),
    ensures
        le32_at(s, i) == x,
        i + 4 <= s.len(),
{
    lemma_auto_spec_u32_to_from_le_bytes();
}

/// A 16-bit field chunk reads back as its value.
pub proof fn lemma_le16_chunk(s: Seq<u8>, i: int, x: u16)
    requires
        chunk_at(s, i, spec_u16_to_le_bytes(x)),
    ensures
        le16_at(s, i) == x,
        i + 2 <= s.len(),
{
    lemma_auto_spec_u16_to_from_le_bytes();
}

/// An encoded zstring chunk decodes to its text, and the position lands
/// just past its terminator.
pub proof fn lemma_zstring_chunk(s: Seq<u8>, i: int, c: Seq<u8>)
    requires
        chunk_at(s, i, zstring_bytes(c)),
        c.len() + 1 <= 0xFFFF,
        valid_utf8(c),
    ensures
        le16_at(s, i) == (c.len() + 1) as u16,
        zstring_at(s, i + 2, (c.len() + 1) as u32) == Ok::<_, FormatError>((c, i + 3 + c.len())),
{
    lemma_auto_spec_u16_to_from_le_bytes();
    lemma_chunk_split(s, i, spec_u16_to_le_bytes((c.len() + 1) as u16) + c, seq![0u8]);
    lemma_chunk_split(s, i, spec_u16_to_le_bytes((c.len() + 1) as u16), c);
    lemma_le16_chunk(s, i, (c.len() + 1) as u16);
    let n = (c.len() + 1) as u32;
    assert(s.subrange(i + 2, i + 2 + n - 1) == c);
}

/// The back-to-back 32-bit values of a chunk read back as themselves.
pub proof fn lemma_u32s_chunk(s: Seq<u8>, i: int, vs: Seq<u32>)
    requires
        chunk_at(s, i, u32s_bytes(vs)),
    ensures
        u32s_bytes(vs).len() == 4 * vs.len(),
        u32s_at(s, i, vs.len() as int) == vs,
    decreases vs.len(),
{
    lemma_auto_spec_u32_to_from_le_bytes();
    if vs.len() == 0 {
        assert(u32s_at(s, i, 0) =~= vs);
    } else {
        lemma_chunk_split(s, i, spec_u32_to_le_bytes(vs[0]), u32s_bytes(vs.drop_first()));
        lemma_le32_chunk(s, i, vs[0]);
        lemma_u32s_chunk(s, i + 4, vs.drop_first());
        assert forall|k: int| 0 <= k < vs.len() implies u32s_at(s, i, vs.len() as int)[k] == vs[k] by {
            if k > 0 {
                assert(u32s_at(s, i + 4, vs.len() - 1)[k - 1] == vs.drop_first()[k - 1]);
                assert(le32_at(s, i + 4 + 4 * (k - 1)) == vs[k]);
            }
        }
        assert(u32s_at(s, i, vs.len() as int) =~= vs);
    }
}

/// The length of the encoded master list is its header-size share.
pub proof fn lemma_masters_bytes_len(ms: Seq<Seq<u8>>)
    ensures
        masters_bytes(ms).len() == masters_size(ms),
        masters_size(ms) >= 0,
    decreases ms.len(),
{
    lemma_auto_spec_u16_to_from_le_bytes();
    lemma_auto_spec_u32_to_from_le_bytes();
    if ms.len() == 0 {
    } else {
        lemma_masters_bytes_len(ms.drop_first());
    }
}

/// The length of one encoded record is its declared share of the group.
pub proof fn lemma_musc_record_bytes_len(m: MuscView)
    ensures
        musc_record_bytes(m).len() == musc_size(m),
{
    lemma_auto_spec_u16_to_from_le_bytes();
    lemma_auto_spec_u32_to_from_le_bytes();
    lemma_u32s_bytes_len(m.track_ids);
}

/// The length of back-to-back 32-bit values.
pub proof fn lemma_u32s_bytes_len(vs: Seq<u32>)
    ensures
        u32s_bytes(vs).len() == 4 * vs.len(),
    decreases vs.len(),
{
    lemma_auto_spec_u32_to_from_le_bytes();
    if vs.len() == 0 {
    } else {
        lemma_u32s_bytes_len(vs.drop_first());
    }
}

/// The length of the encoded records is the summed record size.
pub proof fn lemma_muscs_bytes_len(music: Seq<MuscView>)
    ensures
        muscs_bytes(music).len() == muscs_size(music),
        muscs_size(music) >= 0,
    decreases music.len(),
{
    if music.len() == 0 {
    } else {
        lemma_musc_record_bytes_len(music[0]);
        lemma_muscs_bytes_len(music.drop_first());
    }
}

/// A `CNAM` subrecord chunk sets the author and moves past itself.
pub proof fn lemma_fields_cnam(s: Seq<u8>, i: int, p: PluginView, a: Seq<u8>)
    requires
        chunk_at(s, i, spec_u32_to_le_bytes(TAG_CNAM)),
        chunk_at(s, i + 4, zstring_bytes(a)),
        a.len() + 1 <= 0xFFFF,
        valid_utf8(a),
    ensures
        spec_parse_fields(s, i, p, None) == spec_parse_fields(
            s,
            i + 7 + a.len(),
            PluginView { author: a, ..p },
            None,
        ),
{
    lemma_auto_spec_u16_to_from_le_bytes();
    lemma_auto_spec_u32_to_from_le_bytes();
    lemma_le32_chunk(s, i, TAG_CNAM);
    lemma_zstring_chunk(s, i + 4, a);
}

/// An `SNAM` subrecord chunk sets the description and moves past itself.
pub proof fn lemma_fields_snam(s: Seq<u8>, i: int, p: PluginView, d: Seq<u8>)
    requires
        chunk_at(s, i, spec_u32_to_le_bytes(TAG_SNAM)),
        chunk_at(s, i + 4, zstring_bytes(d)),
        d.len() + 1 <= 0xFFFF,
        valid_utf8(d),
    ensures
        spec_parse_fields(s, i, p, None) == spec_parse_fields(
            s,
            i + 7 + d.len(),
            PluginView { description: d, ..p },
            None,
        ),
{
    lemma_auto_spec_u16_to_from_le_bytes();
    lemma_auto_spec_u32_to_from_le_bytes();
    lemma_le32_chunk(s, i, TAG_SNAM);
    lemma_zstring_chunk(s, i + 4, d);
}

/// A whole run of encoded master entries appends its names, in order.
pub proof fn lemma_fields_masters(s: Seq<u8>, i: int, p: PluginView, ms: Seq<Seq<u8>>)
    requires
        chunk_at(s, i, masters_bytes(ms)),
        forall|k: int| 0 <= k < ms.len() ==> (#[trigger] ms[k]).len() + 1 <= 0xFFFF,
        forall|k: int| 0 <= k < ms.len() ==> valid_utf8(#[trigger] ms[k]),
    ensures
        spec_parse_fields(s, i, p, None) == spec_parse_fields(
            s,
            i + masters_bytes(ms).len(),
            PluginView { masters: p.masters + ms, ..p },
            None,
        ),
    decreases ms.len(),
{
    lemma_auto_spec_u16_to_from_le_bytes();
    lemma_auto_spec_u32_to_from_le_bytes();
    if ms.len() == 0 {
        assert(p.masters + ms =~= p.masters);
        assert((PluginView { masters: p.masters + ms, ..p }) =~= p);
    } else {
        let m0 = ms[0];
        lemma_chunk_split(s, i, crate::wire::master_block(m0), masters_bytes(ms.drop_first()));
        // Decompose the one master block.
        lemma_chunk_split(
            s,
            i,
            spec_u32_to_le_bytes(TAG_MAST) + zstring_bytes(m0) + spec_u32_to_le_bytes(TAG_DATA)
                + spec_u16_to_le_bytes(8),
            zero_bytes(8),
        );
        lemma_chunk_split(
            s,
            i,
            spec_u32_to_le_bytes(TAG_MAST) + zstring_bytes(m0) + spec_u32_to_le_bytes(TAG_DATA),
            spec_u16_to_le_bytes(8),
        );
        lemma_chunk_split(
            s,
            i,
            spec_u32_to_le_bytes(TAG_MAST) + zstring_bytes(m0),
            spec_u32_to_le_bytes(TAG_DATA),
        );
        lemma_chunk_split(s, i, spec_u32_to_le_bytes(TAG_MAST), zstring_bytes(m0));
        lemma_le32_chunk(s, i, TAG_MAST);
        lemma_zstring_chunk(s, i + 4, m0);
        let j2 = i + 7 + m0.len();
        assert(spec_parse_fields(s, i, p, None) == spec_parse_fields(
            s,
            j2 + 14,
            PluginView { masters: p.masters.push(m0), ..p },
            None,
        ));
        lemma_fields_masters(
            s,
            j2 + 14,
            PluginView { masters: p.masters.push(m0), ..p },
            ms.drop_first(),
        );
        assert(p.masters.push(m0) + ms.drop_first() =~= p.masters + ms);
        lemma_masters_bytes_len(ms);
        lemma_masters_bytes_len(ms.drop_first());
    }
}

/// An encoded override block appends its ids and moves past itself,
/// through the length escape when its byte length does not fit 16 bits.
pub proof fn lemma_fields_onam(s: Seq<u8>, i: int, p: PluginView, o: Seq<u32>)
    requires
        chunk_at(s, i, onam_block(o)),
        4 * o.len() <= 0xFFFF_FFFF,
    ensures
        spec_parse_fields(s, i, p, None) == spec_parse_fields(
            s,
            i + onam_block(o).len(),
            PluginView { overrides: p.overrides + o, ..p },
            None,
        ),
{
    lemma_auto_spec_u16_to_from_le_bytes();
    lemma_auto_spec_u32_to_from_le_bytes();
    lemma_u32s_bytes_len(o);
    if o.len() == 0 {
        assert(p.overrides + o =~= p.overrides);
        assert((PluginView { overrides: p.overrides + o, ..p }) =~= p);
    } else if 4 * o.len() <= 0xFFFF {
        let n = (4 * o.len()) as u16;
        lemma_chunk_split(
            s,
            i,
            spec_u32_to_le_bytes(TAG_ONAM) + spec_u16_to_le_bytes(n),
            u32s_bytes(o),
        );
        lemma_chunk_split(s, i, spec_u32_to_le_bytes(TAG_ONAM), spec_u16_to_le_bytes(n));
        lemma_le32_chunk(s, i, TAG_ONAM);
        lemma_le16_chunk(s, i + 4, n);
        lemma_u32s_chunk(s, i + 6, o);
        assert((4 * o.len() as int) / 4 == o.len() as int) by (nonlinear_arith);
    } else {
        let n = (4 * o.len()) as u32;
        lemma_chunk_split(
            s,
            i,
            spec_u32_to_le_bytes(TAG_XXXX) + spec_u16_to_le_bytes(4) + spec_u32_to_le_bytes(n)
                + spec_u32_to_le_bytes(TAG_ONAM) + spec_u16_to_le_bytes(0),
            u32s_bytes(o),
        );
        lemma_chunk_split(
            s,
            i,
            spec_u32_to_le_bytes(TAG_XXXX) + spec_u16_to_le_bytes(4) + spec_u32_to_le_bytes(n)
                + spec_u32_to_le_bytes(TAG_ONAM),
            spec_u16_to_le_bytes(0),
        );
        lemma_chunk_split(
            s,
            i,
            spec_u32_to_le_bytes(TAG_XXXX) + spec_u16_to_le_bytes(4) + spec_u32_to_le_bytes(n),
            spec_u32_to_le_bytes(TAG_ONAM),
        );
        lemma_chunk_split(
            s,
            i,
            spec_u32_to_le_bytes(TAG_XXXX) + spec_u16_to_le_bytes(4),
            spec_u32_to_le_bytes(n),
        );
        lemma_chunk_split(s, i, spec_u32_to_le_bytes(TAG_XXXX), spec_u16_to_le_bytes(4));
        lemma_le32_chunk(s, i, TAG_XXXX);
        lemma_le16_chunk(s, i + 4, 4);
        lemma_le32_chunk(s, i + 6, n);
        lemma_le32_chunk(s, i + 10, TAG_ONAM);
        lemma_le16_chunk(s, i + 14, 0);
        lemma_u32s_chunk(s, i + 16, o);
        assert(spec_parse_fields(s, i, p, None) == spec_parse_fields(s, i + 10, p, Some(n)));
        assert((4 * o.len() as int) / 4 == o.len() as int) by (nonlinear_arith);
    }
}

/// One encoded music record parses back to itself.
#[verifier::rlimit(100)]
#[verifier::spinoff_prover]
pub proof fn lemma_record_of_encode(s: Seq<u8>, i: int, m: MuscView)
    requires
        chunk_at(s, i, musc_record_bytes(m)),
        musc_encodable(m),
        valid_utf8(m.editor_id),
    ensures
        spec_record_at(s, i) == Ok::<_, FormatError>((m, i + musc_size(m))),
{
    lemma_auto_spec_u16_to_from_le_bytes();
    lemma_auto_spec_u32_to_from_le_bytes();
    lemma_u32s_bytes_len(m.track_ids);
    let k = m.editor_id.len() as int;
    let t = m.track_ids.len() as int;
    let c1 = spec_u32_to_le_bytes(TAG_MUSC);
    let c2 = spec_u32_to_le_bytes((43 + m.editor_id.len() + 4 * m.track_ids.len()) as u32);
    let c3 = spec_u32_to_le_bytes(0);
    let c4 = spec_u32_to_le_bytes(m.form_id);
    let c5 = spec_u32_to_le_bytes(0);
    let c6 = spec_u16_to_le_bytes(0);
    let c7 = spec_u16_to_le_bytes(0);
    let c8 = spec_u32_to_le_bytes(TAG_EDID);
    let c9 = zstring_bytes(m.editor_id);
    let c10 = spec_u32_to_le_bytes(TAG_FNAM);
    let c11 = spec_u16_to_le_bytes(4);
    let c12 = spec_u32_to_le_bytes(m.flags);
    let c13 = spec_u32_to_le_bytes(TAG_PNAM);
    let c14 = spec_u16_to_le_bytes(4);
    let c15 = spec_u16_to_le_bytes(m.priority);
    let c16 = spec_u16_to_le_bytes(m.ducking);
    let c17 = spec_u32_to_le_bytes(TAG_WNAM);
    let c18 = spec_u16_to_le_bytes(4);
    let c19 = spec_u32_to_le_bytes(m.fade_duration);
    let c20 = spec_u32_to_le_bytes(TAG_TNAM);
    let c21 = spec_u16_to_le_bytes((4 * m.track_ids.len()) as u16);
    let c22 = u32s_bytes(m.track_ids);
    lemma_chunk_split(
        s,
        i,
        c1 + c2 + c3 + c4 + c5 + c6 + c7 + c8 + c9 + c10 + c11 + c12 + c13 + c14 + c15 + c16 + c17
            + c18 + c19 + c20 + c21,
        c22,
    );
    lemma_chunk_split(
        s,
        i,
        c1 + c2 + c3 + c4 + c5 + c6 + c7 + c8 + c9 + c10 + c11 + c12 + c13 + c14 + c15 + c16 + c17
            + c18 + c19 + c20,
        c21,
    );
    lemma_chunk_split(
        s,
        i,
        c1 + c2 + c3 + c4 + c5 + c6 + c7 + c8 + c9 + c10 + c11 + c12 + c13 + c14 + c15 + c16 + c17
            + c18 + c19,
        c20,
    );
    lemma_chunk_split(
        s,
        i,
        c1 + c2 + c3 + c4 + c5 + c6 + c7 + c8 + c9 + c10 + c11 + c12 + c13 + c14 + c15 + c16 + c17
            + c18,
        c19,
    );
    lemma_chunk_split(
        s,
        i,
        c1 + c2 + c3 + c4 + c5 + c6 + c7 + c8 + c9 + c10 + c11 + c12 + c13 + c14 + c15 + c16 + c17,
        c18,
    );
    lemma_chunk_split(
        s,
        i,
        c1 + c2 + c3 + c4 + c5 + c6 + c7 + c8 + c9 + c10 + c11 + c12 + c13 + c14 + c15 + c16,
        c17,
    );
    lemma_chunk_split(
        s,
        i,
        c1 + c2 + c3 + c4 + c5 + c6 + c7 + c8 + c9 + c10 + c11 + c12 + c13 + c14 + c15,
        c16,
    );
    lemma_chunk_split(
        s,
        i,
        c1 + c2 + c3 + c4 + c5 + c6 + c7 + c8 + c9 + c10 + c11 + c12 + c13 + c14,
        c15,
    );
    lemma_chunk_split(s, i, c1 + c2 + c3 + c4 + c5 + c6 + c7 + c8 + c9 + c10 + c11 + c12 + c13, c14);
    lemma_chunk_split(s, i, c1 + c2 + c3 + c4 + c5 + c6 + c7 + c8 + c9 + c10 + c11 + c12, c13);
    lemma_chunk_split(s, i, c1 + c2 + c3 + c4 + c5 + c6 + c7 + c8 + c9 + c10 + c11, c12);
    lemma_chunk_split(s, i, c1 + c2 + c3 + c4 + c5 + c6 + c7 + c8 + c9 + c10, c11);
    lemma_chunk_split(s, i, c1 + c2 + c3 + c4 + c5 + c6 + c7 + c8 + c9, c10);
    lemma_chunk_split(s, i, c1 + c2 + c3 + c4 + c5 + c6 + c7 + c8, c9);
    lemma_chunk_split(s, i, c1 + c2 + c3 + c4 + c5 + c6 + c7, c8);
    lemma_chunk_split(s, i, c1 + c2 + c3 + c4 + c5 + c6, c7);
    lemma_chunk_split(s, i, c1 + c2 + c3 + c4 + c5, c6);
    lemma_chunk_split(s, i, c1 + c2 + c3 + c4, c5);
    lemma_chunk_split(s, i, c1 + c2 + c3, c4);
    lemma_chunk_split(s, i, c1 + c2, c3);
    lemma_chunk_split(s, i, c1, c2);
    lemma_le32_chunk(s, i, TAG_MUSC);
    lemma_le32_chunk(s, i + 12, m.form_id);
    lemma_le32_chunk(s, i + 24, TAG_EDID);
    lemma_zstring_chunk(s, i + 28, m.editor_id);
    let i2 = i + 31 + k;
    lemma_le32_chunk(s, i2, TAG_FNAM);
    lemma_le16_chunk(s, i2 + 4, 4);
    lemma_le32_chunk(s, i2 + 6, m.flags);
    let i3 = i2 + 10;
    lemma_le32_chunk(s, i3, TAG_PNAM);
    lemma_le16_chunk(s, i3 + 4, 4);
    lemma_le16_chunk(s, i3 + 6, m.priority);
    lemma_le16_chunk(s, i3 + 8, m.ducking);
    let i4 = i3 + 10;
    lemma_le32_chunk(s, i4, TAG_WNAM);
    lemma_le16_chunk(s, i4 + 4, 4);
    lemma_le32_chunk(s, i4 + 6, m.fade_duration);
    let i5 = i4 + 10;
    lemma_le32_chunk(s, i5, TAG_TNAM);
    lemma_le16_chunk(s, i5 + 4, (4 * m.track_ids.len()) as u16);
    lemma_u32s_chunk(s, i5 + 6, m.track_ids);
    assert(((4 * t) as u32 / 4) as int == t) by (nonlinear_arith)
        requires
            0 <= t <= 0x3FFF,
    ;
    assert(spec_record_at(s, i) is Ok);
    let (mm, jj) = spec_record_at(s, i)->Ok_0;
    assert(mm =~= m);
    assert(jj == i + musc_size(m));
}

/// A run of encoded records parses back to those records, appended in
/// order, consuming exactly the declared content length.
pub proof fn lemma_records_of_encode(s: Seq<u8>, i: int, acc: Seq<MuscView>, music: Seq<MuscView>)
    requires
        chunk_at(s, i, muscs_bytes(music)),
        forall|k: int| 0 <= k < music.len() ==> musc_encodable(#[trigger] music[k]),
        forall|k: int| 0 <= k < music.len() ==> valid_utf8((#[trigger] music[k]).editor_id),
    ensures
        spec_parse_records(s, i, muscs_size(music), acc) == Ok::<_, FormatError>((
            acc + music,
            i + muscs_size(music),
        )),
    decreases music.len(),
{
    lemma_muscs_bytes_len(music);
    if music.len() == 0 {
        assert(acc + music =~= acc);
    } else {
        let m0 = music[0];
        lemma_musc_record_bytes_len(m0);
        lemma_muscs_bytes_len(music.drop_first());
        lemma_chunk_split(s, i, musc_record_bytes(m0), muscs_bytes(music.drop_first()));
        lemma_record_of_encode(s, i, m0);
        lemma_records_of_encode(s, i + musc_size(m0), acc.push(m0), music.drop_first());
        assert(acc.push(m0) + music.drop_first() =~= acc + music);
    }
}

/// The encoded music group, standing at the end of the stream, parses back
/// to its records and ends the parse.
pub proof fn lemma_fields_group(s: Seq<u8>, i: int, p: PluginView, music: Seq<MuscView>)
    requires
        chunk_at(s, i, group_block(music)),
        i + group_block(music).len() == s.len(),
        muscs_size(music) + 24 <= 0xFFFF_FFFF,
        forall|k: int| 0 <= k < music.len() ==> musc_encodable(#[trigger] music[k]),
        forall|k: int| 0 <= k < music.len() ==> valid_utf8((#[trigger] music[k]).editor_id),
    ensures
        spec_parse_fields(s, i, p, None) == Ok::<PluginView, FormatError>(
            PluginView { music: p.music + music, ..p },
        ),
{
    lemma_auto_spec_u16_to_from_le_bytes();
    lemma_auto_spec_u32_to_from_le_bytes();
    lemma_muscs_bytes_len(music);
    if music.len() == 0 {
        assert(i >= s.len());
        assert(p.music + music =~= p.music);
        assert((PluginView { music: p.music + music, ..p }) =~= p);
    } else {
        let total = (muscs_size(music) + 24) as u32;
        lemma_chunk_split(
            s,
            i,
            spec_u32_to_le_bytes(TAG_GRUP) + spec_u32_to_le_bytes(total) + spec_u32_to_le_bytes(
                TAG_MUSC,
            ) + spec_u32_to_le_bytes(0) + zero_bytes(8),
            muscs_bytes(music),
        );
        lemma_chunk_split(
            s,
            i,
            spec_u32_to_le_bytes(TAG_GRUP) + spec_u32_to_le_bytes(total) + spec_u32_to_le_bytes(
                TAG_MUSC,
            ) + spec_u32_to_le_bytes(0),
            zero_bytes(8),
        );
        lemma_chunk_split(
            s,
            i,
            spec_u32_to_le_bytes(TAG_GRUP) + spec_u32_to_le_bytes(total) + spec_u32_to_le_bytes(
                TAG_MUSC,
            ),
            spec_u32_to_le_bytes(0),
        );
        lemma_chunk_split(
            s,
            i,
            spec_u32_to_le_bytes(TAG_GRUP) + spec_u32_to_le_bytes(total),
            spec_u32_to_le_bytes(TAG_MUSC),
        );
        lemma_chunk_split(s, i, spec_u32_to_le_bytes(TAG_GRUP), spec_u32_to_le_bytes(total));
        lemma_le32_chunk(s, i, TAG_GRUP);
        lemma_le32_chunk(s, i + 4, total);
        lemma_le32_chunk(s, i + 8, TAG_MUSC);
        lemma_le32_chunk(s, i + 12, 0);
        assert(spec_parse_fields(s, i, p, None) == spec_parse_groups(s, i + 4, p));
        lemma_records_of_encode(s, i + 24, p.music, music);
        let j2 = i + 24 + muscs_size(music);
        assert(j2 == s.len());
        assert(spec_parse_after_group(s, j2, PluginView { music: p.music + music, ..p })
            == Ok::<PluginView, FormatError>(PluginView { music: p.music + music, ..p }));
    }
}

/// The fields every decoded plugin starts from: what the encoder does not
/// emit is reset — the name is empty and the opaque 32-bit fields are zero.
pub open spec fn decoded_form(p: PluginView) -> PluginView {
    PluginView { name: Seq::empty(), intv: 0, incc: 0, ..p }
}

/// A plugin the round trip is stated for: encodable, carrying a supported
/// version, and with text fields that are valid UTF-8.
pub open spec fn round_trip_wf(p: PluginView) -> bool {
    &&& encodable(p)
    &&& (p.version == VERSION_1_7 || p.version == VERSION_0_94)
    &&& valid_utf8(p.author)
    &&& valid_utf8(p.description)
    &&& (forall|k: int| 0 <= k < p.masters.len() ==> valid_utf8(#[trigger] p.masters[k]))
    &&& (forall|k: int| 0 <= k < p.music.len() ==> valid_utf8((#[trigger] p.music[k]).editor_id))
}

/// Round trip: decoding an encoded plugin gives the plugin back — author,
/// description, masters, overrides and music records (track order
/// included) all preserved; only the fields the encoder does not emit come
/// back reset.
#[verifier::rlimit(100)]
#[verifier::spinoff_prover]
pub proof fn lemma_round_trip(p: PluginView)
    ensures
        round_trip_wf(p) ==> spec_parse(spec_encode(p)) == Ok::<PluginView, FormatError>(
            decoded_form(p),
        ),
{
    if round_trip_wf(p) {
        lemma_auto_spec_u16_to_from_le_bytes();
        lemma_auto_spec_u32_to_from_le_bytes();
        let s = spec_encode(p);
        let c1 = spec_u32_to_le_bytes(TAG_TES4);
        let c2 = spec_u16_to_le_bytes(header_size_val(p) as u16);
        let c3 = reserved_prefix();
        let c4 = spec_u32_to_le_bytes(TAG_HEDR);
        let c5 = spec_u16_to_le_bytes(12);
        let c6 = spec_u32_to_le_bytes(p.version);
        let c7 = spec_u32_to_le_bytes(p.num_records);
        let c8 = spec_u32_to_le_bytes(p.next_object_id);
        let c9 = spec_u32_to_le_bytes(TAG_CNAM);
        let c10 = zstring_bytes(p.author);
        let c11 = spec_u32_to_le_bytes(TAG_SNAM);
        let c12 = zstring_bytes(p.description);
        let c13 = masters_bytes(p.masters);
        let c14 = onam_block(p.overrides);
        let c15 = group_block(p.music);
        assert(s.subrange(0, s.len() as int) =~= s);
        assert(chunk_at(s, 0, c1 + c2 + c3 + c4 + c5 + c6 + c7 + c8 + c9 + c10 + c11 + c12 + c13
            + c14 + c15));
        lemma_chunk_split(
            s,
            0,
            c1 + c2 + c3 + c4 + c5 + c6 + c7 + c8 + c9 + c10 + c11 + c12 + c13 + c14,
            c15,
        );
        lemma_chunk_split(
            s,
            0,
            c1 + c2 + c3 + c4 + c5 + c6 + c7 + c8 + c9 + c10 + c11 + c12 + c13,
            c14,
        );
        lemma_chunk_split(s, 0, c1 + c2 + c3 + c4 + c5 + c6 + c7 + c8 + c9 + c10 + c11 + c12, c13);
        lemma_chunk_split(s, 0, c1 + c2 + c3 + c4 + c5 + c6 + c7 + c8 + c9 + c10 + c11, c12);
        lemma_chunk_split(s, 0, c1 + c2 + c3 + c4 + c5 + c6 + c7 + c8 + c9 + c10, c11);
        lemma_chunk_split(s, 0, c1 + c2 + c3 + c4 + c5 + c6 + c7 + c8 + c9, c10);
        lemma_chunk_split(s, 0, c1 + c2 + c3 + c4 + c5 + c6 + c7 + c8, c9);
        lemma_chunk_split(s, 0, c1 + c2 + c3 + c4 + c5 + c6 + c7, c8);
        lemma_chunk_split(s, 0, c1 + c2 + c3 + c4 + c5 + c6, c7);
        lemma_chunk_split(s, 0, c1 + c2 + c3 + c4 + c5, c6);
        lemma_chunk_split(s, 0, c1 + c2 + c3 + c4, c5);
        lemma_chunk_split(s, 0, c1 + c2 + c3, c4);
        lemma_chunk_split(s, 0, c1 + c2, c3);
        lemma_chunk_split(s, 0, c1, c2);
        lemma_le32_chunk(s, 0, TAG_TES4);
        lemma_le32_chunk(s, 24, TAG_HEDR);
        lemma_le32_chunk(s, 30, p.version);
        lemma_le32_chunk(s, 34, p.num_records);
        lemma_le32_chunk(s, 38, p.next_object_id);
        let p0 = PluginView {
            version: p.version,
            num_records: p.num_records,
            next_object_id: p.next_object_id,
            ..empty_plugin()
        };
        assert(spec_parse(s) == spec_parse_fields(s, 42, p0, None));
        lemma_fields_cnam(s, 42, p0, p.author);
        let p1 = PluginView { author: p.author, ..p0 };
        let i_snam = 42 + 7 + p.author.len() as int;
        lemma_fields_snam(s, i_snam, p1, p.description);
        let p2 = PluginView { description: p.description, ..p1 };
        let i_masters = i_snam + 7 + p.description.len() as int;
        assert(forall|k: int| 0 <= k < p.masters.len() ==> (#[trigger] p.masters[k]).len() + 1
            <= 0xFFFF) by {
            lemma_masters_bytes_len(p.masters);
        }
        lemma_fields_masters(s, i_masters, p2, p.masters);
        lemma_masters_bytes_len(p.masters);
        let p3 = PluginView { masters: p2.masters + p.masters, ..p2 };
        let i_onam = i_masters + masters_size(p.masters);
        lemma_fields_onam(s, i_onam, p3, p.overrides);
        let p4 = PluginView { overrides: p3.overrides + p.overrides, ..p3 };
        let i_group = i_onam + onam_block(p.overrides).len();
        assert(i_group + group_block(p.music).len() == s.len());
        lemma_fields_group(s, i_group, p4, p.music);
        assert(p2.masters + p.masters =~= p.masters);
        assert(p3.overrides + p.overrides =~= p.overrides);
        assert(p4.music + p.music =~= p.music);
        assert((PluginView { music: p4.music + p.music, ..p4 }) =~= decoded_form(p));
    }
}

/// The length escape: content framed as `XXXX` with the true length,
/// followed by the target subrecord with a declared length of zero,
/// decodes to content of the true length — whatever that length is, and in
/// particular beyond what the 16-bit length field could carry.
pub proof fn lemma_length_escape(s: Seq<u8>, i: int, p: PluginView, c: Seq<u8>)
    requires
        chunk_at(
            s,
            i,
            spec_u32_to_le_bytes(TAG_XXXX) + spec_u16_to_le_bytes(4) + spec_u32_to_le_bytes(
                (c.len() + 1) as u32,
            ) + spec_u32_to_le_bytes(TAG_SNAM) + spec_u16_to_le_bytes(0) + c + seq![0u8],
        ),
        c.len() + 1 <= 0xFFFF_FFFF,
        valid_utf8(c),
    ensures
        spec_parse_fields(s, i, p, None) == spec_parse_fields(
            s,
            i + 17 + c.len(),
            PluginView { description: c, ..p },
            None,
        ),
{
    lemma_auto_spec_u16_to_from_le_bytes();
    lemma_auto_spec_u32_to_from_le_bytes();
    let n = (c.len() + 1) as u32;
    let x1 = spec_u32_to_le_bytes(TAG_XXXX);
    let x2 = spec_u16_to_le_bytes(4);
    let x3 = spec_u32_to_le_bytes(n);
    let x4 = spec_u32_to_le_bytes(TAG_SNAM);
    let x5 = spec_u16_to_le_bytes(0);
    lemma_chunk_split(s, i, x1 + x2 + x3 + x4 + x5 + c, seq![0u8]);
    lemma_chunk_split(s, i, x1 + x2 + x3 + x4 + x5, c);
    lemma_chunk_split(s, i, x1 + x2 + x3 + x4, x5);
    lemma_chunk_split(s, i, x1 + x2 + x3, x4);
    lemma_chunk_split(s, i, x1 + x2, x3);
    lemma_chunk_split(s, i, x1, x2);
    lemma_le32_chunk(s, i, TAG_XXXX);
    lemma_le16_chunk(s, i + 4, 4);
    lemma_le32_chunk(s, i + 6, n);
    lemma_le32_chunk(s, i + 10, TAG_SNAM);
    lemma_le16_chunk(s, i + 14, 0);
    assert(spec_parse_fields(s, i, p, None) == spec_parse_fields(s, i + 10, p, Some(n)));
    assert(s.subrange(i + 16, i + 16 + n - 1) == c);
    assert(zstring_at(s, i + 16, n) == Ok::<_, FormatError>((c, i + 16 + n)));
}

/// The group skip: a group with a label the decoder does not recognize and
/// declared total length `L` is skipped whole, and parsing resumes exactly
/// `L - 24` bytes past the group header.
pub proof fn lemma_group_skip(s: Seq<u8>, i: int, p: PluginView, label: u32, body: Seq<u8>)
    requires
        chunk_at(
            s,
            i,
            spec_u32_to_le_bytes((body.len() + 24) as u32) + spec_u32_to_le_bytes(label)
                + spec_u32_to_le_bytes(0) + zero_bytes(8) + body,
        ),
        label != TAG_MUSC,
        body.len() + 24 <= 0xFFFF_FFFF,
    ensures
        spec_parse_groups(s, i, p) == spec_parse_after_group(s, i + 20 + body.len(), p),
{
    lemma_auto_spec_u16_to_from_le_bytes();
    lemma_auto_spec_u32_to_from_le_bytes();
    let total = (body.len() + 24) as u32;
    let g1 = spec_u32_to_le_bytes(total);
    let g2 = spec_u32_to_le_bytes(label);
    let g3 = spec_u32_to_le_bytes(0);
    let g4 = zero_bytes(8);
    lemma_chunk_split(s, i, g1 + g2 + g3 + g4, body);
    lemma_chunk_split(s, i, g1 + g2 + g3, g4);
    lemma_chunk_split(s, i, g1 + g2, g3);
    lemma_chunk_split(s, i, g1, g2);
    lemma_le32_chunk(s, i, total);
    lemma_le32_chunk(s, i + 4, label);
    lemma_le32_chunk(s, i + 8, 0);
}

} // verus!
