//! The encoder: the structural inverse of the decoder. `write_plugin` is
//! proved to emit exactly `wire::spec_encode` of the plugin, in which every
//! declared length field is recomputed from the content it frames.

use vstd::bytes::{spec_u16_to_le_bytes, spec_u32_to_le_bytes, u16_to_le_bytes, u32_to_le_bytes};
use vstd::prelude::*;

use crate::model::{Plugin, MUSC};
use crate::wire::{
    encodable, group_block, header_size_val, lemma_masters_bytes_snoc, lemma_masters_size_snoc,
    lemma_muscs_bytes_snoc, lemma_muscs_size_snoc, lemma_u32s_bytes_snoc, master_block,
    masters_bytes, masters_size, musc_encodable, musc_record_bytes, musc_size, muscs_bytes,
    muscs_size, onam_block, reserved_prefix, spec_encode, u32s_bytes, zero_bytes, zstring_bytes,
};
use crate::wire::{TAG_CNAM, TAG_DATA, TAG_GRUP, TAG_HEDR, TAG_MAST, TAG_MUSC, TAG_ONAM, TAG_SNAM,
    TAG_TES4, TAG_TNAM, TAG_XXXX};
use crate::wire::{TAG_EDID, TAG_FNAM, TAG_PNAM, TAG_WNAM};

verus! {

/// One byte.
pub fn write_u8(out: &mut Vec<u8>, v: u8)
    ensures
        final(out)@ == old(out)@ + seq![v],
{
    out.push(v);
    proof {
        assert(out@ =~= old(out)@ + seq![v]);
    }
}

/// A 16-bit little-endian field.
pub fn write_u16(out: &mut Vec<u8>, v: u16)
    ensures
        final(out)@ == old(out)@ + spec_u16_to_le_bytes(v),
{
    let mut b = u16_to_le_bytes(v);
    out.append(&mut b);
}

/// A 32-bit little-endian field.
pub fn write_u32(out: &mut Vec<u8>, v: u32)
    ensures
        final(out)@ == old(out)@ + spec_u32_to_le_bytes(v),
{
    let mut b = u32_to_le_bytes(v);
    out.append(&mut b);
}

/// A four-byte tag, written as its little-endian 32-bit value.
pub fn write_ident(out: &mut Vec<u8>, tag: u32)
    ensures
        final(out)@ == old(out)@ + spec_u32_to_le_bytes(tag),
{
    write_u32(out, tag);
}

/// The raw bytes of `s`.
pub fn write_bytes(out: &mut Vec<u8>, s: &Vec<u8>)
    ensures
        final(out)@ == old(out)@ + s@,
{
    let mut i: usize = 0;
    while i < s.len()
        invariant
            i <= s@.len(),
            out@ == old(out)@ + s@.subrange(0, i as int),
        decreases s@.len() - i,
    {
        out.push(s[i]);
        i = i + 1;
        proof {
            assert(out@ =~= old(out)@ + s@.subrange(0, i as int));
        }
    }
    proof {
        assert(s@.subrange(0, s@.len() as int) =~= s@);
    }
}

/// `n` zero bytes.
pub fn write_zeros(out: &mut Vec<u8>, n: usize)
    ensures
        final(out)@ == old(out)@ + zero_bytes(n as int),
{
    let mut i: usize = 0;
    while i < n
        invariant
            i <= n,
            out@ == old(out)@ + zero_bytes(i as int),
        decreases n - i,
    {
        out.push(0);
        i = i + 1;
        proof {
            assert(out@ =~= old(out)@ + zero_bytes(i as int));
        }
    }
}

/// A zstring: the recomputed 16-bit length (text plus terminator), the
/// text, one zero byte.
pub fn write_zstring(out: &mut Vec<u8>, s: &Vec<u8>)
    requires
        s@.len() + 1 <= 0xFFFF,
    ensures
        final(out)@ == old(out)@ + zstring_bytes(s@),
{
    write_u16(out, (s.len() + 1) as u16);
    write_bytes(out, s);
    write_u8(out, 0);
    proof {
        vstd::bytes::lemma_auto_spec_u16_to_from_le_bytes();
        assert(out@ =~= old(out)@ + zstring_bytes(s@));
    }
}

/// Prefix sums of the masters' header-size shares never pass the total.
proof fn lemma_masters_size_take_bound(ms: Seq<Seq<u8>>, i: int)
    requires
        0 <= i <= ms.len(),
    ensures
        0 <= masters_size(ms.take(i)) <= masters_size(ms),
    decreases ms.len() - i,
{
    if i == ms.len() {
        assert(ms.take(i) =~= ms);
        crate::wire::lemma_masters_size_nonneg(ms);
    } else {
        assert(ms.take(i + 1) =~= ms.take(i).push(ms[i]));
        lemma_masters_size_snoc(ms.take(i), ms[i]);
        lemma_masters_size_take_bound(ms, i + 1);
    }
}

/// Prefix sums of the record sizes never pass the total.
proof fn lemma_muscs_size_take_bound(music: Seq<crate::model::MuscView>, i: int)
    requires
        0 <= i <= music.len(),
    ensures
        0 <= muscs_size(music.take(i)) <= muscs_size(music),
    decreases music.len() - i,
{
    if i == music.len() {
        assert(music.take(i) =~= music);
        crate::wire::lemma_muscs_size_nonneg(music);
    } else {
        assert(music.take(i + 1) =~= music.take(i).push(music[i]));
        lemma_muscs_size_snoc(music.take(i), music[i]);
        lemma_muscs_size_take_bound(music, i + 1);
    }
}

/// Whether a plugin's recomputed length fields would all fit, so that
/// `write_plugin` may be called on it. Exactly `wire::encodable`.
#[verifier::loop_isolation(false)]
pub fn plugin_encodable(p: &Plugin) -> (r: bool)
    ensures
        r == encodable(p@),
{
    if p.author.len() > 0xFFFE || p.description.len() > 0xFFFE {
        return false;
    }
    if p.overrides.len() > 0x3FFF_FFFF {
        return false;
    }
    let ghost ms = p@.masters;
    let mut hs: u64 = 32 + (p.author.len() as u64) + (p.description.len() as u64);
    let mut i: usize = 0;
    proof {
        assert(ms.take(0) =~= Seq::<Seq<u8>>::empty());
        lemma_masters_size_take_bound(ms, 0);
    }
    if hs > 0xFFFF {
        proof {
            assert(header_size_val(p@) > 0xFFFF);
        }
        return false;
    }
    while i < p.masters.len()
        invariant
            ms == p@.masters,
            i <= ms.len(),
            p@.author.len() <= 0xFFFE,
            p@.description.len() <= 0xFFFE,
            hs == 32 + p@.author.len() + p@.description.len() + masters_size(ms.take(i as int)),
            hs <= 0xFFFF,
            forall|k: int| 0 <= k < i ==> (#[trigger] ms[k]).len() <= 0xFFFE,
        decreases ms.len() - i,
    {
        proof {
            assert(ms[i as int] == p.masters@[i as int]@);
        }
        if p.masters[i].len() > 0xFFFE {
            proof {
                assert(!encodable(p@));
            }
            return false;
        }
        proof {
            assert(ms.take(i + 1) =~= ms.take(i as int).push(ms[i as int]));
            lemma_masters_size_snoc(ms.take(i as int), ms[i as int]);
        }
        hs = hs + 21 + (p.masters[i].len() as u64);
        i = i + 1;
        if hs > 0xFFFF {
            proof {
                lemma_masters_size_take_bound(ms, i as int);
                assert(header_size_val(p@) > 0xFFFF);
            }
            return false;
        }
    }
    proof {
        assert(ms.take(ms.len() as int) =~= ms);
    }
    let ghost music = p@.music;
    let mut gs: u64 = 0;
    let mut k: usize = 0;
    proof {
        assert(music.take(0) =~= Seq::<crate::model::MuscView>::empty());
        lemma_muscs_size_take_bound(music, 0);
    }
    while k < p.music.len()
        invariant
            music == p@.music,
            k <= music.len(),
            gs == muscs_size(music.take(k as int)),
            gs + 24 <= 0xFFFF_FFFF,
            forall|j: int| 0 <= j < k ==> musc_encodable(#[trigger] music[j]),
        decreases music.len() - k,
    {
        let m = &p.music[k];
        proof {
            assert(music[k as int] == p.music@[k as int]@);
        }
        if m.editor_id.len() > 0xFFFE || m.track_ids.len() > 0x3FFF {
            proof {
                assert(!musc_encodable(music[k as int]));
            }
            return false;
        }
        proof {
            assert(music[k as int] == p.music@[k as int]@);
            assert(music.take(k + 1) =~= music.take(k as int).push(music[k as int]));
            lemma_muscs_size_snoc(music.take(k as int), music[k as int]);
        }
        gs = gs + 67 + (m.editor_id.len() as u64) + 4 * (m.track_ids.len() as u64);
        k = k + 1;
        if gs + 24 > 0xFFFF_FFFF {
            proof {
                lemma_muscs_size_take_bound(music, k as int);
                assert(muscs_size(music) + 24 > 0xFFFF_FFFF);
            }
            return false;
        }
    }
    proof {
        assert(music.take(music.len() as int) =~= music);
    }
    true
}

/// The declared `TES4` header size, recomputed from the author, the
/// description and the masters.
fn header_size(p: &Plugin) -> (hs: u32)
    requires
        encodable(p@),
    ensures
        hs == header_size_val(p@),
{
    let ghost ms = p@.masters;
    let mut hs: u32 = 32;
    let mut i: usize = 0;
    proof {
        assert(ms.take(0) =~= Seq::<Seq<u8>>::empty());
        lemma_masters_size_take_bound(ms, 0);
    }
    while i < p.masters.len()
        invariant
            encodable(p@),
            ms == p@.masters,
            i <= ms.len(),
            hs == 32 + masters_size(ms.take(i as int)),
            hs <= 0xFFFF - p@.author.len() - p@.description.len(),
        decreases ms.len() - i,
    {
        proof {
            assert(ms.take(i + 1) =~= ms.take(i as int).push(ms[i as int]));
            lemma_masters_size_snoc(ms.take(i as int), ms[i as int]);
            lemma_masters_size_take_bound(ms, i + 1);
            assert(ms[i as int].len() <= 0xFFFE);
        }
        hs = hs + 21 + (p.masters[i].len() as u32);
        i = i + 1;
    }
    proof {
        assert(ms.take(ms.len() as int) =~= ms);
    }
    hs + (p.author.len() as u32) + (p.description.len() as u32)
}

/// The summed byte length of the encoded music records.
fn music_size(p: &Plugin) -> (gs: u32)
    requires
        encodable(p@),
    ensures
        gs == muscs_size(p@.music),
{
    let ghost music = p@.music;
    let mut gs: u32 = 0;
    let mut i: usize = 0;
    proof {
        assert(music.take(0) =~= Seq::<crate::model::MuscView>::empty());
        lemma_muscs_size_take_bound(music, 0);
    }
    while i < p.music.len()
        invariant
            encodable(p@),
            music == p@.music,
            i <= music.len(),
            gs == muscs_size(music.take(i as int)),
            gs <= 0xFFFF_FFFF - 24,
        decreases music.len() - i,
    {
        proof {
            assert(music.take(i + 1) =~= music.take(i as int).push(music[i as int]));
            lemma_muscs_size_snoc(music.take(i as int), music[i as int]);
            lemma_muscs_size_take_bound(music, i + 1);
            assert(musc_encodable(music[i as int]));
            assert(music[i as int] == p.music@[i as int]@);
        }
        let m = &p.music[i];
        gs = gs + 67 + (m.editor_id.len() as u32) + 4 * (m.track_ids.len() as u32);
        i = i + 1;
    }
    proof {
        assert(music.take(music.len() as int) =~= music);
    }
    gs
}

/// One encoded music record: the 24-byte record header with its
/// recomputed size, then the fixed subrecord schema.
#[verifier::rlimit(100)]
#[verifier::spinoff_prover]
#[verifier::loop_isolation(false)]
fn write_musc_record(out: &mut Vec<u8>, m: &MUSC)
    requires
        musc_encodable(m@),
    ensures
        final(out)@ == old(out)@ + musc_record_bytes(m@),
{
    proof {
        vstd::bytes::lemma_auto_spec_u16_to_from_le_bytes();
        vstd::bytes::lemma_auto_spec_u32_to_from_le_bytes();
    }
    write_ident(out, TAG_MUSC);
    write_u32(out, 43 + (m.editor_id.len() as u32) + 4 * (m.track_ids.len() as u32));
    write_u32(out, 0);
    write_u32(out, m.form_id);
    write_u32(out, 0);
    write_u16(out, 0);
    write_u16(out, 0);
    write_ident(out, TAG_EDID);
    write_zstring(out, &m.editor_id);
    write_ident(out, TAG_FNAM);
    write_u16(out, 4);
    write_u32(out, m.flags);
    write_ident(out, TAG_PNAM);
    write_u16(out, 4);
    write_u16(out, m.priority);
    write_u16(out, m.ducking);
    write_ident(out, TAG_WNAM);
    write_u16(out, 4);
    write_u32(out, m.fade_duration);
    write_ident(out, TAG_TNAM);
    write_u16(out, 4 * (m.track_ids.len() as u16));
    let ghost pre_tracks = out@;
    let ghost tracks = m@.track_ids;
    let mut k4: usize = 0;
    proof {
        assert(tracks.take(0) =~= Seq::<u32>::empty());
        assert(out@ =~= pre_tracks + u32s_bytes(tracks.take(0)));
    }
    while k4 < m.track_ids.len()
        invariant
            k4 <= tracks.len(),
            out@ == pre_tracks + u32s_bytes(tracks.take(k4 as int)),
        decreases tracks.len() - k4,
    {
        write_u32(out, m.track_ids[k4]);
        k4 = k4 + 1;
        proof {
            assert(tracks.take(k4 as int) =~= tracks.take(k4 - 1).push(tracks[k4 - 1]));
            lemma_u32s_bytes_snoc(tracks.take(k4 - 1), tracks[k4 - 1]);
            assert(out@ =~= pre_tracks + u32s_bytes(tracks.take(k4 as int)));
        }
    }
    proof {
        assert(tracks.take(tracks.len() as int) =~= tracks);
        assert(out@ =~= old(out)@ + musc_record_bytes(m@));
    }
}

/// Encode one plugin. The output is exactly `wire::spec_encode` of the
/// plugin's model: every length field recomputed, the override array only
/// when overrides exist (escaped when longer than the 16-bit length field
/// carries), the music group only when records exist.
#[verifier::rlimit(100)]
#[verifier::loop_isolation(false)]
pub fn write_plugin(p: &Plugin) -> (out: Vec<u8>)
    requires
        encodable(p@),
    ensures
        out@ == spec_encode(p@),
{
    proof {
        vstd::bytes::lemma_auto_spec_u16_to_from_le_bytes();
        vstd::bytes::lemma_auto_spec_u32_to_from_le_bytes();
    }
    let mut out: Vec<u8> = Vec::new();
    write_ident(&mut out, TAG_TES4);
    let hs = header_size(p);
    write_u16(&mut out, hs as u16);
    // The 18 reserved bytes every plugin file carries after the size field.
    let mut i: usize = 0;
    while i < 18
        invariant
            i <= 18,
            out@ == spec_u32_to_le_bytes(TAG_TES4) + spec_u16_to_le_bytes(
                header_size_val(p@) as u16,
            ) + reserved_prefix().subrange(0, i as int),
        decreases 18 - i,
    {
        if i == 14 {
            out.push(0x2C);
        } else {
            out.push(0x00);
        }
        i = i + 1;
        proof {
            assert(out@ =~= spec_u32_to_le_bytes(TAG_TES4) + spec_u16_to_le_bytes(
                header_size_val(p@) as u16,
            ) + reserved_prefix().subrange(0, i as int));
        }
    }
    proof {
        assert(reserved_prefix().subrange(0, 18) =~= reserved_prefix());
    }
    write_ident(&mut out, TAG_HEDR);
    write_u16(&mut out, 12);
    write_u32(&mut out, p.version);
    write_u32(&mut out, p.num_records);
    write_u32(&mut out, p.next_object_id);
    write_ident(&mut out, TAG_CNAM);
    write_zstring(&mut out, &p.author);
    write_ident(&mut out, TAG_SNAM);
    write_zstring(&mut out, &p.description);
    let ghost pre_masters = out@;
    let ghost ms = p@.masters;
    let mut k: usize = 0;
    proof {
        assert(ms.take(0) =~= Seq::<Seq<u8>>::empty());
        assert(out@ =~= pre_masters + masters_bytes(ms.take(0)));
    }
    while k < p.masters.len()
        invariant
            k <= ms.len(),
            out@ == pre_masters + masters_bytes(ms.take(k as int)),
        decreases ms.len() - k,
    {
        proof {
            assert(ms[k as int].len() <= 0xFFFE);
        }
        let ghost pre = out@;
        write_ident(&mut out, TAG_MAST);
        write_zstring(&mut out, &p.masters[k]);
        write_ident(&mut out, TAG_DATA);
        write_u16(&mut out, 8);
        write_zeros(&mut out, 8);
        k = k + 1;
        proof {
            assert(out@ =~= pre + master_block(ms[k - 1]));
            assert(ms.take(k as int) =~= ms.take(k - 1).push(ms[k - 1]));
            lemma_masters_bytes_snoc(ms.take(k - 1), ms[k - 1]);
            assert(out@ =~= pre_masters + masters_bytes(ms.take(k as int)));
        }
    }
    proof {
        assert(ms.take(ms.len() as int) =~= ms);
    }
    let ghost pre_onam = out@;
    if p.overrides.len() > 0 {
        let n = p.overrides.len();
        let onam_bytes: u32 = (n as u32) * 4;
        if onam_bytes > 0xFFFF {
            write_ident(&mut out, TAG_XXXX);
            write_u16(&mut out, 4);
            write_u32(&mut out, onam_bytes);
            write_ident(&mut out, TAG_ONAM);
            write_u16(&mut out, 0);
        } else {
            write_ident(&mut out, TAG_ONAM);
            write_u16(&mut out, onam_bytes as u16);
        }
        let ghost pre_ids = out@;
        let ghost ids = p@.overrides;
        let mut k2: usize = 0;
        proof {
            assert(ids.take(0) =~= Seq::<u32>::empty());
            assert(out@ =~= pre_ids + u32s_bytes(ids.take(0)));
        }
        while k2 < p.overrides.len()
            invariant
                k2 <= ids.len(),
                out@ == pre_ids + u32s_bytes(ids.take(k2 as int)),
            decreases ids.len() - k2,
        {
            write_u32(&mut out, p.overrides[k2]);
            k2 = k2 + 1;
            proof {
                assert(ids.take(k2 as int) =~= ids.take(k2 - 1).push(ids[k2 - 1]));
                lemma_u32s_bytes_snoc(ids.take(k2 - 1), ids[k2 - 1]);
                assert(out@ =~= pre_ids + u32s_bytes(ids.take(k2 as int)));
            }
        }
        proof {
            assert(ids.take(ids.len() as int) =~= ids);
            assert(out@ =~= pre_onam + onam_block(p@.overrides));
        }
    }
    proof {
        assert(out@ =~= pre_onam + onam_block(p@.overrides));
    }
    let ghost pre_group = out@;
    if p.music.len() > 0 {
        let gs = music_size(p);
        write_ident(&mut out, TAG_GRUP);
        write_u32(&mut out, gs + 24);
        write_ident(&mut out, TAG_MUSC);
        write_u32(&mut out, 0);
        write_zeros(&mut out, 8);
        let ghost pre_recs = out@;
        let ghost music = p@.music;
        let mut k3: usize = 0;
        proof {
            assert(music.take(0) =~= Seq::<crate::model::MuscView>::empty());
            assert(out@ =~= pre_recs + muscs_bytes(music.take(0)));
        }
        while k3 < p.music.len()
            invariant
                k3 <= music.len(),
                out@ == pre_recs + muscs_bytes(music.take(k3 as int)),
            decreases music.len() - k3,
        {
            proof {
                assert(music[k3 as int] == p.music@[k3 as int]@);
                assert(musc_encodable(music[k3 as int]));
            }
            write_musc_record(&mut out, &p.music[k3]);
            k3 = k3 + 1;
            proof {
                assert(music.take(k3 as int) =~= music.take(k3 - 1).push(music[k3 - 1]));
                lemma_muscs_bytes_snoc(music.take(k3 - 1), music[k3 - 1]);
                assert(out@ =~= pre_recs + muscs_bytes(music.take(k3 as int)));
            }
        }
        proof {
            assert(music.take(music.len() as int) =~= music);
            assert(out@ =~= pre_group + group_block(p@.music));
        }
    }
    proof {
        assert(out@ =~= pre_group + group_block(p@.music));
        assert(out@ =~= spec_encode(p@));
    }
    out
}

} // verus!
