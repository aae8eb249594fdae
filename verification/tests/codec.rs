use esmerge::model::{FormatError, Plugin, MUSC, VERSION_0_94, VERSION_1_7};
use esmerge::parser::parse;
use esmerge::reader::read_zstring;
use esmerge::writer::{plugin_encodable, write_plugin};

fn tag(t: &[u8; 4]) -> u32 {
    u32::from_le_bytes(*t)
}

fn put_u16(out: &mut Vec<u8>, v: u16) {
    out.extend_from_slice(&v.to_le_bytes());
}

fn put_u32(out: &mut Vec<u8>, v: u32) {
    out.extend_from_slice(&v.to_le_bytes());
}

fn put_tag(out: &mut Vec<u8>, t: &[u8; 4]) {
    out.extend_from_slice(t);
}

/// The file prefix every test stream starts from: magic, reserved bytes
/// and a `HEDR` carrying the given version.
fn header(version: f32) -> Vec<u8> {
    let mut v = Vec::new();
    put_tag(&mut v, b"TES4");
    put_u16(&mut v, 0);
    v.extend_from_slice(&[0u8; 18]);
    put_tag(&mut v, b"HEDR");
    put_u16(&mut v, 12);
    v.extend_from_slice(&version.to_le_bytes());
    put_u32(&mut v, 7); // record count
    put_u32(&mut v, 0x0800); // next object id
    v
}

fn put_zstring_subrecord(out: &mut Vec<u8>, t: &[u8; 4], text: &[u8]) {
    put_tag(out, t);
    put_u16(out, (text.len() + 1) as u16);
    out.extend_from_slice(text);
    out.push(0);
}

/// One complete music record with the fixed subrecord schema.
fn put_musc_record(out: &mut Vec<u8>, form_id: u32, edid: &[u8], tracks: &[u32]) {
    put_tag(out, b"MUSC");
    put_u32(out, 43 + edid.len() as u32 + 4 * tracks.len() as u32);
    put_u32(out, 0);
    put_u32(out, form_id);
    put_u32(out, 0);
    put_u16(out, 0);
    put_u16(out, 0);
    put_zstring_subrecord(out, b"EDID", edid);
    put_tag(out, b"FNAM");
    put_u16(out, 4);
    put_u32(out, 0x11);
    put_tag(out, b"PNAM");
    put_u16(out, 4);
    put_u16(out, 50);
    put_u16(out, 20);
    put_tag(out, b"WNAM");
    put_u16(out, 4);
    out.extend_from_slice(&1.5f32.to_le_bytes());
    put_tag(out, b"TNAM");
    put_u16(out, 4 * tracks.len() as u16);
    for t in tracks {
        put_u32(out, *t);
    }
}

/// A music group holding the given records.
fn put_musc_group(out: &mut Vec<u8>, records: &[(u32, &[u8], Vec<u32>)]) {
    let mut body: Vec<u8> = Vec::new();
    for (fid, edid, tracks) in records {
        put_musc_record(&mut body, *fid, edid, tracks);
    }
    put_tag(out, b"GRUP");
    put_u32(out, body.len() as u32 + 24);
    put_tag(out, b"MUSC");
    put_u32(out, 0);
    out.extend_from_slice(&[0u8; 8]);
    out.extend_from_slice(&body);
}

#[test]
fn parses_header_fields() {
    let mut v = header(1.7);
    put_zstring_subrecord(&mut v, b"CNAM", b"Someone");
    put_zstring_subrecord(&mut v, b"SNAM", b"A plugin");
    let p = parse(&v).unwrap();
    assert_eq!(p.version, VERSION_1_7);
    assert_eq!(p.num_records, 7);
    assert_eq!(p.next_object_id, 0x0800);
    assert_eq!(p.author, b"Someone".to_vec());
    assert_eq!(p.description, b"A plugin".to_vec());
    assert!(p.masters.is_empty());
    assert!(p.music.is_empty());
}

#[test]
fn accepts_version_0_94() {
    let v = header(0.94);
    let p = parse(&v).unwrap();
    assert_eq!(p.version, VERSION_0_94);
}

#[test]
fn rejects_bad_magic() {
    let mut v = header(1.7);
    v[0] = b'X';
    assert_eq!(parse(&v).unwrap_err(), FormatError::BadMagic);
}

#[test]
fn rejects_unsupported_version() {
    let v = header(2.0);
    assert_eq!(parse(&v).unwrap_err(), FormatError::UnsupportedVersion);
}

#[test]
fn rejects_unknown_field() {
    let mut v = header(1.7);
    put_tag(&mut v, b"ZZZZ");
    put_u16(&mut v, 0);
    assert_eq!(parse(&v).unwrap_err(), FormatError::UnknownField(tag(b"ZZZZ")));
}

#[test]
fn rejects_wrong_record_schema_order() {
    let mut v = header(1.7);
    let mut body: Vec<u8> = Vec::new();
    // A record header followed by FNAM where EDID must stand.
    put_tag(&mut body, b"MUSC");
    put_u32(&mut body, 10);
    put_u32(&mut body, 0);
    put_u32(&mut body, 1);
    put_u32(&mut body, 0);
    put_u16(&mut body, 0);
    put_u16(&mut body, 0);
    put_tag(&mut body, b"FNAM");
    put_u16(&mut body, 4);
    put_u32(&mut body, 0);
    put_tag(&mut v, b"GRUP");
    put_u32(&mut v, body.len() as u32 + 24);
    put_tag(&mut v, b"MUSC");
    put_u32(&mut v, 0);
    v.extend_from_slice(&[0u8; 8]);
    v.extend_from_slice(&body);
    assert_eq!(
        parse(&v).unwrap_err(),
        FormatError::UnexpectedField(tag(b"EDID"), tag(b"FNAM"))
    );
}

#[test]
fn rejects_non_top_level_group() {
    let mut v = header(1.7);
    put_tag(&mut v, b"GRUP");
    put_u32(&mut v, 24);
    put_tag(&mut v, b"MUSC");
    put_u32(&mut v, 1); // group type must be 0
    v.extend_from_slice(&[0u8; 8]);
    assert_eq!(parse(&v).unwrap_err(), FormatError::UnsupportedGroup);
}

#[test]
fn rejects_invalid_text() {
    let mut v = header(1.7);
    put_tag(&mut v, b"CNAM");
    put_u16(&mut v, 3);
    v.push(0xFF);
    v.push(0xFE);
    v.push(0);
    assert_eq!(parse(&v).unwrap_err(), FormatError::InvalidText);
}

#[test]
fn rejects_truncated_stream() {
    let mut v = header(1.7);
    v.truncate(30);
    assert_eq!(parse(&v).unwrap_err(), FormatError::TruncatedStream);
    let short = vec![b'T', b'E'];
    assert_eq!(parse(&short).unwrap_err(), FormatError::TruncatedStream);
}

#[test]
fn zstring_declared_zero_reads_until_terminator() {
    // Declared length 0: the reader scans to the first zero byte; with the
    // terminator first, the text is empty.
    let data = vec![0u8, 9, 9];
    let mut pos = 0usize;
    let s = read_zstring(&data, &mut pos, 0).unwrap();
    assert!(s.is_empty());
    assert_eq!(pos, 1);
    // And with content before the terminator it is that content.
    let data2 = vec![b'h', b'i', 0u8, 9];
    let mut pos2 = 0usize;
    let s2 = read_zstring(&data2, &mut pos2, 0).unwrap();
    assert_eq!(s2, b"hi".to_vec());
    assert_eq!(pos2, 3);
}

#[test]
fn zstring_declared_one_is_empty() {
    // Declared length 1 frames no text: exactly the terminator byte.
    let data = vec![0u8, 9, 9];
    let mut pos = 0usize;
    let s = read_zstring(&data, &mut pos, 1).unwrap();
    assert!(s.is_empty());
    assert_eq!(pos, 1);
}

#[test]
fn zstring_boundaries_through_parse() {
    let mut v = header(1.7);
    // CNAM with declared length 1: empty author.
    put_tag(&mut v, b"CNAM");
    put_u16(&mut v, 1);
    v.push(0);
    let p = parse(&v).unwrap();
    assert_eq!(p.author, Vec::<u8>::new());
}

#[test]
fn length_escape_delivers_true_length() {
    // 70000 bytes of text cannot be declared in 16 bits: an XXXX subrecord
    // carries the true length and the target's declared length is zero.
    let n: usize = 70000;
    let mut v = header(1.7);
    put_tag(&mut v, b"XXXX");
    put_u16(&mut v, 4);
    put_u32(&mut v, (n + 1) as u32);
    put_tag(&mut v, b"SNAM");
    put_u16(&mut v, 0);
    for _ in 0..n {
        v.push(b'a');
    }
    v.push(0);
    let p = parse(&v).unwrap();
    assert_eq!(p.description.len(), n);
    assert!(p.description.iter().all(|b| *b == b'a'));
}

#[test]
fn unknown_group_is_skipped_to_next_group() {
    let mut v = header(1.7);
    put_musc_group(&mut v, &[(1, b"First", vec![10])]);
    // A group with a foreign label: 5 bytes of opaque content.
    put_tag(&mut v, b"GRUP");
    put_u32(&mut v, 24 + 5);
    put_tag(&mut v, b"WRLD");
    put_u32(&mut v, 0);
    v.extend_from_slice(&[0u8; 8]);
    v.extend_from_slice(&[7, 7, 7, 7, 7]);
    put_musc_group(&mut v, &[(2, b"Second", vec![20, 21])]);
    let p = parse(&v).unwrap();
    assert_eq!(p.music.len(), 2);
    assert_eq!(p.music[0].editor_id, b"First".to_vec());
    assert_eq!(p.music[1].editor_id, b"Second".to_vec());
    assert_eq!(p.music[1].track_ids, vec![20, 21]);
}

#[test]
fn parses_masters_and_overrides() {
    let mut v = header(1.7);
    put_zstring_subrecord(&mut v, b"MAST", b"Skyrim.esm");
    // The fixed 14-byte trailer after each master.
    put_tag(&mut v, b"DATA");
    put_u16(&mut v, 8);
    v.extend_from_slice(&[0u8; 8]);
    put_tag(&mut v, b"INTV");
    put_u16(&mut v, 4);
    put_u32(&mut v, 0xABCD);
    put_tag(&mut v, b"ONAM");
    put_u16(&mut v, 8);
    put_u32(&mut v, 0x100);
    put_u32(&mut v, 0x200);
    let p = parse(&v).unwrap();
    assert_eq!(p.masters, vec![b"Skyrim.esm".to_vec()]);
    assert_eq!(p.intv, 0xABCD);
    assert_eq!(p.overrides, vec![0x100, 0x200]);
}

#[test]
fn parses_music_records() {
    let mut v = header(1.7);
    put_musc_group(&mut v, &[(0x0903, b"MyTrack", vec![1, 2, 3])]);
    let p = parse(&v).unwrap();
    assert_eq!(p.music.len(), 1);
    let m = &p.music[0];
    assert_eq!(m.form_id, 0x0903);
    assert_eq!(m.editor_id, b"MyTrack".to_vec());
    assert_eq!(m.flags, 0x11);
    assert_eq!(m.priority, 50);
    assert_eq!(m.ducking, 20);
    assert_eq!(m.fade_duration, u32::from_le_bytes(1.5f32.to_le_bytes()));
    assert_eq!(m.track_ids, vec![1, 2, 3]);
}

fn sample_plugin() -> Plugin {
    let mut p = Plugin::new();
    p.version = VERSION_1_7;
    p.num_records = 3;
    p.next_object_id = 0x1000;
    p.author = b"Author".to_vec();
    p.description = b"Description".to_vec();
    p.masters = vec![b"Skyrim.esm".to_vec(), b"Update.esm".to_vec()];
    p.overrides = vec![0xA, 0xB, 0xC];
    p.music = vec![
        MUSC {
            form_id: 0x10,
            editor_id: b"TrackOne".to_vec(),
            flags: 1,
            priority: 2,
            ducking: 3,
            fade_duration: u32::from_le_bytes(0.25f32.to_le_bytes()),
            track_ids: vec![5, 6],
        },
        MUSC {
            form_id: 0x11,
            editor_id: b"TrackTwo".to_vec(),
            flags: 0,
            priority: 9,
            ducking: 8,
            fade_duration: 0,
            track_ids: vec![],
        },
    ];
    p
}

#[test]
fn round_trip_reproduces_plugin() {
    let p = sample_plugin();
    assert!(plugin_encodable(&p));
    let bytes = write_plugin(&p);
    assert_eq!(&bytes[0..4], b"TES4");
    let q = parse(&bytes).unwrap();
    assert_eq!(q.version, p.version);
    assert_eq!(q.num_records, p.num_records);
    assert_eq!(q.next_object_id, p.next_object_id);
    assert_eq!(q.author, p.author);
    assert_eq!(q.description, p.description);
    assert_eq!(q.masters, p.masters);
    assert_eq!(q.overrides, p.overrides);
    assert_eq!(q.music.len(), p.music.len());
    for (a, b) in q.music.iter().zip(p.music.iter()) {
        assert_eq!(a.form_id, b.form_id);
        assert_eq!(a.editor_id, b.editor_id);
        assert_eq!(a.flags, b.flags);
        assert_eq!(a.priority, b.priority);
        assert_eq!(a.ducking, b.ducking);
        assert_eq!(a.fade_duration, b.fade_duration);
        assert_eq!(a.track_ids, b.track_ids);
    }
}

#[test]
fn round_trip_with_escaped_override_array() {
    // 17000 overrides take 68000 bytes: beyond the 16-bit length field, so
    // the encoder applies the length escape and the decoder undoes it.
    let mut p = Plugin::new();
    p.version = VERSION_1_7;
    p.overrides = (0..17000u32).collect();
    assert!(plugin_encodable(&p));
    let bytes = write_plugin(&p);
    let q = parse(&bytes).unwrap();
    assert_eq!(q.overrides, p.overrides);
}

#[test]
fn encodable_rejects_oversized_fields() {
    let mut p = Plugin::new();
    p.author = vec![b'a'; 0xFFFF];
    assert!(!plugin_encodable(&p));
    let mut p2 = Plugin::new();
    p2.music = vec![MUSC {
        form_id: 0,
        editor_id: b"X".to_vec(),
        flags: 0,
        priority: 0,
        ducking: 0,
        fade_duration: 0,
        track_ids: vec![0; 0x4000],
    }];
    assert!(!plugin_encodable(&p2));
}
