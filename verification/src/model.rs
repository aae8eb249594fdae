//! In-memory representation of a plugin file: header fields, master list,
//! override list and music-track records, together with the error taxonomy
//! of the decoder.

use vstd::prelude::*;

verus! {

/// IEEE-754 bit pattern of the format version `1.7`, one of the two
/// versions the decoder accepts.
pub const VERSION_1_7: u32 = 0x3FD9_999A;

/// IEEE-754 bit pattern of the format version `0.94`, the other accepted
/// version.
pub const VERSION_0_94: u32 = 0x3F70_A3D7;

/// A structural violation of the plugin framing. Every variant is fatal to
/// the decode call that raises it.
#[derive(Debug, Clone, Copy, PartialEq, Eq, Structural)]
pub enum FormatError {
    /// The stream does not begin with the `TES4` magic.
    BadMagic,
    /// The header reports a format version other than 1.7 or 0.94.
    UnsupportedVersion,
    /// A top-level subrecord carries a tag the format does not define.
    UnknownField(u32),
    /// A record's subrecord is out of the fixed schema order: expected tag,
    /// then found tag.
    UnexpectedField(u32, u32),
    /// A group whose type field is not 0 (top level).
    UnsupportedGroup,
    /// A text field that is not valid UTF-8.
    InvalidText,
    /// The stream ended inside a structure that declared more content.
    TruncatedStream,
}

/// The 24-byte header that precedes every record body. The type tag is kept
/// as the little-endian 32-bit value of its four ASCII bytes.
#[derive(Debug, Clone, Copy, PartialEq, Eq, Structural)]
pub struct RecordHeader {
    pub record_type: u32,
    pub size: u32,
    pub flags: u32,
    pub id: u32,
    pub revision: u32,
    pub version: u16,
    pub unknown: u16,
}

/// Mathematical model of a music-track record.
#[verifier::ext_equal]
pub ghost struct MuscView {
    pub form_id: u32,
    pub editor_id: Seq<u8>,
    pub flags: u32,
    pub priority: u16,
    pub ducking: u16,
    pub fade_duration: u32,
    pub track_ids: Seq<u32>,
}

/// One music-track record. `editor_id` holds the raw bytes of the zstring
/// (the merge key); `fade_duration` holds the 32-bit pattern of the fade
/// value, carried verbatim and never interpreted by the codec.
#[derive(Debug, Clone)]
pub struct MUSC {
    pub form_id: u32,
    pub editor_id: Vec<u8>,
    pub flags: u32,
    pub priority: u16,
    pub ducking: u16,
    pub fade_duration: u32,
    pub track_ids: Vec<u32>,
}

impl View for MUSC {
    type V = MuscView;

    open spec fn view(&self) -> MuscView {
        MuscView {
            form_id: self.form_id,
            editor_id: self.editor_id@,
            flags: self.flags,
            priority: self.priority,
            ducking: self.ducking,
            fade_duration: self.fade_duration,
            track_ids: self.track_ids@,
        }
    }
}

/// Mathematical model of a whole plugin.
#[verifier::ext_equal]
pub ghost struct PluginView {
    pub name: Seq<u8>,
    pub version: u32,
    pub num_records: u32,
    pub next_object_id: u32,
    pub author: Seq<u8>,
    pub description: Seq<u8>,
    pub masters: Seq<Seq<u8>>,
    pub overrides: Seq<u32>,
    pub intv: u32,
    pub incc: u32,
    pub music: Seq<MuscView>,
}

/// One plugin file. `version` holds the 32-bit pattern of the header's
/// version field and `num_records` the raw 32-bit value of its (signed)
/// record count; the codec carries both verbatim. Text fields keep the raw
/// zstring bytes. `name` is the file name the caller read the plugin from;
/// the decoder itself leaves it empty.
#[derive(Debug, Clone)]
pub struct Plugin {
    pub name: Vec<u8>,
    pub version: u32,
    pub num_records: u32,
    pub next_object_id: u32,
    pub author: Vec<u8>,
    pub description: Vec<u8>,
    pub masters: Vec<Vec<u8>>,
    pub overrides: Vec<u32>,
    pub intv: u32,
    pub incc: u32,
    pub music: Vec<MUSC>,
}

impl View for Plugin {
    type V = PluginView;

    open spec fn view(&self) -> PluginView {
        PluginView {
            name: self.name@,
            version: self.version,
            num_records: self.num_records,
            next_object_id: self.next_object_id,
            author: self.author@,
            description: self.description@,
            masters: self.masters@.map_values(|v: Vec<u8>| v@),
            overrides: self.overrides@,
            intv: self.intv,
            incc: self.incc,
            music: self.music@.map_values(|m: MUSC| m@),
        }
    }
}

/// The model of a plugin with no masters, no overrides, no records and all
/// scalar fields zero.
pub open spec fn empty_plugin() -> PluginView {
    PluginView {
        name: Seq::<u8>::empty(),
        version: 0u32,
        num_records: 0u32,
        next_object_id: 0u32,
        author: Seq::<u8>::empty(),
        description: Seq::<u8>::empty(),
        masters: Seq::<Seq<u8>>::empty(),
        overrides: Seq::<u32>::empty(),
        intv: 0u32,
        incc: 0u32,
        music: Seq::<MuscView>::empty(),
    }
}

impl Plugin {
    /// The empty plugin every decode and every merge starts from.
    pub fn new() -> (p: Plugin)
        ensures
            p@ == empty_plugin(),
    {
        let p = Plugin {
            name: Vec::new(),
            version: 0,
            num_records: 0,
            next_object_id: 0,
            author: Vec::new(),
            description: Vec::new(),
            masters: Vec::new(),
            overrides: Vec::new(),
            intv: 0,
            incc: 0,
            music: Vec::new(),
        };
        proof {
            assert(p.masters@.map_values(|v: Vec<u8>| v@) =~= Seq::<Seq<u8>>::empty());
            assert(p.music@.map_values(|m: MUSC| m@) =~= Seq::<MuscView>::empty());
        }
        p
    }
}

} // verus!
