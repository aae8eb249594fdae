//! The decoder: one sequential pass over an in-memory byte stream, with no
//! backtracking. `parse` is proved to return exactly what the wire spec
//! (`wire::spec_parse`) assigns to the stream — the same plugin on success
//! and the same error on failure.

use vstd::prelude::*;

use crate::model::{FormatError, MuscView, Plugin, PluginView, MUSC};
use crate::model::{VERSION_0_94, VERSION_1_7};
use crate::reader::{parse_record_header, read_ident, read_u16, read_u32, read_zstring, skip};
use crate::wire::{
    le32_at, lemma_record_advances, lemma_zstring_advances, remaining_of, spec_parse,
    spec_parse_after_group, spec_parse_fields, spec_parse_groups, spec_parse_records,
    spec_record_at, u32s_at,
};
use crate::wire::{
    TAG_CNAM, TAG_EDID, TAG_FNAM, TAG_GRUP, TAG_HEDR, TAG_INCC, TAG_INTV, TAG_MAST, TAG_MUSC,
    TAG_ONAM, TAG_PNAM, TAG_SNAM, TAG_TES4, TAG_TNAM, TAG_WNAM, TAG_XXXX,
};

verus! {

/// The pending length escape: the true length read from an `XXXX`
/// subrecord, waiting to replace the next declared length.
pub open spec fn xstate(active: bool, xlen: u32) -> Option<u32> {
    if active {
        Some(xlen)
    } else {
        None
    }
}

/// `cnt` consecutive 32-bit little-endian values.
fn read_u32_array(data: &Vec<u8>, pos: &mut usize, cnt: u32) -> (r: Result<Vec<u32>, FormatError>)
    requires
        *old(pos) <= data@.len(),
    ensures
        *final(pos) <= data@.len(),
        match r {
            Ok(v) => {
                &&& *old(pos) + 4 * cnt <= data@.len()
                &&& *final(pos) == *old(pos) + 4 * cnt
                &&& v@ == u32s_at(data@, *old(pos) as int, cnt as int)
            },
            Err(e) => {
                &&& e == FormatError::TruncatedStream
                &&& *old(pos) + 4 * cnt > data@.len()
            },
        },
{
    let ghost start = *pos as int;
    let mut v: Vec<u32> = Vec::new();
    let mut k: u32 = 0;
    while k < cnt
        invariant
            *old(pos) <= data@.len(),
            start == *old(pos) as int,
            *pos as int == start + 4 * k,
            *pos <= data@.len(),
            k <= cnt,
            v@ == u32s_at(data@, start, k as int),
        decreases cnt - k,
    {
        match read_u32(data, pos) {
            Ok(x) => {
                v.push(x);
            },
            Err(e) => {
                return Err(e);
            },
        }
        k = k + 1;
        proof {
            assert(v@ =~= u32s_at(data@, start, k as int));
        }
    }
    Ok(v)
}

/// One music record, as `wire::spec_record_at` lays it out at the current
/// position.
fn parse_music_record(data: &Vec<u8>, pos: &mut usize) -> (r: Result<MUSC, FormatError>)
    requires
        *old(pos) <= data@.len(),
    ensures
        *final(pos) <= data@.len(),
        match r {
            Ok(m) => spec_record_at(data@, *old(pos) as int) == Ok::<_, FormatError>((
                m@,
                *final(pos) as int,
            )),
            Err(e) => spec_record_at(data@, *old(pos) as int) == Err::<(MuscView, int), _>(e),
        },
{
    let hdr = match parse_record_header(data, pos) {
        Ok(h) => h,
        Err(e) => {
            return Err(e);
        },
    };
    let t_edid = match read_ident(data, pos) {
        Ok(t) => t,
        Err(e) => {
            return Err(e);
        },
    };
    if t_edid != TAG_EDID {
        return Err(FormatError::UnexpectedField(TAG_EDID, t_edid));
    }
    let edid_len = match read_u16(data, pos) {
        Ok(v) => v,
        Err(e) => {
            return Err(e);
        },
    };
    let editor_id = match read_zstring(data, pos, edid_len as u32) {
        Ok(v) => v,
        Err(e) => {
            return Err(e);
        },
    };
    let t_fnam = match read_ident(data, pos) {
        Ok(t) => t,
        Err(e) => {
            return Err(e);
        },
    };
    if t_fnam != TAG_FNAM {
        return Err(FormatError::UnexpectedField(TAG_FNAM, t_fnam));
    }
    let _fnam_len = match read_u16(data, pos) {
        Ok(v) => v,
        Err(e) => {
            return Err(e);
        },
    };
    let flags = match read_u32(data, pos) {
        Ok(v) => v,
        Err(e) => {
            return Err(e);
        },
    };
    let t_pnam = match read_ident(data, pos) {
        Ok(t) => t,
        Err(e) => {
            return Err(e);
        },
    };
    if t_pnam != TAG_PNAM {
        return Err(FormatError::UnexpectedField(TAG_PNAM, t_pnam));
    }
    let _pnam_len = match read_u16(data, pos) {
        Ok(v) => v,
        Err(e) => {
            return Err(e);
        },
    };
    let priority = match read_u16(data, pos) {
        Ok(v) => v,
        Err(e) => {
            return Err(e);
        },
    };
    let ducking = match read_u16(data, pos) {
        Ok(v) => v,
        Err(e) => {
            return Err(e);
        },
    };
    let t_wnam = match read_ident(data, pos) {
        Ok(t) => t,
        Err(e) => {
            return Err(e);
        },
    };
    if t_wnam != TAG_WNAM {
        return Err(FormatError::UnexpectedField(TAG_WNAM, t_wnam));
    }
    let _wnam_len = match read_u16(data, pos) {
        Ok(v) => v,
        Err(e) => {
            return Err(e);
        },
    };
    let fade_duration = match read_u32(data, pos) {
        Ok(v) => v,
        Err(e) => {
            return Err(e);
        },
    };
    let t_tnam = match read_ident(data, pos) {
        Ok(t) => t,
        Err(e) => {
            return Err(e);
        },
    };
    if t_tnam != TAG_TNAM {
        return Err(FormatError::UnexpectedField(TAG_TNAM, t_tnam));
    }
    let tnam_len = match read_u16(data, pos) {
        Ok(v) => v,
        Err(e) => {
            return Err(e);
        },
    };
    let track_ids = match read_u32_array(data, pos, (tnam_len as u32) / 4) {
        Ok(v) => v,
        Err(e) => {
            return Err(e);
        },
    };
    Ok(
        MUSC {
            form_id: hdr.id,
            editor_id,
            flags,
            priority,
            ducking,
            fade_duration,
            track_ids,
        },
    )
}

/// The group phase: the position stands just past a `GRUP` tag. Parses
/// group after group, collecting music records and skipping every group
/// with another label, until the stream ends or a non-group tag appears.
#[verifier::rlimit(60)]
#[verifier::loop_isolation(false)]
fn parse_groups_from(data: &Vec<u8>, pos: &mut usize, p_in: Plugin) -> (r: Result<
    Plugin,
    FormatError,
>)
    requires
        *old(pos) <= data@.len(),
    ensures
        match r {
            Ok(p) => spec_parse_groups(data@, *old(pos) as int, p_in@) == Ok::<_, FormatError>(p@),
            Err(e) => spec_parse_groups(data@, *old(pos) as int, p_in@) == Err::<PluginView, _>(e),
        },
{
    let ghost target = spec_parse_groups(data@, *old(pos) as int, p_in@);
    let mut plugin = p_in;
    loop
        invariant
            *pos <= data@.len(),
            spec_parse_groups(data@, *pos as int, plugin@) == target,
        decreases data@.len() - *pos,
    {
        let ghost i0 = *pos as int;
        let ghost p0 = plugin@;
        let total = match read_u32(data, pos) {
            Ok(v) => v,
            Err(e) => {
                proof {
                    assert(i0 + 20 > data@.len());
                    assert(target == Err::<PluginView, FormatError>(e));
                }
                return Err(e);
            },
        };
        let label = match read_u32(data, pos) {
            Ok(v) => v,
            Err(e) => {
                proof {
                    assert(i0 + 20 > data@.len());
                    assert(target == Err::<PluginView, FormatError>(e));
                }
                return Err(e);
            },
        };
        let gtype = match read_u32(data, pos) {
            Ok(v) => v,
            Err(e) => {
                proof {
                    assert(i0 + 20 > data@.len());
                    assert(target == Err::<PluginView, FormatError>(e));
                }
                return Err(e);
            },
        };
        match skip(data, pos, 8) {
            Ok(()) => {},
            Err(e) => {
                proof {
                    assert(i0 + 20 > data@.len());
                    assert(target == Err::<PluginView, FormatError>(e));
                }
                return Err(e);
            },
        }
        proof {
            assert(i0 + 20 <= data@.len());
            assert(total == le32_at(data@, i0));
            assert(label == le32_at(data@, i0 + 4));
            assert(gtype == le32_at(data@, i0 + 8));
        }
        if gtype != 0 {
            proof {
                assert(target == Err::<PluginView, FormatError>(FormatError::UnsupportedGroup));
            }
            return Err(FormatError::UnsupportedGroup);
        }
        if total < 24 {
            proof {
                assert(target == Err::<PluginView, FormatError>(FormatError::TruncatedStream));
            }
            return Err(FormatError::TruncatedStream);
        }
        let content = total - 24;
        if label == TAG_MUSC {
            let ghost rec_target = spec_parse_records(
                data@,
                *pos as int,
                content as int,
                plugin@.music,
            );
            let start_pos: usize = *pos;
            while *pos - start_pos < content as usize
                invariant
                    start_pos <= *pos <= data@.len(),
                    start_pos == i0 + 20,
                    plugin@ == (PluginView {
                        music: plugin@.music,
                        ..p0
                    }),
                    spec_parse_records(
                        data@,
                        *pos as int,
                        content as int - (*pos - start_pos) as int,
                        plugin@.music,
                    ) == rec_target,
                decreases remaining_of(content as int, (*pos - start_pos) as int),
            {
                let ghost rpos = *pos as int;
                let ghost rem = content as int - (*pos - start_pos) as int;
                let ghost music0 = plugin@.music;
                match parse_music_record(data, pos) {
                    Ok(m) => {
                        proof {
                            lemma_record_advances(data@, rpos);
                        }
                        plugin.music.push(m);
                        proof {
                            assert(plugin@.music =~= music0.push(m@));
                            // The spec recursion floors its remainder at
                            // zero; when the record overshoots the declared
                            // length both remainders are at or below zero
                            // and the recursion stops either way.
                            let used = *pos as int - rpos;
                            let rem2 = if rem - used > 0 {
                                rem - used
                            } else {
                                0
                            };
                            assert(spec_parse_records(
                                data@,
                                *pos as int,
                                rem2,
                                plugin@.music,
                            ) == rec_target);
                            assert(spec_parse_records(
                                data@,
                                *pos as int,
                                content as int - (*pos - start_pos) as int,
                                plugin@.music,
                            ) == rec_target);
                        }
                    },
                    Err(e) => {
                        proof {
                            assert(rec_target == Err::<(Seq<MuscView>, int), FormatError>(e));
                            assert(target == Err::<PluginView, FormatError>(e));
                        }
                        return Err(e);
                    },
                }
            }
            proof {
                assert(rec_target == Ok::<_, FormatError>((plugin@.music, *pos as int)));
                assert(plugin@ =~= (PluginView { music: plugin@.music, ..p0 }));
                assert(spec_parse_after_group(data@, *pos as int, plugin@) == target);
            }
        } else {
            match skip(data, pos, content as usize) {
                Ok(()) => {},
                Err(e) => {
                    proof {
                        assert(i0 + 20 + (content as int) > data@.len());
                        assert(target == Err::<PluginView, FormatError>(e));
                    }
                    return Err(e);
                },
            }
            proof {
                assert(spec_parse_after_group(data@, *pos as int, plugin@) == target);
            }
        }
        let ghost g0 = *pos as int;
        if *pos == data.len() {
            proof {
                assert(target == Ok::<PluginView, FormatError>(plugin@));
            }
            return Ok(plugin);
        }
        let tag = match read_ident(data, pos) {
            Ok(t) => t,
            Err(e) => {
                proof {
                    assert(g0 + 4 > data@.len());
                    assert(target == Err::<PluginView, FormatError>(e));
                }
                return Err(e);
            },
        };
        if tag != TAG_GRUP {
            proof {
                assert(target == Ok::<PluginView, FormatError>(plugin@));
            }
            return Ok(plugin);
        }
        proof {
            assert(spec_parse_groups(data@, *pos as int, plugin@) == target);
        }
    }
}

/// Decode one plugin file. The result is exactly `wire::spec_parse` of the
/// stream: the same plugin model on success (its `name` left empty for the
/// caller to fill in) and the same error on the same malformed input.
#[verifier::rlimit(60)]
#[verifier::loop_isolation(false)]
pub fn parse(data: &Vec<u8>) -> (r: Result<Plugin, FormatError>)
    ensures
        match r {
            Ok(p) => spec_parse(data@) == Ok::<PluginView, FormatError>(p@),
            Err(e) => spec_parse(data@) == Err::<PluginView, FormatError>(e),
        },
{
    let mut pos: usize = 0;
    let mut plugin = Plugin::new();
    let magic = match read_ident(data, &mut pos) {
        Ok(t) => t,
        Err(e) => {
            return Err(e);
        },
    };
    if magic != TAG_TES4 {
        return Err(FormatError::BadMagic);
    }
    match skip(data, &mut pos, 20) {
        Ok(()) => {},
        Err(e) => {
            return Err(e);
        },
    }
    let hedr = match read_ident(data, &mut pos) {
        Ok(t) => t,
        Err(e) => {
            return Err(e);
        },
    };
    if hedr != TAG_HEDR {
        return Err(FormatError::UnexpectedField(TAG_HEDR, hedr));
    }
    // The declared header length is nominally 12; a mismatch is not fatal.
    let _hedr_len = match read_u16(data, &mut pos) {
        Ok(v) => v,
        Err(e) => {
            return Err(e);
        },
    };
    let version = match read_u32(data, &mut pos) {
        Ok(v) => v,
        Err(e) => {
            return Err(e);
        },
    };
    let num_records = match read_u32(data, &mut pos) {
        Ok(v) => v,
        Err(e) => {
            return Err(e);
        },
    };
    let next_object_id = match read_u32(data, &mut pos) {
        Ok(v) => v,
        Err(e) => {
            return Err(e);
        },
    };
    plugin.version = version;
    plugin.num_records = num_records;
    plugin.next_object_id = next_object_id;
    if version != VERSION_1_7 && version != VERSION_0_94 {
        return Err(FormatError::UnsupportedVersion);
    }
    let mut xxxx = false;
    let mut x_len: u32 = 0;
    loop
        invariant
            pos <= data@.len(),
            spec_parse(data@) == spec_parse_fields(
                data@,
                pos as int,
                plugin@,
                xstate(xxxx, x_len),
            ),
        decreases data@.len() - pos,
    {
        if pos == data.len() {
            return Ok(plugin);
        }
        let ghost i0 = pos as int;
        let ghost p0 = plugin@;
        let ghost x0 = xstate(xxxx, x_len);
        let tag = match read_ident(data, &mut pos) {
            Ok(t) => t,
            Err(e) => {
                return Err(e);
            },
        };
        if tag == TAG_GRUP {
            let r = parse_groups_from(data, &mut pos, plugin);
            return r;
        }
        let declared = match read_u16(data, &mut pos) {
            Ok(v) => v,
            Err(e) => {
                return Err(e);
            },
        };
        let len: u32 = if xxxx {
            x_len
        } else {
            declared as u32
        };
        xxxx = false;
        let ghost j = i0 + 6;
        if tag == TAG_MAST {
            let name = match read_zstring(data, &mut pos, len) {
                Ok(v) => v,
                Err(e) => {
                    return Err(e);
                },
            };
            proof {
                lemma_zstring_advances(data@, j, len);
            }
            match skip(data, &mut pos, 14) {
                Ok(()) => {},
                Err(e) => {
                    return Err(e);
                },
            }
            plugin.masters.push(name);
            proof {
                assert(plugin@.masters =~= p0.masters.push(name@));
            }
        } else if tag == TAG_XXXX {
            let xl = match read_u32(data, &mut pos) {
                Ok(v) => v,
                Err(e) => {
                    return Err(e);
                },
            };
            xxxx = true;
            x_len = xl;
        } else if tag == TAG_CNAM {
            let a = match read_zstring(data, &mut pos, len) {
                Ok(v) => v,
                Err(e) => {
                    return Err(e);
                },
            };
            proof {
                lemma_zstring_advances(data@, j, len);
            }
            plugin.author = a;
        } else if tag == TAG_SNAM {
            let d = match read_zstring(data, &mut pos, len) {
                Ok(v) => v,
                Err(e) => {
                    return Err(e);
                },
            };
            proof {
                lemma_zstring_advances(data@, j, len);
            }
            plugin.description = d;
        } else if tag == TAG_INTV {
            let v = match read_u32(data, &mut pos) {
                Ok(v) => v,
                Err(e) => {
                    return Err(e);
                },
            };
            plugin.intv = v;
        } else if tag == TAG_INCC {
            let v = match read_u32(data, &mut pos) {
                Ok(v) => v,
                Err(e) => {
                    return Err(e);
                },
            };
            plugin.incc = v;
        } else if tag == TAG_ONAM {
            let mut arr = match read_u32_array(data, &mut pos, len / 4) {
                Ok(v) => v,
                Err(e) => {
                    return Err(e);
                },
            };
            let ghost arr0 = arr@;
            plugin.overrides.append(&mut arr);
            proof {
                assert(plugin@.overrides =~= p0.overrides + arr0);
            }
        } else {
            return Err(FormatError::UnknownField(tag));
        }
    }
}

} // verus!
