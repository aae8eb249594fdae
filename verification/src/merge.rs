//! The merge: walks already-decoded plugins in load order, accumulates
//! their master lists (deduplicated, first-seen order) and unions their
//! music records keyed by editor id, into one output plugin.

use vstd::prelude::*;
use vstd::slice::slice_to_vec;

use crate::model::{MuscView, Plugin, PluginView, MUSC};
use crate::model::{empty_plugin, VERSION_1_7};

verus! {

/// Append `x` unless it is already present.
pub open spec fn push_unique<T>(s: Seq<T>, x: T) -> Seq<T> {
    if s.contains(x) {
        s
    } else {
        s.push(x)
    }
}

/// Fold every entry of `ms` into `acc`, deduplicated, first-seen order
/// kept.
pub open spec fn add_masters(acc: Seq<Seq<u8>>, ms: Seq<Seq<u8>>) -> Seq<Seq<u8>>
    decreases ms.len(),
{
    if ms.len() == 0 {
        acc
    } else {
        add_masters(push_unique(acc, ms[0]), ms.drop_first())
    }
}

/// Union the ids of `b` into `a`, skipping ids already present, first-seen
/// order kept.
pub open spec fn union_tracks(a: Seq<u32>, b: Seq<u32>) -> Seq<u32>
    decreases b.len(),
{
    if b.len() == 0 {
        a
    } else {
        union_tracks(push_unique(a, b[0]), b.drop_first())
    }
}

/// `i` is the position of the first record of `music` that carries this
/// editor id.
pub open spec fn is_first_musc(music: Seq<MuscView>, edid: Seq<u8>, i: int) -> bool {
    &&& 0 <= i < music.len()
    &&& music[i].editor_id == edid
    &&& forall|j: int| 0 <= j < i ==> music[j].editor_id != edid
}

/// There is at most one first record with a given editor id.
pub proof fn lemma_first_musc_unique(music: Seq<MuscView>, edid: Seq<u8>, i1: int, i2: int)
    requires
        is_first_musc(music, edid, i1),
        is_first_musc(music, edid, i2),
    ensures
        i1 == i2,
{
    if i1 < i2 {
        assert(music[i1].editor_id != edid);
    }
    if i2 < i1 {
        assert(music[i2].editor_id != edid);
    }
}

/// Merge one record into the accumulated set: an unseen editor id adopts
/// the record whole; a seen one unions its track ids into the first-seen
/// record and leaves that record's identity fields untouched.
pub open spec fn add_musc(music: Seq<MuscView>, m: MuscView) -> Seq<MuscView> {
    if exists|i: int| is_first_musc(music, m.editor_id, i) {
        let i = choose|i: int| is_first_musc(music, m.editor_id, i);
        music.update(
            i,
            MuscView { track_ids: union_tracks(music[i].track_ids, m.track_ids), ..music[i] },
        )
    } else {
        music.push(m)
    }
}

/// Fold every record of `new` into `music`, in order.
pub open spec fn add_muscs(music: Seq<MuscView>, new_music: Seq<MuscView>) -> Seq<MuscView>
    decreases new_music.len(),
{
    if new_music.len() == 0 {
        music
    } else {
        add_muscs(add_musc(music, new_music[0]), new_music.drop_first())
    }
}

/// What merging one decoded plugin does to the output plugin: a plugin
/// with no music records contributes nothing; any other contributes its
/// masters followed by its own file name to the master list, and its
/// records to the keyed record set.
pub open spec fn merge_plugin_spec(st: PluginView, p: PluginView) -> PluginView {
    if p.music.len() == 0 {
        st
    } else {
        PluginView {
            masters: push_unique(add_masters(st.masters, p.masters), p.name),
            music: add_muscs(st.music, p.music),
            ..st
        }
    }
}

/// The output plugin before any contribution: tool-identifying author and
/// description, a supported format version, and nothing else.
pub open spec fn merge_base() -> PluginView {
    PluginView {
        version: VERSION_1_7,
        author: author_const(),
        description: description_const(),
        ..empty_plugin()
    }
}

/// The fixed author of every merged plugin: the bytes of `ESMusicMerger`.
pub open spec fn author_const() -> Seq<u8> {
    seq![0x45u8, 0x53, 0x4D, 0x75, 0x73, 0x69, 0x63, 0x4D, 0x65, 0x72, 0x67, 0x65, 0x72]
}

/// The fixed description of every merged plugin: the bytes of
/// `Merged music tracks`.
pub open spec fn description_const() -> Seq<u8> {
    seq![
        0x4Du8,
        0x65,
        0x72,
        0x67,
        0x65,
        0x64,
        0x20,
        0x6D,
        0x75,
        0x73,
        0x69,
        0x63,
        0x20,
        0x74,
        0x72,
        0x61,
        0x63,
        0x6B,
        0x73,
    ]
}

/// The whole merge over a load order of decoded plugins.
pub open spec fn merge_all_spec(ps: Seq<PluginView>) -> PluginView {
    merge_from(merge_base(), ps)
}

/// Fold the plugins into an accumulator, strictly in load order.
pub open spec fn merge_from(st: PluginView, ps: Seq<PluginView>) -> PluginView
    decreases ps.len(),
{
    if ps.len() == 0 {
        st
    } else {
        merge_from(merge_plugin_spec(st, ps[0]), ps.drop_first())
    }
}

/// No entry appears twice.
pub open spec fn unique_seq<T>(s: Seq<T>) -> bool {
    forall|i: int, j: int| 0 <= i < j < s.len() ==> s[i] != s[j]
}

/// No two records carry the same editor id.
pub open spec fn unique_edids(music: Seq<MuscView>) -> bool {
    forall|i: int, j: int| 0 <= i < j < music.len() ==> (#[trigger] music[i]).editor_id != (
    #[trigger] music[j]).editor_id
}

/// A deduplicating push keeps the list duplicate-free.
pub proof fn lemma_push_unique_keeps_unique<T>(s: Seq<T>, x: T)
    requires
        unique_seq(s),
    ensures
        unique_seq(push_unique(s, x)),
{
    if !s.contains(x) {
        let r = s.push(x);
        assert forall|i: int, j: int| 0 <= i < j < r.len() implies r[i] != r[j] by {
            if j == s.len() {
                if r[i] == x {
                    assert(s[i] == x);
                    assert(s.contains(x));
                }
            }
        }
    }
}

/// Folding a master list in keeps the accumulator duplicate-free.
pub proof fn lemma_add_masters_keeps_unique(acc: Seq<Seq<u8>>, ms: Seq<Seq<u8>>)
    requires
        unique_seq(acc),
    ensures
        unique_seq(add_masters(acc, ms)),
    decreases ms.len(),
{
    if ms.len() > 0 {
        lemma_push_unique_keeps_unique(acc, ms[0]);
        lemma_add_masters_keeps_unique(push_unique(acc, ms[0]), ms.drop_first());
    }
}

/// Where some record carries this editor id, a first such record exists.
pub proof fn lemma_exists_first_musc(music: Seq<MuscView>, edid: Seq<u8>, k: int)
    requires
        0 <= k < music.len(),
        music[k].editor_id == edid,
    ensures
        exists|i: int| is_first_musc(music, edid, i),
    decreases k,
{
    if forall|j: int| 0 <= j < k ==> (#[trigger] music[j]).editor_id != edid {
        assert(is_first_musc(music, edid, k));
    } else {
        let j = choose|j: int| 0 <= j < k && (#[trigger] music[j]).editor_id == edid;
        lemma_exists_first_musc(music, edid, j);
    }
}

/// Merging one record in keeps the editor ids unique: a seen id only has
/// its tracks unioned, an unseen one is appended once.
pub proof fn lemma_add_musc_keeps_unique(music: Seq<MuscView>, m: MuscView)
    requires
        unique_edids(music),
    ensures
        unique_edids(add_musc(music, m)),
{
    if exists|i: int| is_first_musc(music, m.editor_id, i) {
        let i = choose|i: int| is_first_musc(music, m.editor_id, i);
        let r = add_musc(music, m);
        assert forall|a: int, b: int| 0 <= a < b < r.len() implies (#[trigger] r[a]).editor_id != (
        #[trigger] r[b]).editor_id by {
            assert(r[a].editor_id == music[a].editor_id);
            assert(r[b].editor_id == music[b].editor_id);
        }
    } else {
        let r = music.push(m);
        assert forall|a: int, b: int| 0 <= a < b < r.len() implies (#[trigger] r[a]).editor_id != (
        #[trigger] r[b]).editor_id by {
            if b == music.len() && r[a].editor_id == m.editor_id {
                lemma_exists_first_musc(music, m.editor_id, a);
            }
        }
    }
}

/// Folding a plugin's records in keeps the editor ids unique.
pub proof fn lemma_add_muscs_keeps_unique(music: Seq<MuscView>, new_music: Seq<MuscView>)
    requires
        unique_edids(music),
    ensures
        unique_edids(add_muscs(music, new_music)),
    decreases new_music.len(),
{
    if new_music.len() > 0 {
        lemma_add_musc_keeps_unique(music, new_music[0]);
        lemma_add_muscs_keeps_unique(add_musc(music, new_music[0]), new_music.drop_first());
    }
}

/// Folding masters in only appends: every earlier entry keeps its
/// position, so first-seen order is preserved across the whole merge.
pub proof fn lemma_add_masters_extends(acc: Seq<Seq<u8>>, ms: Seq<Seq<u8>>)
    ensures
        add_masters(acc, ms).len() >= acc.len(),
        add_masters(acc, ms).take(acc.len() as int) == acc,
    decreases ms.len(),
{
    if ms.len() == 0 {
        assert(add_masters(acc, ms).take(acc.len() as int) =~= acc);
    } else {
        let acc2 = push_unique(acc, ms[0]);
        lemma_add_masters_extends(acc2, ms.drop_first());
        assert(add_masters(acc2, ms.drop_first()).take(acc.len() as int) =~= acc);
    }
}

/// Merging one plugin keeps both merge invariants: the master list stays
/// duplicate-free and the record set stays keyed by editor id.
pub proof fn lemma_merge_plugin_keeps_invariants(st: PluginView, p: PluginView)
    requires
        unique_seq(st.masters),
        unique_edids(st.music),
    ensures
        unique_seq(merge_plugin_spec(st, p).masters),
        unique_edids(merge_plugin_spec(st, p).music),
{
    if p.music.len() != 0 {
        lemma_add_masters_keeps_unique(st.masters, p.masters);
        lemma_push_unique_keeps_unique(add_masters(st.masters, p.masters), p.name);
        lemma_add_muscs_keeps_unique(st.music, p.music);
    }
}

/// The whole merge yields a duplicate-free master list and one record per
/// editor id, whatever the load order holds.
pub proof fn lemma_merge_all_invariants(ps: Seq<PluginView>)
    ensures
        unique_seq(merge_all_spec(ps).masters),
        unique_edids(merge_all_spec(ps).music),
{
    lemma_merge_from_invariants(merge_base(), ps);
}

/// The merge fold keeps both invariants at every step.
pub proof fn lemma_merge_from_invariants(st: PluginView, ps: Seq<PluginView>)
    requires
        unique_seq(st.masters),
        unique_edids(st.music),
    ensures
        unique_seq(merge_from(st, ps).masters),
        unique_edids(merge_from(st, ps).music),
    decreases ps.len(),
{
    if ps.len() > 0 {
        lemma_merge_plugin_keeps_invariants(st, ps[0]);
        lemma_merge_from_invariants(merge_plugin_spec(st, ps[0]), ps.drop_first());
    }
}

/// Whether two byte strings hold the same bytes.
pub fn bytes_eq(a: &Vec<u8>, b: &Vec<u8>) -> (r: bool)
    ensures
        r == (a@ == b@),
{
    if a.len() != b.len() {
        return false;
    }
    let mut i: usize = 0;
    while i < a.len()
        invariant
            a@.len() == b@.len(),
            i <= a@.len(),
            forall|j: int| 0 <= j < i ==> a@[j] == b@[j],
        decreases a@.len() - i,
    {
        if a[i] != b[i] {
            return false;
        }
        i = i + 1;
    }
    proof {
        assert(a@ =~= b@);
    }
    true
}

/// Whether the master list already holds this name.
fn contains_name(v: &Vec<Vec<u8>>, s: &Vec<u8>) -> (r: bool)
    ensures
        r == v@.map_values(|m: Vec<u8>| m@).contains(s@),
{
    let ghost names = v@.map_values(|m: Vec<u8>| m@);
    let mut i: usize = 0;
    while i < v.len()
        invariant
            names == v@.map_values(|m: Vec<u8>| m@),
            i <= names.len(),
            forall|j: int| 0 <= j < i ==> names[j] != s@,
        decreases names.len() - i,
    {
        if bytes_eq(&v[i], s) {
            proof {
                assert(names[i as int] == s@);
            }
            return true;
        }
        i = i + 1;
    }
    proof {
        assert(forall|j: int| 0 <= j < names.len() ==> names[j] != s@);
    }
    false
}

/// Whether the track list already holds this id.
fn contains_id(v: &Vec<u32>, x: u32) -> (r: bool)
    ensures
        r == v@.contains(x),
{
    let mut i: usize = 0;
    while i < v.len()
        invariant
            i <= v@.len(),
            forall|j: int| 0 <= j < i ==> v@[j] != x,
        decreases v@.len() - i,
    {
        if v[i] == x {
            return true;
        }
        i = i + 1;
    }
    false
}

/// Merge one decoded plugin into the output. Exactly `merge_plugin_spec`:
/// a plugin without music records is discarded; otherwise its masters and
/// its file name join the master list (deduplicated, first-seen order) and
/// its records join the keyed record set.
#[verifier::loop_isolation(false)]
pub fn merge_plugin(out: &mut Plugin, p: &Plugin)
    ensures
        final(out)@ == merge_plugin_spec(old(out)@, p@),
{
    if p.music.len() == 0 {
        return ;
    }
    let ghost st0 = out@;
    proof {
        assert(p@.masters.skip(0) =~= p@.masters);
    }
    let mut i: usize = 0;
    while i < p.masters.len()
        invariant
            i <= p@.masters.len(),
            out@ == (PluginView { masters: out@.masters, ..st0 }),
            add_masters(st0.masters, p@.masters) == add_masters(
                out@.masters,
                p@.masters.skip(i as int),
            ),
        decreases p@.masters.len() - i,
    {
        let ghost ms_before = out@.masters;
        let ghost rest = p@.masters.skip(i as int);
        if !contains_name(&out.masters, &p.masters[i]) {
            let m = slice_to_vec(p.masters[i].as_slice());
            out.masters.push(m);
            proof {
                assert(out@.masters =~= ms_before.push(p@.masters[i as int]));
            }
        }
        i = i + 1;
        proof {
            assert(rest[0] == p@.masters[i - 1]);
            assert(out@.masters == push_unique(ms_before, rest[0]));
            assert(rest.drop_first() =~= p@.masters.skip(i as int));
        }
    }
    proof {
        assert(p@.masters.skip(p@.masters.len() as int) =~= Seq::<Seq<u8>>::empty());
    }
    let ghost ms_before = out@.masters;
    if !contains_name(&out.masters, &p.name) {
        let m = slice_to_vec(p.name.as_slice());
        out.masters.push(m);
        proof {
            assert(out@.masters =~= ms_before.push(p@.name));
        }
    }
    proof {
        assert(out@.masters == push_unique(add_masters(st0.masters, p@.masters), p@.name));
    }
    let ghost masters_done = out@.masters;
    proof {
        assert(p@.music.skip(0) =~= p@.music);
    }
    let mut k: usize = 0;
    while k < p.music.len()
        invariant
            k <= p@.music.len(),
            out@ == (PluginView { masters: masters_done, music: out@.music, ..st0 }),
            add_muscs(st0.music, p@.music) == add_muscs(out@.music, p@.music.skip(k as int)),
        decreases p@.music.len() - k,
    {
        let ghost music_before = out@.music;
        let ghost rest = p@.music.skip(k as int);
        let ghost m_in = p@.music[k as int];
        // Find the first record with the same editor id, if any.
        let mut found: bool = false;
        let mut idx: usize = 0;
        let mut j: usize = 0;
        while j < out.music.len()
            invariant
                j <= music_before.len(),
                music_before == out@.music,
                !found ==> forall|jj: int| 0 <= jj < j ==> music_before[jj].editor_id
                    != m_in.editor_id,
                found ==> is_first_musc(music_before, m_in.editor_id, idx as int),
                found ==> j == music_before.len(),
            decreases music_before.len() - j,
        {
            if bytes_eq(&out.music[j].editor_id, &p.music[k].editor_id) {
                found = true;
                idx = j;
                proof {
                    assert(is_first_musc(music_before, m_in.editor_id, j as int));
                }
                break ;
            }
            j = j + 1;
        }
        if found {
            proof {
                let w = choose|ii: int| is_first_musc(music_before, m_in.editor_id, ii);
                lemma_first_musc_unique(music_before, m_in.editor_id, w, idx as int);
            }
            // Union the new record's track ids into the first-seen record.
            let mut tr = slice_to_vec(out.music[idx].track_ids.as_slice());
            let ghost tr0 = tr@;
            proof {
                assert(m_in.track_ids.skip(0) =~= m_in.track_ids);
            }
            let mut t: usize = 0;
            while t < p.music[k].track_ids.len()
                invariant
                    t <= m_in.track_ids.len(),
                    union_tracks(tr0, m_in.track_ids) == union_tracks(
                        tr@,
                        m_in.track_ids.skip(t as int),
                    ),
                decreases m_in.track_ids.len() - t,
            {
                let ghost tr_before = tr@;
                let ghost trest = m_in.track_ids.skip(t as int);
                let id = p.music[k].track_ids[t];
                if !contains_id(&tr, id) {
                    tr.push(id);
                }
                t = t + 1;
                proof {
                    assert(trest[0] == m_in.track_ids[t - 1]);
                    assert(tr@ == push_unique(tr_before, trest[0]));
                    assert(trest.drop_first() =~= m_in.track_ids.skip(t as int));
                }
            }
            proof {
                assert(m_in.track_ids.skip(m_in.track_ids.len() as int) =~= Seq::<u32>::empty());
            }
            let old_m = &out.music[idx];
            let new_m = MUSC {
                form_id: old_m.form_id,
                editor_id: slice_to_vec(old_m.editor_id.as_slice()),
                flags: old_m.flags,
                priority: old_m.priority,
                ducking: old_m.ducking,
                fade_duration: old_m.fade_duration,
                track_ids: tr,
            };
            out.music[idx] = new_m;
            proof {
                assert(out@.music =~= add_musc(music_before, m_in));
            }
        } else {
            let src = &p.music[k];
            let new_m = MUSC {
                form_id: src.form_id,
                editor_id: slice_to_vec(src.editor_id.as_slice()),
                flags: src.flags,
                priority: src.priority,
                ducking: src.ducking,
                fade_duration: src.fade_duration,
                track_ids: slice_to_vec(src.track_ids.as_slice()),
            };
            out.music.push(new_m);
            proof {
                assert(!(exists|ii: int| is_first_musc(music_before, m_in.editor_id, ii)));
                assert(out@.music =~= music_before.push(m_in));
            }
        }
        k = k + 1;
        proof {
            assert(rest[0] == p@.music[k - 1]);
            assert(out@.music == add_musc(music_before, rest[0]));
            assert(rest.drop_first() =~= p@.music.skip(k as int));
        }
    }
    proof {
        assert(p@.music.skip(p@.music.len() as int) =~= Seq::<MuscView>::empty());
        assert(out@ =~= merge_plugin_spec(st0, p@));
    }
}

/// Merge a whole load order of decoded plugins, strictly in order, into
/// one output plugin with the tool's fixed author and description.
#[verifier::loop_isolation(false)]
pub fn merge_plugins(plugins: &Vec<Plugin>) -> (out: Plugin)
    ensures
        out@ == merge_all_spec(plugins@.map_values(|p: Plugin| p@)),
{
    let ghost pvs = plugins@.map_values(|p: Plugin| p@);
    let mut out = Plugin::new();
    out.version = VERSION_1_7;
    let mut author: Vec<u8> = Vec::new();
    author.push(0x45);
    author.push(0x53);
    author.push(0x4D);
    author.push(0x75);
    author.push(0x73);
    author.push(0x69);
    author.push(0x63);
    author.push(0x4D);
    author.push(0x65);
    author.push(0x72);
    author.push(0x67);
    author.push(0x65);
    author.push(0x72);
    proof {
        assert(author@ =~= author_const());
    }
    out.author = author;
    let mut description: Vec<u8> = Vec::new();
    description.push(0x4D);
    description.push(0x65);
    description.push(0x72);
    description.push(0x67);
    description.push(0x65);
    description.push(0x64);
    description.push(0x20);
    description.push(0x6D);
    description.push(0x75);
    description.push(0x73);
    description.push(0x69);
    description.push(0x63);
    description.push(0x20);
    description.push(0x74);
    description.push(0x72);
    description.push(0x61);
    description.push(0x63);
    description.push(0x6B);
    description.push(0x73);
    proof {
        assert(description@ =~= description_const());
    }
    out.description = description;
    proof {
        assert(out@ =~= merge_base());
    }
    proof {
        assert(pvs.skip(0) =~= pvs);
    }
    let mut i: usize = 0;
    while i < plugins.len()
        invariant
            i <= pvs.len(),
            merge_all_spec(pvs) == merge_from(out@, pvs.skip(i as int)),
        decreases pvs.len() - i,
    {
        let ghost st_before = out@;
        let ghost rest = pvs.skip(i as int);
        merge_plugin(&mut out, &plugins[i]);
        i = i + 1;
        proof {
            assert(rest[0] == pvs[i - 1]);
            assert(out@ == merge_plugin_spec(st_before, rest[0]));
            assert(rest.drop_first() =~= pvs.skip(i as int));
        }
    }
    proof {
        assert(pvs.skip(pvs.len() as int) =~= Seq::<PluginView>::empty());
    }
    out
}

} // verus!
