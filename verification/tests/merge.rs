use esmerge::merge::{merge_plugin, merge_plugins};
use esmerge::model::{Plugin, MUSC, VERSION_1_7};

fn track(edid: &[u8], form_id: u32, tracks: Vec<u32>) -> MUSC {
    MUSC {
        form_id,
        editor_id: edid.to_vec(),
        flags: 7,
        priority: 1,
        ducking: 2,
        fade_duration: 3,
        track_ids: tracks,
    }
}

fn plugin(name: &[u8], masters: Vec<Vec<u8>>, music: Vec<MUSC>) -> Plugin {
    let mut p = Plugin::new();
    p.name = name.to_vec();
    p.version = VERSION_1_7;
    p.masters = masters;
    p.music = music;
    p
}

#[test]
fn merge_unions_track_ids_by_editor_id() {
    // Plugin A defines "E1" with tracks [1, 2]; plugin B defines "E1" with
    // [2, 3]. Merging A then B gives "E1" with [1, 2, 3] and A's identity
    // fields.
    let a = plugin(b"A.esp", vec![], vec![track(b"E1", 0xAAAA, vec![1, 2])]);
    let b = plugin(b"B.esp", vec![], vec![track(b"E1", 0xBBBB, vec![2, 3])]);
    let out = merge_plugins(&vec![a, b]);
    assert_eq!(out.music.len(), 1);
    assert_eq!(out.music[0].editor_id, b"E1".to_vec());
    assert_eq!(out.music[0].track_ids, vec![1, 2, 3]);
    assert_eq!(out.music[0].form_id, 0xAAAA);
}

#[test]
fn merge_orders_masters_first_seen_without_duplicates() {
    // A depends on [Skyrim.esm]; B depends on [Skyrim.esm, A.esm]. Merging
    // A then B gives [Skyrim.esm, A.esm, B.esm], no duplicates.
    let a = plugin(
        b"A.esm",
        vec![b"Skyrim.esm".to_vec()],
        vec![track(b"MA", 1, vec![1])],
    );
    let b = plugin(
        b"B.esm",
        vec![b"Skyrim.esm".to_vec(), b"A.esm".to_vec()],
        vec![track(b"MB", 2, vec![2])],
    );
    let out = merge_plugins(&vec![a, b]);
    assert_eq!(
        out.masters,
        vec![b"Skyrim.esm".to_vec(), b"A.esm".to_vec(), b"B.esm".to_vec()]
    );
}

#[test]
fn plugin_without_music_contributes_nothing() {
    let a = plugin(
        b"A.esp",
        vec![b"Skyrim.esm".to_vec()],
        vec![track(b"MA", 1, vec![1])],
    );
    let silent = plugin(b"Silent.esp", vec![b"Other.esm".to_vec()], vec![]);
    let out = merge_plugins(&vec![a, silent]);
    assert_eq!(out.masters, vec![b"Skyrim.esm".to_vec(), b"A.esp".to_vec()]);
    assert_eq!(out.music.len(), 1);
}

#[test]
fn merge_output_carries_tool_identity() {
    let out = merge_plugins(&vec![]);
    assert_eq!(out.author, b"ESMusicMerger".to_vec());
    assert_eq!(out.description, b"Merged music tracks".to_vec());
    assert_eq!(out.version, VERSION_1_7);
    assert!(out.masters.is_empty());
    assert!(out.music.is_empty());
}

#[test]
fn merge_adopts_unseen_records_in_order() {
    let a = plugin(
        b"A.esp",
        vec![],
        vec![track(b"One", 1, vec![10]), track(b"Two", 2, vec![20])],
    );
    let b = plugin(b"B.esp", vec![], vec![track(b"Three", 3, vec![30])]);
    let out = merge_plugins(&vec![a, b]);
    assert_eq!(out.music.len(), 3);
    assert_eq!(out.music[0].editor_id, b"One".to_vec());
    assert_eq!(out.music[1].editor_id, b"Two".to_vec());
    assert_eq!(out.music[2].editor_id, b"Three".to_vec());
}

#[test]
fn merge_plugin_into_existing_state() {
    let mut out = merge_plugins(&vec![plugin(
        b"A.esp",
        vec![],
        vec![track(b"E1", 1, vec![1])],
    )]);
    let b = plugin(b"B.esp", vec![], vec![track(b"E1", 2, vec![1, 4])]);
    merge_plugin(&mut out, &b);
    assert_eq!(out.music.len(), 1);
    assert_eq!(out.music[0].track_ids, vec![1, 4]);
    assert_eq!(out.music[0].form_id, 1);
    assert_eq!(out.masters, vec![b"A.esp".to_vec(), b"B.esp".to_vec()]);
}

#[test]
fn merging_the_same_plugin_twice_adds_nothing_new() {
    let a = plugin(
        b"A.esp",
        vec![b"Skyrim.esm".to_vec()],
        vec![track(b"E1", 1, vec![1, 2])],
    );
    let a_again = plugin(
        b"A.esp",
        vec![b"Skyrim.esm".to_vec()],
        vec![track(b"E1", 1, vec![1, 2])],
    );
    let out = merge_plugins(&vec![a, a_again]);
    assert_eq!(out.masters, vec![b"Skyrim.esm".to_vec(), b"A.esp".to_vec()]);
    assert_eq!(out.music.len(), 1);
    assert_eq!(out.music[0].track_ids, vec![1, 2]);
}
