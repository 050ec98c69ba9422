use hardwave::sources::{
    content_hash, missing_source, pick_match, pick_match_by_contents, AudioIndex, SourceRow, SourceTally,
};

fn index_of(paths: &[&str]) -> AudioIndex {
    let mut index = AudioIndex::new();
    for p in paths {
        let name = p.rsplit('/').next().unwrap();
        index.add(name, p.to_string());
    }
    index
}

#[test]
fn finds_a_moved_sample_by_name_in_a_nested_folder() {
    let index = index_of(&["/lib/Packs/Hard/Kicks/kick.wav"]);
    let candidates = index.candidates("kick.wav").expect("filed");
    let found = pick_match(candidates, "", &[]).expect("found");
    assert!(candidates[found].ends_with("Packs/Hard/Kicks/kick.wav"));
}

#[test]
fn a_recorded_hash_picks_the_right_one_of_two_same_named_samples() {
    let index = index_of(&["/lib/packA/kick.wav", "/lib/packB/kick.wav"]);
    let candidates = index.candidates("KICK.WAV").expect("filed");
    let wanted = content_hash(b"the right one");
    let contents = vec![Some(b"the wrong one".to_vec()), Some(b"the right one".to_vec())];
    let found = pick_match_by_contents(candidates, &wanted, &contents).expect("found");
    assert_eq!(candidates[found], "/lib/packB/kick.wav");
}

#[test]
fn a_content_hash_is_the_lowercase_hex_sha256() {
    assert_eq!(content_hash(b"abc"), "ba7816bf8f01cfea414140de5dae2223b00361a396177a9cb410ff61f20015ad");
    assert_eq!(content_hash(b"").len(), 64);
}

#[test]
fn contents_are_not_read_without_a_recorded_hash() {
    let candidates = vec!["/a/kick.wav".to_string()];
    assert_eq!(pick_match_by_contents(&candidates, "", &[]), Some(0));
    let two = vec!["/a/kick.wav".to_string(), "/b/kick.wav".to_string()];
    assert_eq!(pick_match_by_contents(&two, "", &[None, None]), None);
    let wanted = content_hash(b"x");
    assert_eq!(pick_match_by_contents(&two, &wanted, &[None, Some(b"x".to_vec())]), Some(1));
}

#[test]
fn without_a_hash_an_ambiguous_name_is_left_to_the_user() {
    let index = index_of(&["/lib/packA/kick.wav", "/lib/packB/kick.wav"]);
    let candidates = index.candidates("kick.wav").unwrap();
    assert!(pick_match(candidates, "", &[]).is_none());
}

#[test]
fn a_hash_that_matches_nothing_present_is_not_relinked() {
    let index = index_of(&["/lib/kick.wav"]);
    let candidates = index.candidates("kick.wav").unwrap();
    let contents = vec![Some(b"a different sample".to_vec())];
    assert!(pick_match_by_contents(candidates, &"0".repeat(64), &contents).is_none());
}

#[test]
fn an_unreadable_candidate_never_matches_a_hash() {
    let candidates = vec!["/a/kick.wav".to_string(), "/b/kick.wav".to_string()];
    let hashes = vec![String::new(), "cafe".to_string()];
    assert_eq!(pick_match(&candidates, "cafe", &hashes), Some(1));
}

#[test]
fn a_name_never_filed_has_no_candidates() {
    let index = index_of(&["/lib/snare.wav"]);
    assert!(index.candidates("kick.wav").is_none());
}

#[test]
fn the_tally_counts_clips_per_pool_id_in_id_order() {
    let mut t = SourceTally::new();
    t.record("pool-b", "/x/b.wav", "hb");
    t.record("pool-a", "", "ha");
    t.record("pool-b", "/elsewhere/b.wav", "other");
    let rows = t.rows();
    assert_eq!(rows.len(), 2);
    assert_eq!(rows[0].source_id, "pool-a");
    assert_eq!(rows[0].file, "pool-a", "old projects kept the path in the pool id");
    assert_eq!(rows[0].clip_count, 1);
    assert_eq!(rows[1].file, "/x/b.wav", "the first clip's file is kept");
    assert_eq!(rows[1].hash, "hb");
    assert_eq!(rows[1].clip_count, 2);
}

#[test]
fn a_missing_source_is_shown_by_its_file_name() {
    let row = SourceRow {
        source_id: "id".into(),
        file: "/gone/kick.wav".into(),
        hash: "h".into(),
        clip_count: 3,
    };
    let m = missing_source(&row);
    assert_eq!(m.name, "kick.wav");
    assert_eq!(m.file, "/gone/kick.wav");
    assert_eq!(m.clip_count, 3);
    let root = SourceRow { source_id: "r".into(), file: "/".into(), hash: String::new(), clip_count: 1 };
    assert_eq!(missing_source(&root).name, "unknown file");
}
