use bevy_zhuose_qi::topdownfire::texture_index::{
    AssetEventKind, FireEvent, FireTextureIndex,
};

fn sorted(mut v: Vec<u64>) -> Vec<u64> {
    v.sort();
    v
}

#[test]
fn empty_index_notifies_nobody() {
    let idx: FireTextureIndex<u64> = FireTextureIndex::new();
    assert!(idx.fires_to_notify(&vec![1, 2, 3]).is_empty());
    let idx: FireTextureIndex<u64> = Default::default();
    assert!(idx.fires_to_notify(&vec![1]).is_empty());
}

#[test]
fn created_fire_is_notified_when_its_texture_changes() {
    let mut idx = FireTextureIndex::new();
    idx.handle_fire_event(AssetEventKind::Created, 1u64, Some(10u64));
    idx.handle_fire_event(AssetEventKind::Created, 2, Some(10));
    idx.handle_fire_event(AssetEventKind::Created, 3, Some(20));
    assert_eq!(sorted(idx.fires_to_notify(&vec![10])), vec![1, 2]);
    assert_eq!(idx.fires_to_notify(&vec![20]), vec![3]);
    assert!(idx.fires_to_notify(&vec![30]).is_empty());
    assert_eq!(sorted(idx.fires_to_notify(&vec![10, 20])), vec![1, 2, 3]);
}

#[test]
fn repeated_changed_texture_notifies_once() {
    let mut idx = FireTextureIndex::new();
    idx.handle_fire_event(AssetEventKind::Created, 1u64, Some(10u64));
    assert_eq!(idx.fires_to_notify(&vec![10, 10, 10]), vec![1]);
}

#[test]
fn created_without_asset_is_ignored() {
    let mut idx = FireTextureIndex::new();
    idx.handle_fire_event(AssetEventKind::Created, 1u64, None);
    assert!(idx.fires_to_notify(&vec![10u64]).is_empty());
}

#[test]
fn modified_to_new_texture_moves_the_fire() {
    let mut idx = FireTextureIndex::new();
    idx.handle_fire_event(AssetEventKind::Created, 1u64, Some(10u64));
    idx.handle_fire_event(AssetEventKind::Modified, 1, Some(20));
    assert!(idx.fires_to_notify(&vec![10]).is_empty());
    assert_eq!(idx.fires_to_notify(&vec![20]), vec![1]);
}

#[test]
fn modified_with_same_texture_changes_nothing() {
    let mut idx = FireTextureIndex::new();
    idx.handle_fire_event(AssetEventKind::Created, 1u64, Some(10u64));
    idx.handle_fire_event(AssetEventKind::Modified, 1, Some(10));
    idx.handle_fire_event(AssetEventKind::Modified, 1, Some(10));
    assert_eq!(idx.fires_to_notify(&vec![10]), vec![1]);
}

#[test]
fn modified_unknown_fire_starts_tracking_it() {
    let mut idx = FireTextureIndex::new();
    idx.handle_fire_event(AssetEventKind::Modified, 4u64, Some(40u64));
    assert_eq!(idx.fires_to_notify(&vec![40]), vec![4]);
}

#[test]
fn modified_without_asset_forgets_the_fire() {
    let mut idx = FireTextureIndex::new();
    idx.handle_fire_event(AssetEventKind::Created, 1u64, Some(10u64));
    idx.handle_fire_event(AssetEventKind::Modified, 1, None);
    assert!(idx.fires_to_notify(&vec![10]).is_empty());
    // and modifying an unknown fire without asset does nothing
    idx.handle_fire_event(AssetEventKind::Modified, 2, None);
    assert!(idx.fires_to_notify(&vec![10]).is_empty());
}

#[test]
fn removed_fire_is_no_longer_notified() {
    let mut idx = FireTextureIndex::new();
    idx.handle_fire_event(AssetEventKind::Created, 1u64, Some(10u64));
    idx.handle_fire_event(AssetEventKind::Created, 2, Some(10));
    idx.handle_fire_event(AssetEventKind::Removed, 1, Some(10));
    assert_eq!(idx.fires_to_notify(&vec![10]), vec![2]);
}

#[test]
fn removed_without_asset_keeps_the_fire() {
    let mut idx = FireTextureIndex::new();
    idx.handle_fire_event(AssetEventKind::Created, 1u64, Some(10u64));
    idx.handle_fire_event(AssetEventKind::Removed, 1, None);
    assert_eq!(idx.fires_to_notify(&vec![10]), vec![1]);
}

#[test]
fn created_twice_on_different_textures_keeps_both_filings() {
    let mut idx = FireTextureIndex::new();
    idx.handle_fire_event(AssetEventKind::Created, 1u64, Some(10u64));
    idx.handle_fire_event(AssetEventKind::Created, 1, Some(20));
    // the stale filing under 10 stays, as it does in the original bookkeeping
    assert_eq!(idx.fires_to_notify(&vec![10]), vec![1]);
    assert_eq!(idx.fires_to_notify(&vec![20]), vec![1]);
    assert_eq!(idx.fires_to_notify(&vec![10, 20]), vec![1, 1]);
}

#[test]
fn detection_round_handles_events_then_notifies() {
    let mut idx = FireTextureIndex::new();
    let events = vec![
        FireEvent { kind: AssetEventKind::Created, fire: 1u64, material_texture: Some(10u64) },
        FireEvent { kind: AssetEventKind::Created, fire: 2, material_texture: Some(20) },
        FireEvent { kind: AssetEventKind::Modified, fire: 2, material_texture: Some(10) },
        FireEvent { kind: AssetEventKind::Created, fire: 3, material_texture: Some(30) },
        FireEvent { kind: AssetEventKind::Removed, fire: 3, material_texture: Some(30) },
    ];
    let notified = idx.fire_texture_detection(&events, &vec![10, 20, 30, 10]);
    assert_eq!(sorted(notified), vec![1, 2]);
    // the notifications come back as modifications that change nothing
    let echo: Vec<FireEvent<u64>> = vec![
        FireEvent { kind: AssetEventKind::Modified, fire: 1, material_texture: Some(10) },
        FireEvent { kind: AssetEventKind::Modified, fire: 2, material_texture: Some(10) },
    ];
    let notified = idx.fire_texture_detection(&echo, &vec![]);
    assert!(notified.is_empty());
    assert_eq!(sorted(idx.fires_to_notify(&vec![10])), vec![1, 2]);
}
