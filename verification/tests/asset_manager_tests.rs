use zephyr::asset_manager::{
    can_take_ref, drain_load_queue, free_asset, get_texture, get_texture_ref, store_loaded_texture,
    AssetManager,
};

fn manager() -> AssetManager<&'static str> {
    AssetManager::new("magenta")
}

#[test]
fn first_reference_gets_id_one() {
    let mut am = manager();
    assert!(can_take_ref(&am, "Resources/Gfx/sky.png"));
    assert_eq!(get_texture_ref(&mut am, "Resources/Gfx/sky.png"), 1);
}

#[test]
fn same_path_same_id() {
    let mut am = manager();
    let a = get_texture_ref(&mut am, "a.png");
    let b = get_texture_ref(&mut am, "a.png");
    let c = get_texture_ref(&mut am, "b.png");
    assert_eq!(a, b);
    assert_eq!(a, 1);
    assert_eq!(c, 2);
}

#[test]
fn new_paths_are_queued_once_in_order() {
    let mut am = manager();
    get_texture_ref(&mut am, "a.png");
    get_texture_ref(&mut am, "b.png");
    get_texture_ref(&mut am, "a.png");
    let to_load = drain_load_queue(&mut am);
    assert_eq!(to_load, vec![(1, "a.png".to_string()), (2, "b.png".to_string())]);
    assert!(drain_load_queue(&mut am).is_empty());
}

#[test]
fn freed_assets_are_not_loaded() {
    let mut am = manager();
    let a = get_texture_ref(&mut am, "a.png");
    get_texture_ref(&mut am, "b.png");
    free_asset(&mut am, a);
    let to_load = drain_load_queue(&mut am);
    assert_eq!(to_load, vec![(2, "b.png".to_string())]);
}

#[test]
fn free_keeps_asset_while_referenced() {
    let mut am = manager();
    let a = get_texture_ref(&mut am, "a.png");
    get_texture_ref(&mut am, "a.png");
    store_loaded_texture(&mut am, a, "sky");
    free_asset(&mut am, a);
    assert_eq!(*get_texture(&am, a), "sky");
    assert_eq!(get_texture_ref(&mut am, "a.png"), a);
}

#[test]
fn last_free_forgets_path_and_ids_are_not_reused() {
    let mut am = manager();
    let a = get_texture_ref(&mut am, "a.png");
    store_loaded_texture(&mut am, a, "sky");
    free_asset(&mut am, a);
    assert_eq!(*get_texture(&am, a), "magenta");
    let again = get_texture_ref(&mut am, "a.png");
    assert_eq!(again, 2);
    assert_ne!(again, a);
    assert_eq!(*get_texture(&am, again), "magenta");
}

#[test]
fn free_unknown_id_changes_nothing() {
    let mut am = manager();
    let a = get_texture_ref(&mut am, "a.png");
    free_asset(&mut am, 42);
    free_asset(&mut am, -3);
    assert_eq!(get_texture_ref(&mut am, "a.png"), a);
    assert_eq!(drain_load_queue(&mut am), vec![(1, "a.png".to_string())]);
}

#[test]
fn texture_is_placeholder_until_loaded() {
    let mut am = manager();
    let a = get_texture_ref(&mut am, "a.png");
    assert_eq!(*get_texture(&am, a), "magenta");
    assert_eq!(*get_texture(&am, 99), "magenta");
    store_loaded_texture(&mut am, a, "sky");
    assert_eq!(*get_texture(&am, a), "sky");
}

#[test]
fn texture_for_freed_asset_is_dropped() {
    let mut am = manager();
    let a = get_texture_ref(&mut am, "a.png");
    let to_load = drain_load_queue(&mut am);
    free_asset(&mut am, a);
    store_loaded_texture(&mut am, to_load[0].0, "sky");
    assert_eq!(*get_texture(&am, a), "magenta");
}

#[test]
fn each_reference_needs_its_own_free() {
    let mut am = manager();
    let a = get_texture_ref(&mut am, "a.png");
    let b = get_texture_ref(&mut am, "a.png");
    free_asset(&mut am, b);
    free_asset(&mut am, a);
    let again = get_texture_ref(&mut am, "a.png");
    assert_eq!(again, 2);
}
