use zephyr::components::RenderLayer;
use zephyr::components::ShipAnimation;
use zephyr::systems::input::{pilot_command, ControlKeys, PilotCommand};
use zephyr::systems::movement::{select_frame, FrameCell};
use zephyr::systems::render::render_order;

fn keys() -> ControlKeys {
    ControlKeys { a: false, left: false, d: false, right: false, w: false, up: false, space: false }
}

#[test]
fn no_keys_no_command() {
    assert_eq!(
        pilot_command(&keys(), false),
        PilotCommand { rotation: 0, thrusting: false, firing: false, start_shake: false }
    );
}

#[test]
fn turn_keys_cancel_out() {
    let k = ControlKeys { a: true, right: true, ..keys() };
    assert_eq!(pilot_command(&k, false).rotation, 0);
    let k = ControlKeys { left: true, a: true, ..keys() };
    assert_eq!(pilot_command(&k, false).rotation, -1);
    let k = ControlKeys { d: true, ..keys() };
    assert_eq!(pilot_command(&k, false).rotation, 1);
}

#[test]
fn lighting_the_engine_shakes_once() {
    let k = ControlKeys { up: true, space: true, ..keys() };
    let first = pilot_command(&k, false);
    assert!(first.thrusting && first.firing && first.start_shake);
    let second = pilot_command(&k, first.thrusting);
    assert!(second.thrusting && !second.start_shake);
    let third = pilot_command(&keys(), second.thrusting);
    assert!(!third.thrusting && !third.start_shake);
}

#[test]
fn frame_is_clamped_and_placed() {
    let mut anim = ShipAnimation { total_frames: 32, current_frame: 0, flipped: true };
    assert_eq!(select_frame(&mut anim, 17, 16), FrameCell { column: 1, row: 1 });
    assert_eq!(anim.current_frame, 17);
    assert!(anim.flipped);
    assert_eq!(select_frame(&mut anim, 40, 16), FrameCell { column: 15, row: 1 });
    assert_eq!(anim.current_frame, 31);
    assert_eq!(select_frame(&mut anim, 0, 16), FrameCell { column: 0, row: 0 });
}

#[test]
fn single_frame_animation() {
    let mut anim = ShipAnimation { total_frames: 1, current_frame: 0, flipped: false };
    assert_eq!(select_frame(&mut anim, 7, 1), FrameCell { column: 0, row: 0 });
    assert_eq!(anim.current_frame, 0);
}

#[test]
fn render_order_is_stable_by_layer() {
    let layers = vec![RenderLayer::Foreground, RenderLayer::Default, RenderLayer::Background, RenderLayer::Foreground, RenderLayer::Parallax2, RenderLayer::ParallaxFix, RenderLayer::Default, RenderLayer::Parallax1];
    assert_eq!(render_order(&layers), vec![2, 5, 7, 4, 1, 6, 0, 3]);
}

#[test]
fn render_order_of_sorted_is_identity() {
    let layers = vec![RenderLayer::Background, RenderLayer::ParallaxFix, RenderLayer::Parallax1, RenderLayer::Parallax2, RenderLayer::Parallax2, RenderLayer::Foreground, RenderLayer::Foreground];
    assert_eq!(render_order(&layers), (0..7).collect::<Vec<usize>>());
    assert!(render_order(&vec![]).is_empty());
}

#[test]
fn layer_ranks_follow_declaration() {
    let ranks: Vec<u8> = [RenderLayer::Background, RenderLayer::ParallaxFix, RenderLayer::Parallax1, RenderLayer::Parallax2, RenderLayer::Default, RenderLayer::Foreground]
        .iter()
        .map(|l| l.draw_rank())
        .collect();
    assert_eq!(ranks, vec![0, 1, 2, 3, 4, 5]);
    assert!(RenderLayer::Background < RenderLayer::Foreground);
}
