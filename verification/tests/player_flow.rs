use grapple::math::Vec2;
use grapple::player::{HookState, Input, Player, CH_MAX_SPEED, MAX_H_SPEED, MAX_V_SPEED};

fn held(left: bool, right: bool, up: bool, down: bool, fire: bool, release: bool) -> Input {
    Input { left, right, up, down, fire, release }
}

#[test]
fn new_player_initial_state() {
    let p = Player::new();
    assert_eq!((p.pos.x, p.pos.y), (0, 0));
    assert_eq!((p.speed.x, p.speed.y), (0, 0));
    assert_eq!((p.crosshair_pos.x, p.crosshair_pos.y), (3000, -1000));
    assert_eq!((p.crosshair_vel.x, p.crosshair_vel.y), (0, 0));
    assert!(matches!(p.hook_state, HookState::Ready));
    assert!(p.jump_was_released);
    assert!(!p.fire_was_held);
    assert!(!p.release_was_held);
}

#[test]
fn crosshair_accelerates_and_stops_dead() {
    let mut p = Player::new();
    for k in 1..=3 {
        p.update(held(false, true, false, false, false, false));
        assert_eq!(p.crosshair_vel.x, 10 * k);
    }
    assert_eq!(p.crosshair_pos.x, 3000 + 10 + 20 + 30);
    // The tick after release the crosshair velocity is exactly zero.
    p.update(Input::none());
    assert_eq!((p.crosshair_vel.x, p.crosshair_vel.y), (0, 0));
    assert_eq!(p.crosshair_pos.x, 3060);
}

#[test]
fn crosshair_reversal_drops_opposing_momentum() {
    let mut p = Player::new();
    for _ in 0..30 {
        p.update(held(false, true, false, false, false, false));
    }
    assert_eq!(p.crosshair_vel.x, CH_MAX_SPEED);
    // Pressing the opposite direction clamps the axis velocity to zero
    // first, so one tick is enough to start moving the other way.
    p.update(held(true, false, false, false, false, false));
    assert_eq!(p.crosshair_vel.x, -10);
}

#[test]
fn crosshair_left_wins_over_right() {
    let mut p = Player::new();
    p.update(held(true, true, false, false, false, false));
    assert_eq!(p.crosshair_vel.x, -10);
}

#[test]
fn speed_clamps_hold_under_any_input() {
    let mut p = Player::new();
    p.pos = Vec2::new(0, -10_000_000);
    for k in 0..400u64 {
        // A crude deterministic input pattern exercising every button.
        let bits = k.wrapping_mul(2654435761) >> 3;
        p.update(held(
            bits & 1 != 0,
            bits & 2 != 0,
            bits & 4 != 0,
            bits & 8 != 0,
            bits & 16 != 0,
            bits & 32 != 0,
        ));
        assert!(p.speed.x.abs() <= MAX_H_SPEED);
        assert!(p.speed.y.abs() <= MAX_V_SPEED);
        assert!(p.crosshair_vel.x.abs() <= CH_MAX_SPEED);
        assert!(p.crosshair_vel.y.abs() <= CH_MAX_SPEED);
    }
}

#[test]
fn crosshair_speed_saturates_at_cap() {
    let mut p = Player::new();
    for _ in 0..50 {
        p.update(held(false, true, false, true, false, false));
    }
    assert_eq!(p.crosshair_vel.x, CH_MAX_SPEED);
    assert_eq!(p.crosshair_vel.y, CH_MAX_SPEED);
}

#[test]
fn ground_snaps_and_zeroes_vertical_speed() {
    let mut p = Player::new();
    // The actor starts with its bottom below the line; one tick settles it.
    p.update(Input::none());
    assert_eq!(p.pos.y, -500);
    assert_eq!(p.speed.y, 0);
    let bottom = p.get_bottom_center();
    assert_eq!(bottom.y, 0);
    for _ in 0..100 {
        p.update(Input::none());
        assert!(p.get_bottom_center().y <= 0);
        assert_eq!(p.speed.y, 0);
    }
}

#[test]
fn hook_state_machine_full_cycle() {
    let mut p = Player::new();
    p.update(Input::none());
    assert_eq!((p.pos.x, p.pos.y), (0, -500));

    // Fresh fire press: Ready -> Pulling, anchored at position + crosshair.
    p.update(held(false, false, false, false, true, false));
    match p.hook_state {
        HookState::Pulling { anchor, remaining_distance } => {
            assert_eq!((anchor.x, anchor.y), (3000, -1500));
            assert_eq!(remaining_distance, 3162);
        }
        _ => panic!("expected Pulling"),
    }

    // Holding fire keeps pulling and reels the tether in.
    p.update(held(false, false, false, false, true, false));
    match p.hook_state {
        HookState::Pulling { remaining_distance, .. } => {
            assert_eq!(remaining_distance, 2962);
        }
        _ => panic!("expected Pulling"),
    }

    // Releasing fire freezes the tether at the actual current distance
    // right after this tick's constraint step.
    p.update(Input::none());
    match p.hook_state {
        HookState::Hooked { anchor, max_distance } => {
            assert_eq!((anchor.x, anchor.y), (3000, -1500));
            assert_eq!(max_distance, 2761);
        }
        _ => panic!("expected Hooked"),
    }

    // A fresh release press detaches completely.
    p.update(held(false, false, false, false, false, true));
    assert!(matches!(p.hook_state, HookState::Ready));
    p.update(Input::none());
    assert!(matches!(p.hook_state, HookState::Ready));
}

#[test]
fn reel_in_floors_at_minimum_tether() {
    let mut p = Player::new();
    p.update(Input::none());
    p.crosshair_pos = Vec2::new(500, 0);
    p.update(held(false, false, false, false, true, false));
    match p.hook_state {
        HookState::Pulling { remaining_distance, .. } => assert_eq!(remaining_distance, 500),
        _ => panic!("expected Pulling"),
    }
    p.update(held(false, false, false, false, true, false));
    match p.hook_state {
        HookState::Pulling { remaining_distance, .. } => assert_eq!(remaining_distance, 400),
        _ => panic!("expected Pulling"),
    }
    p.update(held(false, false, false, false, true, false));
    match p.hook_state {
        HookState::Pulling { remaining_distance, .. } => assert_eq!(remaining_distance, 400),
        _ => panic!("expected Pulling"),
    }
}

#[test]
fn holding_fire_after_detach_does_not_refire() {
    let mut p = Player::new();
    p.update(Input::none());
    // Press and keep holding fire: Pulling while held.
    p.update(held(false, false, false, false, true, false));
    assert!(matches!(p.hook_state, HookState::Pulling { .. }));
    // Keep holding fire and press release: still pulling (release only
    // detaches from Hooked), but fire is no longer a fresh press later.
    p.update(held(false, false, false, false, true, true));
    assert!(matches!(p.hook_state, HookState::Pulling { .. }));
    // Let go of fire: Hooked; then a fresh release press detaches.
    p.update(Input::none());
    assert!(matches!(p.hook_state, HookState::Hooked { .. }));
    p.update(held(false, false, false, false, true, true));
    assert!(matches!(p.hook_state, HookState::Ready));
    // Fire still held from the previous tick: no fresh press, no refire.
    p.update(held(false, false, false, false, true, false));
    assert!(matches!(p.hook_state, HookState::Ready));
}

#[test]
fn get_center_reports_position() {
    let mut p = Player::new();
    p.pos = Vec2::new(1234, -5678);
    let c = p.get_center();
    assert_eq!((c.x, c.y), (1234, -5678));
    let b = p.get_bottom_center();
    assert_eq!((b.x, b.y), (1234, -5678 + 500));
}
