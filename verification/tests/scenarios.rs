use grapple::math::Vec2;
use grapple::player::{HookState, Input, Player, FALL_ACC, HOOK_SLACK, MAX_V_SPEED};

fn fire_only() -> Input {
    let mut i = Input::none();
    i.fire = true;
    i
}

#[test]
fn scenario_fire_one_tick_then_release() {
    // Actor at (0, 0), crosshair offset (30, -10) units, length 31.62.
    let mut p = Player::new();
    p.update(fire_only());
    match p.hook_state {
        HookState::Pulling { anchor, remaining_distance } => {
            assert_eq!((anchor.x, anchor.y), (3000, -1000));
            assert_eq!(remaining_distance, 3162);
        }
        _ => panic!("expected Pulling"),
    }
    // Release: one tick of reel-in has shortened the tether by exactly
    // the pull speed, and the actor has been pulled inside that radius.
    p.update(Input::none());
    match p.hook_state {
        HookState::Hooked { anchor, max_distance } => {
            assert_eq!((anchor.x, anchor.y), (3000, -1000));
            assert_eq!(max_distance, 3162 - 200);
            let dx = (anchor.x - p.pos.x) as i128;
            let dy = (anchor.y - p.pos.y) as i128;
            let reach = (max_distance + HOOK_SLACK) as i128;
            assert!(dx * dx + dy * dy <= reach * reach);
        }
        _ => panic!("expected Hooked"),
    }
    assert_eq!((p.pos.x, p.pos.y), (80, -500));
}

#[test]
fn scenario_free_fall_accumulates_gravity() {
    let mut p = Player::new();
    p.pos = Vec2::new(0, -2_000_000);
    for k in 1..=20 {
        p.update(Input::none());
        assert_eq!(p.speed.y, FALL_ACC * k);
        assert!(matches!(p.hook_state, HookState::Ready));
    }
    let mut p2 = Player::new();
    p2.pos = Vec2::new(0, -2_000_000);
    for k in 1..=400 {
        p2.update(Input::none());
        let expected = if FALL_ACC * k < MAX_V_SPEED { FALL_ACC * k } else { MAX_V_SPEED };
        assert_eq!(p2.speed.y, expected);
    }
    // Keep falling until the ground zeroes the vertical speed.
    let mut landed = false;
    for _ in 0..2000 {
        p2.update(Input::none());
        if p2.pos.y == -500 {
            landed = true;
            assert_eq!(p2.speed.y, 0);
            break;
        }
    }
    assert!(landed);
    assert!(p2.get_bottom_center().y <= 0);
}

#[test]
fn determinism_identical_runs_identical_trajectories() {
    let mut a = Player::new();
    let mut b = Player::new();
    let mut seed: u64 = 0x2545f491_4f6cdd1d;
    for _ in 0..300 {
        seed = seed.wrapping_mul(6364136223846793005).wrapping_add(1442695040888963407);
        let bits = seed >> 33;
        let i = Input {
            left: bits & 1 != 0,
            right: bits & 2 != 0,
            up: bits & 4 != 0,
            down: bits & 8 != 0,
            fire: bits & 16 != 0,
            release: bits & 32 != 0,
        };
        a.update(i);
        b.update(i);
        assert_eq!(a, b);
    }
}

#[test]
fn hook_radius_holds_while_swinging() {
    let mut p = Player::new();
    p.update(Input::none());
    // Aim up and left for a while, fire, and keep swinging.
    for _ in 0..30 {
        p.update(Input {
            left: true,
            right: false,
            up: true,
            down: false,
            fire: false,
            release: false,
        });
    }
    let mut i = fire_only();
    i.left = true;
    for _ in 0..120 {
        p.update(i);
        if let HookState::Pulling { anchor, remaining_distance } = p.hook_state {
            if anchor.y <= -500 {
                let dx = (anchor.x - p.pos.x) as i128;
                let dy = (anchor.y - p.pos.y) as i128;
                let reach = (remaining_distance + HOOK_SLACK) as i128;
                assert!(dx * dx + dy * dy <= reach * reach);
            }
        }
    }
    p.update(Input::none());
    for _ in 0..200 {
        p.update(Input::none());
        if let HookState::Hooked { anchor, max_distance } = p.hook_state {
            if anchor.y <= -500 {
                let dx = (anchor.x - p.pos.x) as i128;
                let dy = (anchor.y - p.pos.y) as i128;
                let reach = (max_distance + HOOK_SLACK) as i128;
                assert!(dx * dx + dy * dy <= reach * reach);
            }
        } else {
            panic!("expected Hooked");
        }
    }
}

#[test]
fn draw_geometry_matches_state() {
    let mut p = Player::new();
    let off = Vec2::new(8000, 8000);
    let d = p.draw(off);
    assert_eq!((d.body_x, d.body_y, d.body_size), (75, 75, 10));
    assert_eq!((d.cross_x, d.cross_y, d.cross_arm), (110, 70, 4));
    assert!(d.tether.is_none());

    p.update(Input::none());
    p.update(fire_only());
    let d2 = p.draw(off);
    let seg = d2.tether.expect("tether while pulling");
    // Anchor (3000, -1500) and body (0, -500), both offset by (8000, 8000).
    assert_eq!((seg.x0, seg.y0), (110, 65));
    assert_eq!((seg.x1, seg.y1), (80, 75));
}
