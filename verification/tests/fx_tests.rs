use sampo_core::fx;
use sampo_core::game::Game;
use sampo_core::strutil::u64_to_dec;

const FX: f64 = 4294967296.0;

fn un(v: i64) -> f64 {
    (v as f64) / FX
}

#[test]
fn fixed_point_products() {
    let half = (0.5 * FX) as i64;
    let quarter = (0.25 * FX) as i64;
    assert_eq!(fx::fx_mul(half, half), quarter);
    assert_eq!(fx::fx_mul(-half, half), -quarter);
    assert_eq!(fx::fx_mul(half, 0), 0);
    assert_eq!(fx::fx_add(i64::MAX, 1), i64::MAX);
    assert_eq!(fx::fx_sub(i64::MIN, 1), i64::MIN);
    assert_eq!(fx::fx_div_int(-10, 4), -2);
}

#[test]
fn decibel_conversion() {
    assert_eq!(fx::pow10_db(0), fx::FX_ONE);
    let g20 = fx::pow10_db(20);
    assert!((un(g20) - 10.0).abs() < 1e-6);
    let gm6 = fx::pow10_db(-6);
    assert!((un(gm6) - 10f64.powf(-0.3)).abs() < 1e-6);
    let gm60 = fx::pow10_db(-60);
    assert!((un(gm60) - 0.001).abs() < 1e-9);
    assert_eq!(fx::pow10_db(-2000), 0);
    assert_eq!(fx::pow10_db(2000), i64::MAX);
}

#[test]
fn cosine_quarter_turn() {
    let c0 = fx::fx_cos(0);
    assert!((un(c0) - 1.0).abs() < 1e-6);
    let cq = fx::fx_cos(fx::QUARTER_PI);
    assert!((un(cq) - std::f64::consts::FRAC_1_SQRT_2).abs() < 1e-6);
    let ch = fx::fx_cos(fx::HALF_PI);
    assert!(un(ch).abs() < 1e-6);
}

#[test]
fn log_and_exp() {
    // log2 of 4.0 in Q32.32 is 2.0
    let l = fx::fx_log2(4 * fx::FX_ONE as u64);
    assert!((un(l) - 2.0).abs() < 1e-5);
    let l3 = fx::fx_log2((1.5 * FX) as u64);
    assert!((un(l3) - 1.5f64.log2()).abs() < 1e-5);
    // 2^-1 and 2^-0.5
    let e1 = fx::fx_exp2_neg(fx::FX_ONE);
    assert!((un(e1) - 0.5).abs() < 1e-5);
    let eh = fx::fx_exp2_neg(fx::FX_ONE / 2);
    assert!((un(eh) - 0.5f64.sqrt()).abs() < 1e-5);
}

#[test]
fn integer_square_root() {
    assert_eq!(fx::isqrt_u128(0), 0);
    assert_eq!(fx::isqrt_u128(15), 3);
    assert_eq!(fx::isqrt_u128(16), 4);
    assert_eq!(fx::isqrt_u128(u64::MAX as u128), 0xFFFF_FFFF);
    let big: u128 = (1u128 << 100) - 1;
    let r = fx::isqrt_u128(big) as u128;
    assert!(r * r <= big && (r + 1) * (r + 1) > big);
}

#[test]
fn decimal_rendering() {
    assert_eq!(u64_to_dec(0), "0");
    assert_eq!(u64_to_dec(7), "7");
    assert_eq!(u64_to_dec(10), "10");
    assert_eq!(u64_to_dec(40961), "40961");
    assert_eq!(u64_to_dec(u64::MAX), "18446744073709551615");
}

#[test]
fn game_state_tracks_ticks() {
    let mut g = Game::new();
    g.game_load_profile("{\"level\":1}");
    let cmds = g.game_tick(Some("root1".to_string()), vec!["start".to_string()]);
    assert_eq!(cmds.len(), 0);
    assert_eq!(g.prev_road.as_deref(), Some("root1"));
    assert_eq!(g.prev_areas, vec!["start".to_string()]);
    g.game_reset();
    assert!(g.prev_road.is_none());
    assert!(g.prev_areas.is_empty());
    assert_eq!(g.profile_json.as_deref(), Some("{\"level\":1}"));
}
