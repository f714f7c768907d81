use que::creatures::{saturate, EnemyStatus, Monster};
use que::events::{CurrentOverRegion, MouseOverEmpty, MouseOverRegionEvent};
use que::player::{PlayerStatus, PlayerStatusType};
use que::rng::RNG;
use que::status::RegionStatus;
use que::values::{KeyValue, Val, Value};

fn monster() -> Monster {
    Monster {
        name: "slime".to_string(),
        intro: "soft".to_string(),
        icon: "s.png".to_string(),
        atk: 4,
        def: 2,
        hp: 30,
        image_label: "slime".to_string(),
    }
}

#[test]
fn fixed_amounts_show_their_sign() {
    assert_eq!(Val::Fixed(5).to_str(), "+5");
    assert_eq!(Val::Fixed(0).to_str(), "+0");
    assert_eq!(Val::Fixed(-12).to_str(), "-12");
    assert_eq!(Val::Fixed(i64::MIN).to_str(), "-9223372036854775808");
}

#[test]
fn ranges_show_both_ends() {
    assert_eq!(Val::Float(-3, 10).to_str(), "-3 ~ 10");
    assert_eq!(Val::Float(1, 2).to_str(), "1 ~ 2");
}

#[test]
fn amounts_are_fixed_or_drawn_from_the_range() {
    let mut rng = RNG::new(9);
    assert_eq!(Val::Fixed(-7).to_i64(&mut rng), -7);
    for _ in 0..200 {
        let v = Val::Float(3, 6).to_i64(&mut rng);
        assert!((3..=6).contains(&v));
    }
    assert_eq!(Val::Float(4, 4).to_i64(&mut rng), 4);
}

#[test]
fn monsters_start_at_full_health() {
    let m = monster();
    let s = m.to_enemy_status();
    assert_eq!(s.name, "slime");
    assert_eq!((s.atk, s.def, s.max_hp, s.cur_hp), (4, 2, 30, 30));
    let l = m.to_enemy_label();
    assert_eq!((l.name.as_str(), l.intro.as_str(), l.icon.as_str()), ("slime", "soft", "s.png"));
}

#[test]
fn enemy_health_stops_at_zero_and_reports_defeat_once() {
    let mut s: EnemyStatus = monster().to_enemy_status();
    assert!(!s.change_hp(-10));
    assert_eq!(s.cur_hp, 20);
    assert!(!s.change_hp(5));
    assert_eq!(s.cur_hp, 25);
    assert!(s.change_hp(-100));
    assert_eq!(s.cur_hp, 0);
    assert!(!s.change_hp(-1));
    assert!(!s.change_hp(50));
    assert_eq!(s.cur_hp, 0);
    assert_eq!(saturate(i128::MAX), i64::MAX);
    assert_eq!(saturate(-5), -5);
}

#[test]
fn rewards_raise_player_numbers() {
    let mut p = PlayerStatus::default();
    assert_eq!(p, PlayerStatus { atk: 10, def: 1, cur_hp: 100, max_hp: 100, gold: 10 });
    p.cur_hp = 90;
    let reward = Value {
        name: "chest".to_string(),
        intro: String::new(),
        image_label: String::new(),
        values: vec![
            KeyValue::PlayerCurrentHp(Val::Fixed(25)),
            KeyValue::PlayerAtk(Val::Fixed(3)),
            KeyValue::PlayerDef(Val::Fixed(-1)),
            KeyValue::PlayerMaxHp(Val::Fixed(20)),
            KeyValue::PlayerGold(Val::Float(5, 5)),
        ],
    };
    let mut rng = RNG::new(1);
    let amounts = p.apply_reward(&reward, &mut rng);
    assert_eq!(amounts, vec![25, 3, -1, 20, 5]);
    assert_eq!(p, PlayerStatus { atk: 13, def: 0, cur_hp: 100, max_hp: 120, gold: 15 });
    assert!(!p.is_defeated());
    p.cur_hp = 0;
    assert!(p.is_defeated());
}

#[test]
fn hover_follows_found_tiles() {
    let start = CurrentOverRegion::default();
    assert_eq!(start, CurrentOverRegion::Nothing);
    let over = start.mouse_over_region(MouseOverRegionEvent(4), RegionStatus::Found);
    assert_eq!(over, CurrentOverRegion::Region(4));
    let hidden = over.mouse_over_region(MouseOverRegionEvent(5), RegionStatus::Mist);
    assert_eq!(hidden, CurrentOverRegion::Nothing);
    assert_eq!(over.mouse_over_empty(MouseOverEmpty), CurrentOverRegion::Nothing);
}

#[test]
fn status_hub_lines() {
    let mut p = PlayerStatus::default();
    p.def = -2;
    assert_eq!(p.label(PlayerStatusType::ATK), "10");
    assert_eq!(p.label(PlayerStatusType::DEF), "-2");
    assert_eq!(p.label(PlayerStatusType::HP), "100/100");
    assert_eq!(p.label(PlayerStatusType::GOLD), "10");
}

#[test]
fn swapped_ranges_draw_between_their_ends() {
    let mut rng = RNG::new(4);
    for _ in 0..200 {
        let v = Val::Float(6, 3).to_i64(&mut rng);
        assert!((3..=6).contains(&v));
    }
}

#[test]
fn damage_keeps_every_other_stat() {
    let mut s: EnemyStatus = monster().to_enemy_status();
    s.change_hp(-7);
    assert_eq!((s.name.as_str(), s.atk, s.def, s.max_hp, s.cur_hp), ("slime", 4, 2, 30, 23));
}
