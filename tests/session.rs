use que::creatures::Monster;
use que::events::{AtkMonsterWithPlayerSkill, AudioSound, ChangeEnemyHpEvent, PlayAudioEvent, RegionClickEvent};
use que::geometry::{PlaneOrientation, Point};
use que::player::PlayerStatus;
use que::pool::{Pool, Weight};
use que::regions::Regions;
use que::rng::RNG;
use que::session::{Session, TileContent, GEN_REGION_ITEMS};
use que::status::{ChangeRegionStatusEvent, RegionStatus};
use que::tile::{Tile, TileType};
use que::values::{KeyValue, Val, Value};

fn monster(hp: u64) -> Monster {
    Monster {
        name: "bat".to_string(),
        intro: String::new(),
        icon: String::new(),
        atk: 3,
        def: 1,
        hp,
        image_label: String::new(),
    }
}

fn gold(n: i64) -> Value {
    Value {
        name: "coins".to_string(),
        intro: String::new(),
        image_label: String::new(),
        values: vec![KeyValue::PlayerGold(Val::Fixed(n))],
    }
}

fn row_of_three() -> Session {
    let mut regions = Regions::default();
    let mut rng = RNG::new(0);
    for (id, x) in [(1u64, 0i64), (2, 1), (3, 2)] {
        let mut t = Tile { id, adjacent: vec![], shape: vec![Point(x, 0)] };
        assert!(regions.adjust_tile(&mut t, None, &mut rng));
    }
    let mut session = Session::new(regions);
    session.exploration.statuses.insert(2, RegionStatus::Mist);
    session.exploration.statuses.insert(3, RegionStatus::Mist);
    session
}

#[test]
fn click_on_found_tile_visits_and_collects() {
    let mut session = row_of_three();
    session.contents.insert(1, TileContent::Reward(gold(7)));
    let mut rng = RNG::new(1);
    let out = session.click(RegionClickEvent(1), &mut rng);
    assert_eq!(out.attack, Some(AtkMonsterWithPlayerSkill(1)));
    assert_eq!(
        out.changes,
        vec![
            ChangeRegionStatusEvent(1, RegionStatus::Visited),
            ChangeRegionStatusEvent(2, RegionStatus::Found)
        ]
    );
    assert_eq!(out.reward, vec![7]);
    assert_eq!(out.sounds, vec![PlayAudioEvent(AudioSound::Click)]);
    assert_eq!(session.player.gold, 17);
    let again = session.click(RegionClickEvent(1), &mut rng);
    assert_eq!(again.attack, None);
    assert!(again.changes.is_empty());
    assert_eq!(session.player.gold, 17);
}

#[test]
fn hostile_tile_is_visited_only_when_defeated() {
    let mut session = row_of_three();
    let m = monster(10);
    session.contents.insert(1, TileContent::Hostile(m.to_enemy_status(), m.to_enemy_label()));
    let mut rng = RNG::new(1);
    let out = session.click(RegionClickEvent(1), &mut rng);
    assert_eq!(out.attack, Some(AtkMonsterWithPlayerSkill(1)));
    assert!(out.changes.is_empty());
    assert_eq!(session.exploration.status(1), Some(RegionStatus::Found));
    let (hit, sound) = session.attack(out.attack.unwrap());
    assert_eq!(hit, Some(ChangeEnemyHpEvent(1, 1 - 10)));
    assert_eq!(sound, PlayAudioEvent(AudioSound::Dao5));
    assert_eq!(session.player.cur_hp, 100 - 2);
    assert_eq!(session.attack(AtkMonsterWithPlayerSkill(2)).0, None);
    assert_eq!(session.player.cur_hp, 100 - 2);
    let (changes, sounds) = session.damage(ChangeEnemyHpEvent(1, -4));
    assert!(changes.is_empty() && sounds.is_empty());
    let (changes, sounds) = session.damage(ChangeEnemyHpEvent(1, -6));
    assert_eq!(
        changes,
        vec![
            ChangeRegionStatusEvent(1, RegionStatus::Visited),
            ChangeRegionStatusEvent(2, RegionStatus::Found)
        ]
    );
    assert_eq!(sounds, vec![PlayAudioEvent(AudioSound::Click)]);
    match &session.contents[&1] {
        TileContent::Hostile(e, _) => assert_eq!(e.cur_hp, 0),
        _ => panic!("content changed kind"),
    }
    let (changes, _) = session.damage(ChangeEnemyHpEvent(1, -6));
    assert!(changes.is_empty());
    match &session.contents[&1] {
        TileContent::Hostile(e, l) => {
            assert_eq!((e.cur_hp, e.max_hp, e.atk, e.def), (0, 10, 3, 1));
            assert_eq!(l.name, "bat");
        }
        _ => panic!("content changed kind"),
    }
    let (changes, _) = session.damage(ChangeEnemyHpEvent(3, -6));
    assert!(changes.is_empty());
}

#[test]
fn generated_session_fills_rooms_only() {
    let steps = Pool::from_items(vec![
        Weight(vec![PlaneOrientation::Up, PlaneOrientation::Right], 1),
        Weight(vec![PlaneOrientation::Right, PlaneOrientation::Right], 1),
    ]);
    let monsters = Pool::from_items(vec![Weight(monster(5), 1)]);
    let values = Pool::from_items(vec![Weight(gold(1), 1)]);
    let mut regions = Regions::default();
    regions.scope = (10, 10);
    let mut rng = RNG::new(77);
    let session = Session::generate(regions, 80, &steps, &monsters, &values, &mut rng);
    assert_eq!(session.player, PlayerStatus::default());
    assert_eq!(session.contents.len(), session.regions.tiles.len());
    for (id, tile) in session.regions.tiles.iter() {
        let kind = tile.to_tile_type();
        let content = &session.contents[id];
        assert_eq!(matches!(content, TileContent::Empty), kind != TileType::Room);
        let expected = if kind == TileType::Started { RegionStatus::Found } else { RegionStatus::Mist };
        assert_eq!(session.exploration.status(*id), Some(expected));
    }
    assert_eq!(GEN_REGION_ITEMS, 32 * 32);
}
