use que::creatures::Monster;
use que::events::{AudioSound, ChangeEnemyHpEvent, PlayAudioEvent};
use que::player::PlayerStatus;
use que::skills::{PlayerSkills, Skill, SkillEvent};

fn enemy() -> que::creatures::EnemyStatus {
    Monster {
        name: "wolf".to_string(),
        intro: String::new(),
        icon: String::new(),
        atk: 4,
        def: 1,
        hp: 50,
        image_label: String::new(),
    }
    .to_enemy_status()
}

fn skill(event: SkillEvent, cd: u32, cd_timer: u32) -> Skill {
    Skill { name: String::new(), description: String::new(), icon: String::new(), event, cd, cd_timer }
}

fn timers(s: &PlayerSkills) -> Vec<(SkillEvent, u32)> {
    s.skills.iter().map(|k| (k.event, k.cd_timer)).collect()
}

#[test]
fn default_skills_alternate_common_common_double() {
    let mut skills = PlayerSkills::default();
    assert_eq!(timers(&skills), vec![(SkillEvent::CommonAttack, 0), (SkillEvent::DoubleAttack, 1)]);
    let mut player = PlayerStatus::default();
    let e = enemy();
    let mut changes = Vec::new();
    for _ in 0..6 {
        let (change, sound) = skills.update_player_skills_order(7, &mut player, Some(&e));
        assert_eq!(sound, PlayAudioEvent(AudioSound::Dao5));
        changes.push(change);
    }
    let expected: Vec<Option<ChangeEnemyHpEvent>> = [-9, -9, -19, -9, -9, -19]
        .iter()
        .map(|d| Some(ChangeEnemyHpEvent(7, *d)))
        .collect();
    assert_eq!(changes, expected);
    assert_eq!(player.cur_hp, 100 - 6 * 3);
}

#[test]
fn first_turn_leaves_both_skills_ready() {
    let mut skills = PlayerSkills::default();
    let mut player = PlayerStatus::default();
    let e = enemy();
    skills.update_player_skills_order(1, &mut player, Some(&e));
    assert_eq!(timers(&skills), vec![(SkillEvent::CommonAttack, 0), (SkillEvent::DoubleAttack, 0)]);
}

#[test]
fn without_a_monster_only_the_skills_turn() {
    let mut skills = PlayerSkills::default();
    let mut player = PlayerStatus::default();
    assert_eq!(skills.update_player_skills_order(3, &mut player, None), (None, PlayAudioEvent(AudioSound::Dao5)));
    assert_eq!(player, PlayerStatus::default());
    assert_eq!(timers(&skills), vec![(SkillEvent::CommonAttack, 0), (SkillEvent::DoubleAttack, 0)]);
}

#[test]
fn the_least_timer_fires_first() {
    let mut skills = PlayerSkills { skills: Default::default() };
    skills.skills.push_back(skill(SkillEvent::CommonAttack, 5, 3));
    skills.skills.push_back(skill(SkillEvent::DoubleAttack, 0, 2));
    skills.skills.push_back(skill(SkillEvent::CommonAttack, 4, 2));
    let mut player = PlayerStatus::default();
    let e = enemy();
    let (r, _) = skills.update_player_skills_order(2, &mut player, Some(&e));
    assert_eq!(r, Some(ChangeEnemyHpEvent(2, 1 - 20)));
    assert_eq!(skills.skills[0].cd, 4);
    assert_eq!(skills.skills[2].cd, 0);
    assert_eq!(
        timers(&skills),
        vec![(SkillEvent::CommonAttack, 0), (SkillEvent::CommonAttack, 0), (SkillEvent::DoubleAttack, 0)]
    );
}

#[test]
fn weak_monsters_do_not_heal_the_player() {
    let mut skills = PlayerSkills::default();
    let mut player = PlayerStatus::default();
    player.def = 50;
    let e = enemy();
    skills.update_player_skills_order(1, &mut player, Some(&e));
    assert_eq!(player.cur_hp, 100);
}
