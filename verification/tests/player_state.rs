use gbfr_logs::constants::CharacterType;
use gbfr_logs::events::{ActionType, Actor, DamageEvent, DamageModifierKind};
use gbfr_logs::player_state::{BuffContributionState, FerrySkillIds, PlayerState};

const FERRY_SKILLS: FerrySkillIds = FerrySkillIds {
    blaus_gespenst: 10,
    pendel: 11,
    strafe: 12,
    pet_normal: 20,
};

fn player(character_type: CharacterType, total_damage: u64) -> PlayerState {
    PlayerState {
        index: 0,
        character_type,
        total_damage,
        last_known_pet_skill: None,
        skill_breakdown: vec![],
        buff_breakdown: vec![],
    }
}

fn actor(index: u32, actor_type: CharacterType, parent_actor_type: CharacterType) -> Actor {
    Actor {
        index,
        actor_type,
        parent_actor_type,
        parent_index: 0,
    }
}

fn event(source: Actor, action_id: ActionType, damage: i32, flags: u64) -> DamageEvent {
    DamageEvent {
        source,
        target: actor(0, CharacterType::Unknown(0), CharacterType::Unknown(0)),
        action_id,
        damage,
        flags,
    }
}

fn plain_actor() -> Actor {
    actor(0, CharacterType::Unknown(0), CharacterType::Unknown(0))
}

#[test]
fn updates_from_damage_event() {
    let mut player_state = player(CharacterType::Pl0000, 0);
    let damage_event = event(plain_actor(), ActionType::Normal(1), 100, 0);

    player_state.update_from_damage_event(&damage_event, &FERRY_SKILLS);

    assert_eq!(player_state.total_damage, 100);
    assert_eq!(player_state.skill_breakdown.len(), 1);
    assert_eq!(player_state.skill_breakdown[0].total_damage, 100);
}

#[test]
fn same_skill_updates_from_multiple_damage_events() {
    let mut player_state = player(CharacterType::Pl0000, 0);
    let damage_event = event(plain_actor(), ActionType::Normal(1), 100, 0);

    player_state.update_from_damage_event(&damage_event, &FERRY_SKILLS);
    player_state.update_from_damage_event(&damage_event, &FERRY_SKILLS);
    player_state.update_from_damage_event(&damage_event, &FERRY_SKILLS);

    assert_eq!(player_state.total_damage, 300);
    assert_eq!(player_state.skill_breakdown.len(), 1);
    assert_eq!(player_state.skill_breakdown[0].total_damage, 300);
}

#[test]
fn new_skills_are_tracked_separately() {
    let mut player_state = player(CharacterType::Pl0000, 0);
    let skill_one = event(plain_actor(), ActionType::Normal(1), 100, 0);
    let skill_two = event(plain_actor(), ActionType::Normal(2), 100, 0);

    player_state.update_from_damage_event(&skill_one, &FERRY_SKILLS);
    player_state.update_from_damage_event(&skill_two, &FERRY_SKILLS);
    player_state.update_from_damage_event(&skill_two, &FERRY_SKILLS);

    assert_eq!(player_state.total_damage, 300);
    assert_eq!(player_state.skill_breakdown.len(), 2);
    assert_eq!(player_state.skill_breakdown[0].total_damage, 100);
    assert_eq!(player_state.skill_breakdown[1].total_damage, 200);
}

#[test]
fn skills_from_children_are_tracked_separately() {
    let mut player_state = player(CharacterType::Pl0000, 0);
    let parent_skill = event(plain_actor(), ActionType::Normal(1), 100, 0);
    let child_skill = event(
        actor(1, CharacterType::Unknown(1), CharacterType::Unknown(0)),
        ActionType::Normal(1),
        100,
        0,
    );

    player_state.update_from_damage_event(&parent_skill, &FERRY_SKILLS);
    player_state.update_from_damage_event(&child_skill, &FERRY_SKILLS);
    player_state.update_from_damage_event(&child_skill, &FERRY_SKILLS);

    assert_eq!(player_state.total_damage, 300);
    assert_eq!(player_state.skill_breakdown.len(), 2);
    assert_eq!(player_state.skill_breakdown[0].total_damage, 100);
    assert_eq!(player_state.skill_breakdown[1].total_damage, 200);
}

#[test]
fn damage_adds_to_an_existing_total() {
    let mut player_state = player(CharacterType::Pl0000, 100);
    let damage_event = event(plain_actor(), ActionType::Normal(1), 100, 0);

    player_state.update_from_damage_event(&damage_event, &FERRY_SKILLS);

    assert_eq!(player_state.total_damage, 200);
    assert_eq!(player_state.skill_breakdown[0].total_damage, 100);
    assert_eq!(player_state.skill_breakdown[0].hits, 1);
}

#[test]
fn skill_totals_add_up_to_the_player_total() {
    let mut player_state = player(CharacterType::Pl0000, 0);
    let hits = [
        event(plain_actor(), ActionType::Normal(1), 120, 0),
        event(plain_actor(), ActionType::Normal(2), 30, 0),
        event(plain_actor(), ActionType::LinkAttack, 500, 0),
        event(plain_actor(), ActionType::Normal(1), 7, 0),
        event(plain_actor(), ActionType::SupplementaryDamage(4), 11, 0),
    ];
    for hit in hits.iter() {
        player_state.update_from_damage_event(hit, &FERRY_SKILLS);
    }

    let skill_total: u64 = player_state.skill_breakdown.iter().map(|skill| skill.total_damage).sum();
    assert_eq!(player_state.total_damage, 668);
    assert_eq!(skill_total, 668);
    assert_eq!(player_state.skill_breakdown.len(), 4);
}

#[test]
fn supplementary_damage_shares_one_skill() {
    let mut player_state = player(CharacterType::Pl0000, 0);
    let first = event(plain_actor(), ActionType::SupplementaryDamage(1), 40, 0);
    let second = event(
        actor(2, CharacterType::Unknown(2), CharacterType::Unknown(0)),
        ActionType::SupplementaryDamage(9),
        60,
        0,
    );

    player_state.update_from_damage_event(&first, &FERRY_SKILLS);
    player_state.update_from_damage_event(&second, &FERRY_SKILLS);

    assert_eq!(player_state.skill_breakdown.len(), 1);
    assert_eq!(player_state.skill_breakdown[0].total_damage, 100);
    assert_eq!(player_state.skill_breakdown[0].hits, 2);
    assert_eq!(
        player_state.skill_breakdown[0].action_type,
        ActionType::SupplementaryDamage(1)
    );
}

#[test]
fn seofon_avatar_hits_count_as_seofon() {
    let mut player_state = player(CharacterType::Pl2200, 0);
    let own = event(
        actor(0, CharacterType::Pl2200, CharacterType::Pl2200),
        ActionType::Normal(5),
        10,
        0,
    );
    let avatar = event(
        actor(3, CharacterType::Unknown(77), CharacterType::Pl2200),
        ActionType::Normal(5),
        20,
        0,
    );

    player_state.update_from_damage_event(&own, &FERRY_SKILLS);
    player_state.update_from_damage_event(&avatar, &FERRY_SKILLS);

    assert_eq!(player_state.skill_breakdown.len(), 1);
    assert_eq!(player_state.skill_breakdown[0].child_character_type, CharacterType::Pl2200);
    assert_eq!(player_state.skill_breakdown[0].total_damage, 30);
}

fn ferry_pet() -> Actor {
    actor(1, CharacterType::Pl0700Ghost, CharacterType::Pl0700)
}

#[test]
fn ferry_pet_normal_attacks_are_filed_as_pet_normals() {
    let mut player_state = player(CharacterType::Pl0700, 0);
    let hit = event(ferry_pet(), ActionType::Normal(3), 50, 0);

    let action = player_state.get_action_from_ferry_damage_event(&hit, &FERRY_SKILLS);

    assert_eq!(action, ActionType::Normal(20));
    assert_eq!(player_state.last_known_pet_skill, None);
}

#[test]
fn ferry_pet_link_attack_is_kept() {
    let mut player_state = player(CharacterType::Pl0700, 0);
    let hit = event(ferry_pet(), ActionType::LinkAttack, 50, 0);

    let action = player_state.get_action_from_ferry_damage_event(&hit, &FERRY_SKILLS);

    assert_eq!(action, ActionType::LinkAttack);
}

#[test]
fn ferry_pet_skill_hits_follow_the_last_pet_skill() {
    let mut player_state = player(CharacterType::Pl0700, 0);
    let strafe = event(ferry_pet(), ActionType::Normal(12), 50, 1 << 2);
    let misreported = event(ferry_pet(), ActionType::Normal(99), 70, 1 << 2);

    let first = player_state.get_action_from_ferry_damage_event(&strafe, &FERRY_SKILLS);
    let second = player_state.get_action_from_ferry_damage_event(&misreported, &FERRY_SKILLS);

    assert_eq!(first, ActionType::Normal(12));
    assert_eq!(second, ActionType::Normal(12));
    assert_eq!(player_state.last_known_pet_skill, Some(ActionType::Normal(12)));
}

#[test]
fn ferry_pet_skill_without_a_known_skill_is_a_pet_normal() {
    let mut player_state = player(CharacterType::Pl0700, 0);
    let hit = event(ferry_pet(), ActionType::Normal(99), 70, 1 << 2);

    let action = player_state.get_action_from_ferry_damage_event(&hit, &FERRY_SKILLS);

    assert_eq!(action, ActionType::Normal(20));
    assert_eq!(player_state.last_known_pet_skill, None);
}

#[test]
fn ferry_own_hits_keep_their_action() {
    let mut player_state = player(CharacterType::Pl0700, 0);
    let hit = event(
        actor(0, CharacterType::Pl0700, CharacterType::Pl0700),
        ActionType::Normal(12),
        70,
        1 << 2,
    );

    let action = player_state.get_action_from_ferry_damage_event(&hit, &FERRY_SKILLS);

    assert_eq!(action, ActionType::Normal(12));
    assert_eq!(player_state.last_known_pet_skill, None);
}

#[test]
fn ferry_pet_hits_are_tracked_under_the_pet_skill() {
    let mut player_state = player(CharacterType::Pl0700, 0);
    let pendel = event(ferry_pet(), ActionType::Normal(11), 50, 1 << 2);
    let follow_up = event(ferry_pet(), ActionType::Normal(4), 25, 1 << 2);

    player_state.update_from_damage_event(&pendel, &FERRY_SKILLS);
    player_state.update_from_damage_event(&follow_up, &FERRY_SKILLS);

    assert_eq!(player_state.total_damage, 75);
    assert_eq!(player_state.skill_breakdown.len(), 1);
    assert_eq!(player_state.skill_breakdown[0].action_type, ActionType::Normal(11));
    assert_eq!(player_state.skill_breakdown[0].total_damage, 75);
}

#[test]
fn attack_buff_contribution_starts_a_record() {
    let mut player_state = player(CharacterType::Pl2900, 1_100);

    player_state.add_buff_contribution("StatusAttackBuff".to_string(), 7, 100);

    assert_eq!(player_state.total_damage, 1_100);
    assert!(player_state.skill_breakdown.is_empty());
    assert_eq!(player_state.buff_breakdown.len(), 1);
    assert_eq!(player_state.buff_breakdown[0].contributed_damage, 100);
    assert_eq!(player_state.buff_breakdown[0].active_hits, 1);
    assert_eq!(player_state.buff_breakdown[0].kind, DamageModifierKind::Attack);
}

#[test]
fn attack_buff_contributions_accumulate() {
    let mut player_state = player(CharacterType::Pl2900, 0);

    player_state.add_buff_contribution("StatusAttackBuff".to_string(), 7, 100);
    player_state.add_buff_contribution("StatusAttackBuff".to_string(), 8, 5);
    player_state.add_buff_contribution("StatusAttackBuff".to_string(), 7, 40);

    assert_eq!(player_state.buff_breakdown.len(), 2);
    assert_eq!(
        player_state.buff_breakdown[0],
        BuffContributionState {
            status_name: "StatusAttackBuff".to_string(),
            kind: DamageModifierKind::Attack,
            category: 7,
            active_hits: 2,
            contributed_damage: 140,
        }
    );
    assert_eq!(player_state.buff_breakdown[1].contributed_damage, 5);
    assert_eq!(player_state.total_damage, 0);
}

#[test]
fn zero_buff_contribution_is_not_recorded() {
    let mut player_state = player(CharacterType::Pl2900, 900);

    player_state.add_buff_contribution("StatusAttackBuff".to_string(), 7, 0);

    assert!(player_state.buff_breakdown.is_empty());
    assert_eq!(player_state.total_damage, 900);
}

#[test]
fn overflowing_hits_are_refused_before_counting() {
    let mut player_state = player(CharacterType::Pl0000, u64::MAX - 50);
    let small = event(plain_actor(), ActionType::Normal(1), 50, 0);
    let large = event(plain_actor(), ActionType::Normal(1), 51, 0);

    assert!(player_state.can_record_hit(&small, &FERRY_SKILLS));
    assert!(!player_state.can_record_hit(&large, &FERRY_SKILLS));

    player_state.update_from_damage_event(&small, &FERRY_SKILLS);
    assert_eq!(player_state.total_damage, u64::MAX);
    assert!(!player_state.can_record_hit(&small, &FERRY_SKILLS));
}

#[test]
fn overflowing_buff_credit_is_refused() {
    let mut player_state = player(CharacterType::Pl2900, 0);
    let name = "StatusAttackBuff".to_string();
    player_state.add_buff_contribution(name.clone(), 7, u64::MAX - 1);

    assert!(player_state.can_add_buff_contribution(&name, 7, 1));
    assert!(!player_state.can_add_buff_contribution(&name, 7, 2));
    assert!(player_state.can_add_buff_contribution(&name, 8, 2));
    assert!(player_state.can_add_buff_contribution(&name, 7, 0));
}

#[test]
fn ferry_pet_skill_is_remembered_across_other_hits() {
    let mut player_state = player(CharacterType::Pl0700, 0);
    let strafe = event(ferry_pet(), ActionType::Normal(12), 50, 1 << 2);
    let own_hit = event(
        actor(0, CharacterType::Pl0700, CharacterType::Pl0700),
        ActionType::Normal(7),
        10,
        0,
    );
    let pet_normal = event(ferry_pet(), ActionType::Normal(3), 5, 0);
    let dodge = event(ferry_pet(), ActionType::Normal(99), 70, 1 << 2);

    player_state.get_action_from_ferry_damage_event(&strafe, &FERRY_SKILLS);
    player_state.get_action_from_ferry_damage_event(&own_hit, &FERRY_SKILLS);
    player_state.get_action_from_ferry_damage_event(&pet_normal, &FERRY_SKILLS);
    let action = player_state.get_action_from_ferry_damage_event(&dodge, &FERRY_SKILLS);

    assert_eq!(action, ActionType::Normal(12));
    assert_eq!(player_state.last_known_pet_skill, Some(ActionType::Normal(12)));
}

#[test]
fn a_later_pet_skill_replaces_the_remembered_one() {
    let mut player_state = player(CharacterType::Pl0700, 0);
    let strafe = event(ferry_pet(), ActionType::Normal(12), 50, 1 << 2);
    let blaus = event(ferry_pet(), ActionType::Normal(10), 50, 1 << 2);
    let dodge = event(ferry_pet(), ActionType::Normal(99), 70, 1 << 2);

    player_state.get_action_from_ferry_damage_event(&strafe, &FERRY_SKILLS);
    player_state.get_action_from_ferry_damage_event(&blaus, &FERRY_SKILLS);
    let action = player_state.get_action_from_ferry_damage_event(&dodge, &FERRY_SKILLS);

    assert_eq!(action, ActionType::Normal(10));
}

#[test]
fn one_hit_credits_each_buff_once() {
    let mut player_state = player(CharacterType::Pl2900, 0);
    player_state.add_buff_contribution("StatusAttackBuff".to_string(), 7, 100);
    player_state.add_buff_contribution("StatusOther".to_string(), 1, 30);

    // The shares of one hit, one per buff.
    player_state.add_buff_contribution("StatusOther".to_string(), 1, 4);
    player_state.add_buff_contribution("StatusNew".to_string(), 2, 9);
    player_state.add_buff_contribution("StatusAttackBuff".to_string(), 7, 0);

    assert_eq!(player_state.buff_breakdown.len(), 3);
    assert_eq!(player_state.buff_breakdown[0].active_hits, 1);
    assert_eq!(player_state.buff_breakdown[0].contributed_damage, 100);
    assert_eq!(player_state.buff_breakdown[1].active_hits, 2);
    assert_eq!(player_state.buff_breakdown[1].contributed_damage, 34);
    assert_eq!(player_state.buff_breakdown[2].status_name, "StatusNew");
    assert_eq!(player_state.buff_breakdown[2].active_hits, 1);
    assert_eq!(player_state.buff_breakdown[2].contributed_damage, 9);
}

#[test]
fn hit_shares_are_credited_together() {
    let mut player_state = player(CharacterType::Pl2900, 500);
    player_state.add_buff_contribution("StatusAttackBuff".to_string(), 7, 100);

    let shares = vec![
        ("StatusNew".to_string(), 2, 9),
        ("StatusAttackBuff".to_string(), 7, 40),
        ("StatusZero".to_string(), 3, 0),
    ];
    assert!(player_state.can_credit_hit_shares(&shares));
    player_state.credit_hit_shares(shares);

    assert_eq!(player_state.total_damage, 500);
    assert_eq!(player_state.buff_breakdown.len(), 2);
    assert_eq!(player_state.buff_breakdown[0].active_hits, 2);
    assert_eq!(player_state.buff_breakdown[0].contributed_damage, 140);
    assert_eq!(player_state.buff_breakdown[1].status_name, "StatusNew");
    assert_eq!(player_state.buff_breakdown[1].active_hits, 1);
    assert_eq!(player_state.buff_breakdown[1].contributed_damage, 9);
}

#[test]
fn hit_shares_for_one_buff_twice_are_refused() {
    let player_state = player(CharacterType::Pl2900, 0);
    let twice = vec![
        ("StatusAttackBuff".to_string(), 7, 1),
        ("StatusAttackBuff".to_string(), 7, 2),
    ];
    assert!(!player_state.can_credit_hit_shares(&twice));
    let other_category = vec![
        ("StatusAttackBuff".to_string(), 7, 1),
        ("StatusAttackBuff".to_string(), 8, 2),
    ];
    assert!(player_state.can_credit_hit_shares(&other_category));
}

#[test]
fn overflowing_hit_shares_are_refused() {
    let mut player_state = player(CharacterType::Pl2900, 0);
    player_state.add_buff_contribution("StatusAttackBuff".to_string(), 7, u64::MAX - 1);
    let shares = vec![
        ("StatusOther".to_string(), 1, 5),
        ("StatusAttackBuff".to_string(), 7, 2),
    ];
    assert!(!player_state.can_credit_hit_shares(&shares));
}
