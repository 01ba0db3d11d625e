use vstd::prelude::*;

use crate::constants::CharacterType;
use crate::events::{ActionType, DamageEvent};

verus! {

/// The amount a hit adds to a damage total: the reported signed damage
/// converted as `damage as u64` converts it.
pub open spec fn damage_amount(damage: i32) -> u64 {
    damage as u64
}

/// A hit adds its reported damage, converted as `damage as u64` converts it:
/// a non-negative damage adds itself.
pub proof fn lemma_damage_amount(damage: i32)
    ensures
        damage_amount(damage) == damage as u64,
        damage >= 0 ==> damage_amount(damage) == damage,
{
}

/// Damage dealt with one action by one of a player's actors.
#[derive(Debug, Clone, Copy, PartialEq, Eq, Structural)]
pub struct SkillState {
    pub action_type: ActionType,
    pub child_character_type: CharacterType,
    pub hits: u32,
    pub total_damage: u64,
}

impl SkillState {
    /// A skill that has not landed a hit yet.
    pub open spec fn fresh(action_type: ActionType, child_character_type: CharacterType) -> SkillState {
        SkillState { action_type, child_character_type, hits: 0, total_damage: 0 }
    }

    /// Recording one more hit of `damage` keeps both counters in range.
    pub open spec fn can_record(self, damage: i32) -> bool {
        &&& self.hits < u32::MAX
        &&& self.total_damage + damage_amount(damage) <= u64::MAX
    }

    /// The skill after one more hit of `damage`.
    pub open spec fn recorded(self, damage: i32) -> SkillState {
        SkillState {
            action_type: self.action_type,
            child_character_type: self.child_character_type,
            hits: (self.hits + 1) as u32,
            total_damage: (self.total_damage + damage_amount(damage)) as u64,
        }
    }

    pub fn new(action_type: ActionType, child_character_type: CharacterType) -> (skill: SkillState)
        ensures
            skill == SkillState::fresh(action_type, child_character_type),
    {
        SkillState { action_type, child_character_type, hits: 0, total_damage: 0 }
    }

    /// Counts one hit of `event` against this skill.
    pub fn update_from_damage_event(&mut self, event: &DamageEvent)
        requires
            old(self).can_record(event.damage),
        ensures
            *final(self) == old(self).recorded(event.damage),
    {
        self.hits = self.hits + 1;
        self.total_damage = self.total_damage + event.damage as u64;
    }
}

/// A hit of `action` by `child` belongs to `skill`: all supplementary damage
/// shares one skill, anything else shares a skill with the same action by the
/// same character.
pub open spec fn skill_matches(skill: SkillState, action: ActionType, child: CharacterType) -> bool {
    ||| (skill.action_type is SupplementaryDamage && action is SupplementaryDamage)
    ||| (skill.action_type == action && skill.child_character_type == child)
}

/// The index of the first skill that a hit of `action` by `child` belongs to.
pub open spec fn first_matching_skill(
    skills: Seq<SkillState>,
    action: ActionType,
    child: CharacterType,
) -> Option<int>
    decreases skills.len(),
{
    if skills.len() == 0 {
        None
    } else {
        match first_matching_skill(skills.drop_last(), action, child) {
            Some(i) => Some(i),
            None => if skill_matches(skills.last(), action, child) {
                Some(skills.len() - 1)
            } else {
                None
            },
        }
    }
}

/// The skill breakdown after a hit of `damage` with `action` by `child`: the
/// first skill it belongs to counts it, or a new skill is appended for it.
pub open spec fn skills_after_hit(
    skills: Seq<SkillState>,
    action: ActionType,
    child: CharacterType,
    damage: i32,
) -> Seq<SkillState> {
    match first_matching_skill(skills, action, child) {
        Some(i) => skills.update(i, skills[i].recorded(damage)),
        None => skills.push(SkillState::fresh(action, child).recorded(damage)),
    }
}

/// The skill that a hit of `damage` with `action` by `child` goes to can count
/// it without overflowing.
pub open spec fn can_take_hit(
    skills: Seq<SkillState>,
    action: ActionType,
    child: CharacterType,
    damage: i32,
) -> bool {
    match first_matching_skill(skills, action, child) {
        Some(i) => skills[i].can_record(damage),
        None => true,
    }
}

/// The damage of all skills together.
pub open spec fn total_skill_damage(skills: Seq<SkillState>) -> int
    decreases skills.len(),
{
    if skills.len() == 0 {
        0
    } else {
        total_skill_damage(skills.drop_last()) + skills.last().total_damage
    }
}

/// No hit could belong to two skills of the breakdown.
pub open spec fn skills_keyed_uniquely(skills: Seq<SkillState>) -> bool {
    forall|i: int, j: int|
        0 <= i < j < skills.len() ==> !skill_matches(
            #[trigger] skills[j],
            #[trigger] skills[i].action_type,
            skills[i].child_character_type,
        )
}

pub proof fn lemma_first_matching_skill(skills: Seq<SkillState>, action: ActionType, child: CharacterType)
    ensures
        match first_matching_skill(skills, action, child) {
            Some(i) => {
                &&& 0 <= i < skills.len()
                &&& skill_matches(skills[i], action, child)
                &&& forall|j: int| 0 <= j < i ==> !skill_matches(#[trigger] skills[j], action, child)
            },
            None => forall|j: int| 0 <= j < skills.len() ==> !skill_matches(#[trigger] skills[j], action, child),
        },
    decreases skills.len(),
{
    if skills.len() > 0 {
        let prefix = skills.drop_last();
        lemma_first_matching_skill(prefix, action, child);
        assert forall|j: int| 0 <= j < prefix.len() implies prefix[j] == skills[j] by {}
        if first_matching_skill(prefix, action, child) is None {
            assert forall|j: int| 0 <= j < skills.len() - 1 implies !skill_matches(
                #[trigger] skills[j],
                action,
                child,
            ) by {
                assert(prefix[j] == skills[j]);
            }
        }
    }
}

proof fn lemma_total_skill_damage_update(skills: Seq<SkillState>, i: int, skill: SkillState)
    requires
        0 <= i < skills.len(),
    ensures
        total_skill_damage(skills.update(i, skill)) == total_skill_damage(skills)
            - skills[i].total_damage + skill.total_damage,
    decreases skills.len(),
{
    let updated = skills.update(i, skill);
    if i == skills.len() - 1 {
        assert(updated.drop_last() =~= skills.drop_last());
    } else {
        assert(updated.drop_last() =~= skills.drop_last().update(i, skill));
        lemma_total_skill_damage_update(skills.drop_last(), i, skill);
    }
}

/// Every hit is counted by exactly one skill: the skills' damage grows by the
/// hit's damage, whether the hit joins a tracked skill or starts a new one.
pub proof fn lemma_hit_counted_once(
    skills: Seq<SkillState>,
    action: ActionType,
    child: CharacterType,
    damage: i32,
)
    requires
        can_take_hit(skills, action, child, damage),
    ensures
        total_skill_damage(skills_after_hit(skills, action, child, damage)) == total_skill_damage(
            skills,
        ) + damage_amount(damage),
{
    lemma_first_matching_skill(skills, action, child);
    match first_matching_skill(skills, action, child) {
        Some(i) => {
            lemma_total_skill_damage_update(skills, i, skills[i].recorded(damage));
        },
        None => {
            let pushed = skills.push(SkillState::fresh(action, child).recorded(damage));
            assert(pushed.drop_last() =~= skills);
            assert(pushed.last() == SkillState::fresh(action, child).recorded(damage));
        },
    }
}

/// A hit never makes two skills that one hit could belong to: a breakdown in
/// which every skill has its own key keeps that property.
pub proof fn lemma_hit_keeps_skills_keyed_uniquely(
    skills: Seq<SkillState>,
    action: ActionType,
    child: CharacterType,
    damage: i32,
)
    requires
        skills_keyed_uniquely(skills),
    ensures
        skills_keyed_uniquely(skills_after_hit(skills, action, child, damage)),
{
    lemma_first_matching_skill(skills, action, child);
    let after = skills_after_hit(skills, action, child, damage);
    match first_matching_skill(skills, action, child) {
        Some(k) => {
            assert forall|i: int, j: int| 0 <= i < j < after.len() implies !skill_matches(
                #[trigger] after[j],
                #[trigger] after[i].action_type,
                after[i].child_character_type,
            ) by {
                assert(skills[i].action_type == after[i].action_type);
                assert(skills[i].child_character_type == after[i].child_character_type);
                assert(skills[j].action_type == after[j].action_type);
                assert(skills[j].child_character_type == after[j].child_character_type);
                assert(!skill_matches(skills[j], skills[i].action_type, skills[i].child_character_type));
            }
        },
        None => {
            assert forall|i: int, j: int| 0 <= i < j < after.len() implies !skill_matches(
                #[trigger] after[j],
                #[trigger] after[i].action_type,
                after[i].child_character_type,
            ) by {
                if j < skills.len() {
                    assert(!skill_matches(skills[j], skills[i].action_type, skills[i].child_character_type));
                } else {
                    assert(!skill_matches(skills[i], action, child));
                }
            }
        },
    }
}

/// A hit changes the breakdown in one place: every skill keeps its index,
/// action and character, and exactly one skill counts the hit, either the
/// first one it belongs to or one appended for it, all others unchanged.
pub proof fn lemma_hit_absorbed_by_one_skill(
    skills: Seq<SkillState>,
    action: ActionType,
    child: CharacterType,
    damage: i32,
)
    ensures
        ({
            let after = skills_after_hit(skills, action, child, damage);
            &&& skills.len() <= after.len() <= skills.len() + 1
            &&& forall|i: int|
                0 <= i < skills.len() ==> (#[trigger] after[i]).action_type == skills[i].action_type
                    && after[i].child_character_type == skills[i].child_character_type
            &&& exists|k: int|
                {
                    &&& 0 <= k < after.len()
                    &&& (if k < skills.len() {
                        after[k] == skills[k].recorded(damage)
                    } else {
                        after[k] == SkillState::fresh(action, child).recorded(damage)
                    })
                    &&& forall|i: int| 0 <= i < skills.len() && i != k ==> #[trigger] after[i] == skills[i]
                }
        }),
{
    lemma_first_matching_skill(skills, action, child);
    let after = skills_after_hit(skills, action, child, damage);
    match first_matching_skill(skills, action, child) {
        Some(k) => {
            assert(after[k] == skills[k].recorded(damage));
        },
        None => {
            let k = skills.len() as int;
            assert(after[k] == SkillState::fresh(action, child).recorded(damage));
        },
    }
}

/// A hit goes to the first skill tracked for the same action by the same
/// character, where supplementary damage of any kind counts as one action;
/// only when there is no such skill is one appended, with the hit as its only
/// hit. Hits of different actions never share a skill unless both are
/// supplementary damage, and no other skill changes.
pub proof fn lemma_hit_goes_to_its_own_skill(
    skills: Seq<SkillState>,
    action: ActionType,
    child: CharacterType,
    damage: i32,
)
    ensures
        (exists|i: int|
            0 <= i < skills.len() && ((#[trigger] skills[i].action_type is SupplementaryDamage
                && action is SupplementaryDamage) || (skills[i].action_type == action
                && skills[i].child_character_type == child))) ==> exists|k: int|
            {
                &&& 0 <= k < skills.len()
                &&& ((#[trigger] skills[k].action_type is SupplementaryDamage
                    && action is SupplementaryDamage) || (skills[k].action_type == action
                    && skills[k].child_character_type == child))
                &&& forall|j: int|
                    0 <= j < k ==> !((#[trigger] skills[j].action_type is SupplementaryDamage
                        && action is SupplementaryDamage) || (skills[j].action_type == action
                        && skills[j].child_character_type == child))
                &&& skills_after_hit(skills, action, child, damage) == skills.update(
                    k,
                    SkillState {
                        action_type: skills[k].action_type,
                        child_character_type: skills[k].child_character_type,
                        hits: (skills[k].hits + 1) as u32,
                        total_damage: (skills[k].total_damage + (damage as u64)) as u64,
                    },
                )
            },
        (forall|i: int|
            0 <= i < skills.len() ==> !((#[trigger] skills[i].action_type is SupplementaryDamage
                && action is SupplementaryDamage) || (skills[i].action_type == action
                && skills[i].child_character_type == child))) ==> skills_after_hit(
            skills,
            action,
            child,
            damage,
        ) == skills.push(
            SkillState {
                action_type: action,
                child_character_type: child,
                hits: 1,
                total_damage: damage as u64,
            },
        ),
{
    lemma_first_matching_skill(skills, action, child);
    match first_matching_skill(skills, action, child) {
        Some(k) => {
            assert(skill_matches(skills[k], action, child));
            assert forall|j: int| 0 <= j < k implies !((#[trigger] skills[j].action_type is SupplementaryDamage
                && action is SupplementaryDamage) || (skills[j].action_type == action
                && skills[j].child_character_type == child)) by {
                assert(!skill_matches(skills[j], action, child));
            }
        },
        None => {
            assert forall|i: int| 0 <= i < skills.len() implies !((#[trigger] skills[i].action_type is SupplementaryDamage
                && action is SupplementaryDamage) || (skills[i].action_type == action
                && skills[i].child_character_type == child)) by {
                assert(!skill_matches(skills[i], action, child));
            }
        },
    }
}

/// The index of the first skill of `skills` that a hit of `action` by `child`
/// belongs to.
pub(crate) fn find_skill(skills: &Vec<SkillState>, action: ActionType, child: CharacterType) -> (index: Option<usize>)
    ensures
        index is None <==> first_matching_skill(skills@, action, child) is None,
        index matches Some(i) ==> first_matching_skill(skills@, action, child) == Some(i as int) && i < skills@.len(),
{
    let ghost all = skills@;
    let n = skills.len();
    let mut i: usize = 0;
    while i < n
        invariant
            n == all.len(),
            all == skills@,
            0 <= i <= n,
            forall|j: int| 0 <= j < i ==> !skill_matches(#[trigger] all[j], action, child),
        decreases n - i,
    {
        let skill = &skills[i];
        // All supplementary damage goes to the same skill.
        let same_skill = (matches!(skill.action_type, ActionType::SupplementaryDamage(_))
            && matches!(action, ActionType::SupplementaryDamage(_))) || (skill.action_type == action
            && skill.child_character_type == child);
        if same_skill {
            proof {
                lemma_first_matching_skill(all, action, child);
                assert(skill_matches(all[i as int], action, child));
            }
            return Some(i);
        }
        i = i + 1;
    }
    proof {
        lemma_first_matching_skill(all, action, child);
    }
    None
}

/// Counts a hit of `event` with `action` by `child` in the breakdown `skills`.
pub(crate) fn record_skill_hit(
    skills: &mut Vec<SkillState>,
    action: ActionType,
    child: CharacterType,
    event: &DamageEvent,
)
    requires
        can_take_hit(old(skills)@, action, child, event.damage),
    ensures
        final(skills)@ == skills_after_hit(old(skills)@, action, child, event.damage),
{
    proof {
        lemma_first_matching_skill(skills@, action, child);
    }
    match find_skill(skills, action, child) {
        Some(i) => {
            // The skill is already being tracked: update it.
            let mut skill = skills[i];
            skill.update_from_damage_event(event);
            skills.set(i, skill);
        },
        None => {
            // Otherwise, create a new skill and track it.
            let mut skill = SkillState::new(action, child);
            skill.update_from_damage_event(event);
            skills.push(skill);
        },
    }
}

} // verus!
