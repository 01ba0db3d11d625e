use vstd::prelude::*;

use crate::constants::CharacterType;
use crate::events::{ActionType, DamageEvent, DamageModifierKind};
use crate::skill_state::{
    can_take_hit, damage_amount, find_skill, lemma_hit_absorbed_by_one_skill, lemma_hit_counted_once,
    lemma_hit_keeps_skills_keyed_uniquely, record_skill_hit, skills_after_hit, skills_keyed_uniquely,
    total_skill_damage, SkillState,
};

verus! {

/// Bit of a damage event's flags that the game sets on every hit of one of
/// Ferry's pet skills.
pub const FERRY_PET_SKILL_FLAG: u64 = 1 << 2;

/// The action ids of Ferry's pet skills that the parser tracks: the three
/// skills whose later hits it attributes to the skill, and the id it files
/// her pets' normal attacks under.
#[derive(Debug, Clone, Copy, PartialEq, Eq, Structural)]
pub struct FerrySkillIds {
    pub blaus_gespenst: u32,
    pub pendel: u32,
    pub strafe: u32,
    pub pet_normal: u32,
}

impl FerrySkillIds {
    /// `action` is one of the tracked pet skills. Umlauf is not among them:
    /// it uses an actor of its own, which the game attributes correctly.
    pub open spec fn tracks(self, action: ActionType) -> bool {
        ||| action == ActionType::Normal(self.blaus_gespenst)
        ||| action == ActionType::Normal(self.pendel)
        ||| action == ActionType::Normal(self.strafe)
    }

    /// The action that Ferry's pet normal attacks are filed under.
    pub open spec fn pet_normal_action(self) -> ActionType {
        ActionType::Normal(self.pet_normal)
    }

    pub fn is_tracked(&self, action: ActionType) -> (tracked_skill: bool)
        ensures
            tracked_skill == self.tracks(action),
    {
        action == ActionType::Normal(self.blaus_gespenst) || action == ActionType::Normal(self.pendel)
            || action == ActionType::Normal(self.strafe)
    }
}

/// The hit comes from one of Ferry's pets.
pub open spec fn is_ferry_pet(event: DamageEvent) -> bool {
    event.source.actor_type == CharacterType::Pl0700Ghost
}

/// The hit comes from one of Ferry's pet skills.
pub open spec fn is_ferry_pet_skill(event: DamageEvent) -> bool {
    is_ferry_pet(event) && event.flags & FERRY_PET_SKILL_FLAG != 0
}

/// The hit is a normal attack of one of Ferry's pets.
pub open spec fn is_ferry_pet_normal(event: DamageEvent) -> bool {
    is_ferry_pet(event) && !is_ferry_pet_skill(event) && event.action_id != ActionType::LinkAttack
}

/// The last pet skill Ferry is known to have used, once `event` is seen.
pub open spec fn pet_skill_after(
    last_known: Option<ActionType>,
    event: DamageEvent,
    ferry_skills: FerrySkillIds,
) -> Option<ActionType> {
    if is_ferry_pet_skill(event) && ferry_skills.tracks(event.action_id) {
        Some(event.action_id)
    } else {
        last_known
    }
}

/// The action a hit of one of Ferry's actors is filed under, given the last
/// pet skill known once the hit is seen. The game often reports a pet skill's
/// later hits under whatever Ferry did last, so they go to the last pet skill.
pub open spec fn ferry_action(
    last_known: Option<ActionType>,
    event: DamageEvent,
    ferry_skills: FerrySkillIds,
) -> ActionType {
    if is_ferry_pet_normal(event) {
        ferry_skills.pet_normal_action()
    } else if is_ferry_pet_skill(event) {
        match last_known {
            None => ferry_skills.pet_normal_action(),
            Some(skill) => skill,
        }
    } else {
        event.action_id
    }
}

/// The character a hit is filed under: everything Seofon's avatar does counts
/// as Seofon's own.
pub open spec fn attributed_child(event: DamageEvent) -> CharacterType {
    if event.source.parent_actor_type == CharacterType::Pl2200 {
        CharacterType::Pl2200
    } else {
        event.source.actor_type
    }
}

/// The last pet skill known once a player sees `event`.
pub open spec fn attributed_pet_skill(
    last_known: Option<ActionType>,
    event: DamageEvent,
    ferry_skills: FerrySkillIds,
) -> Option<ActionType> {
    if event.source.parent_actor_type == CharacterType::Pl0700 {
        pet_skill_after(last_known, event, ferry_skills)
    } else {
        last_known
    }
}

/// The action a player files `event` under.
pub open spec fn attributed_action(
    last_known: Option<ActionType>,
    event: DamageEvent,
    ferry_skills: FerrySkillIds,
) -> ActionType {
    if event.source.parent_actor_type == CharacterType::Pl0700 {
        ferry_action(pet_skill_after(last_known, event, ferry_skills), event, ferry_skills)
    } else {
        event.action_id
    }
}

/// The last known pet skill is only ever one of the tracked pet skills: hits
/// keep a player without one, or with a tracked one, that way.
pub proof fn lemma_last_pet_skill_is_tracked(
    last_known: Option<ActionType>,
    event: DamageEvent,
    ferry_skills: FerrySkillIds,
)
    requires
        last_known matches Some(skill) ==> ferry_skills.tracks(skill),
    ensures
        attributed_pet_skill(last_known, event, ferry_skills) matches Some(skill) ==> ferry_skills.tracks(
            skill,
        ),
{
}

/// The last known pet skill after a series of hits of Ferry's actors, each
/// seen as `get_action_from_ferry_damage_event` sees it.
pub open spec fn pet_skill_after_hits(
    last_known: Option<ActionType>,
    events: Seq<DamageEvent>,
    ferry_skills: FerrySkillIds,
) -> Option<ActionType>
    decreases events.len(),
{
    if events.len() == 0 {
        last_known
    } else {
        pet_skill_after(
            pet_skill_after_hits(last_known, events.drop_last(), ferry_skills),
            events.last(),
            ferry_skills,
        )
    }
}

/// The hit records a pet skill: it is a hit of one of Ferry's pet skills
/// whose action is a tracked pet skill.
pub open spec fn records_pet_skill(event: DamageEvent, ferry_skills: FerrySkillIds) -> bool {
    is_ferry_pet_skill(event) && ferry_skills.tracks(event.action_id)
}

/// Hits that record no pet skill leave the last known pet skill as it was.
pub proof fn lemma_pet_skill_kept_until_recorded(
    last_known: Option<ActionType>,
    events: Seq<DamageEvent>,
    ferry_skills: FerrySkillIds,
)
    requires
        forall|k: int| 0 <= k < events.len() ==> !records_pet_skill(#[trigger] events[k], ferry_skills),
    ensures
        pet_skill_after_hits(last_known, events, ferry_skills) == last_known,
    decreases events.len(),
{
    if events.len() > 0 {
        let prefix = events.drop_last();
        assert forall|k: int| 0 <= k < prefix.len() implies !records_pet_skill(
            #[trigger] prefix[k],
            ferry_skills,
        ) by {
            assert(prefix[k] == events[k]);
        }
        lemma_pet_skill_kept_until_recorded(last_known, prefix, ferry_skills);
        assert(!records_pet_skill(events[events.len() - 1], ferry_skills));
    }
}

/// A pet skill hit whose reported action is not a tracked pet skill (a dodge
/// reported for a strafe's later hits, say) is filed under the last pet skill
/// Ferry used, and leaves that skill remembered.
pub proof fn lemma_pet_skill_hit_follows_last_pet_skill(
    skill: ActionType,
    event: DamageEvent,
    ferry_skills: FerrySkillIds,
)
    requires
        is_ferry_pet_skill(event),
        !ferry_skills.tracks(event.action_id),
    ensures
        pet_skill_after(Some(skill), event, ferry_skills) == Some(skill),
        ferry_action(pet_skill_after(Some(skill), event, ferry_skills), event, ferry_skills) == skill,
{
}

/// How a hit of one of Ferry's actors is attributed. Only an actor of type
/// `Pl0700Ghost` is one of her pets; any other actor (Ferry herself, or the
/// separate actor of Umlauf) keeps its reported action and leaves the last
/// pet skill alone. A pet hit without the pet-skill flag (bit 2) is a pet
/// normal attack, unless it is a link attack. A pet hit with the flag
/// remembers its action when that is Blaus Gespenst, Pendel or Strafe, and is
/// filed under the last remembered pet skill, or as a pet normal attack when
/// none is remembered.
pub proof fn lemma_ferry_attribution(
    last_known: Option<ActionType>,
    event: DamageEvent,
    ferry_skills: FerrySkillIds,
)
    ensures
        ({
            let after = pet_skill_after(last_known, event, ferry_skills);
            let action = ferry_action(after, event, ferry_skills);
            let pet = event.source.actor_type == CharacterType::Pl0700Ghost;
            let flagged = event.flags & 4 != 0;
            let remembered_skill = event.action_id == ActionType::Normal(ferry_skills.blaus_gespenst)
                || event.action_id == ActionType::Normal(ferry_skills.pendel)
                || event.action_id == ActionType::Normal(ferry_skills.strafe);
            &&& !pet ==> after == last_known && action == event.action_id
            &&& pet && !flagged && event.action_id != ActionType::LinkAttack ==> after == last_known
                && action == ActionType::Normal(ferry_skills.pet_normal)
            &&& pet && !flagged && event.action_id == ActionType::LinkAttack ==> after == last_known
                && action == ActionType::LinkAttack
            &&& pet && flagged && remembered_skill ==> after == Some(event.action_id) && action
                == event.action_id
            &&& pet && flagged && !remembered_skill ==> after == last_known && action == (match last_known {
                Some(skill) => skill,
                None => ActionType::Normal(ferry_skills.pet_normal),
            })
        }),
{
    assert(FERRY_PET_SKILL_FLAG == 4u64) by (bit_vector);
}

/// Which action and character a player files a hit under: only a hit of one
/// of Ferry's actors (parent `Pl0700`) is attributed as Ferry's hits are, and
/// it leaves the last pet skill alone otherwise; a hit is filed under the
/// character of its own actor, except that everything Seofon's avatar does
/// (parent `Pl2200`) is filed under Seofon.
pub proof fn lemma_hit_attribution(
    last_known: Option<ActionType>,
    event: DamageEvent,
    ferry_skills: FerrySkillIds,
)
    ensures
        event.source.parent_actor_type != CharacterType::Pl0700 ==> attributed_action(
            last_known,
            event,
            ferry_skills,
        ) == event.action_id && attributed_pet_skill(last_known, event, ferry_skills) == last_known,
        event.source.parent_actor_type == CharacterType::Pl0700 ==> attributed_action(
            last_known,
            event,
            ferry_skills,
        ) == ferry_action(
            attributed_pet_skill(last_known, event, ferry_skills),
            event,
            ferry_skills,
        ),
        event.source.parent_actor_type == CharacterType::Pl0700 && event.source.actor_type
            != CharacterType::Pl0700Ghost ==> attributed_action(last_known, event, ferry_skills)
            == event.action_id && attributed_pet_skill(last_known, event, ferry_skills) == last_known,
        event.source.parent_actor_type == CharacterType::Pl2200 ==> attributed_child(event)
            == CharacterType::Pl2200,
        event.source.parent_actor_type != CharacterType::Pl2200 ==> attributed_child(event)
            == event.source.actor_type,
{
    lemma_ferry_attribution(last_known, event, ferry_skills);
}

fn is_ferry_pet_skill_hit(event: &DamageEvent) -> (pet_skill: bool)
    ensures
        pet_skill == is_ferry_pet_skill(*event),
{
    let is_ferry_pet = event.source.actor_type == CharacterType::Pl0700Ghost;
    // Pet skills for Ferry always have this flag set.
    is_ferry_pet && (event.flags & FERRY_PET_SKILL_FLAG != 0)
}

fn is_ferry_pet_normal_hit(event: &DamageEvent) -> (pet_normal: bool)
    ensures
        pet_normal == is_ferry_pet_normal(*event),
{
    let is_ferry_pet = event.source.actor_type == CharacterType::Pl0700Ghost;
    is_ferry_pet && !is_ferry_pet_skill_hit(event) && event.action_id != ActionType::LinkAttack
}

fn ferry_pet_skill_after(
    last_known: Option<ActionType>,
    event: &DamageEvent,
    ferry_skills: &FerrySkillIds,
) -> (after: Option<ActionType>)
    ensures
        after == pet_skill_after(last_known, *event, *ferry_skills),
{
    // Umlauf is excluded since it uses a separate actor, which works correctly.
    if is_ferry_pet_skill_hit(event) && ferry_skills.is_tracked(event.action_id) {
        Some(event.action_id)
    } else {
        last_known
    }
}

fn ferry_action_of(
    last_known: Option<ActionType>,
    event: &DamageEvent,
    ferry_skills: &FerrySkillIds,
) -> (action: ActionType)
    ensures
        action == ferry_action(last_known, *event, *ferry_skills),
{
    let pet_normal = ActionType::Normal(ferry_skills.pet_normal);
    if is_ferry_pet_normal_hit(event) {
        // The pet part of Onslaught counts as a pet normal too: it does exactly
        // as much as one.
        pet_normal
    } else if is_ferry_pet_skill_hit(event) {
        match last_known {
            None => pet_normal,
            Some(skill_id) => skill_id,
        }
    } else {
        event.action_id
    }
}

fn child_character_type_of(event: &DamageEvent) -> (child: CharacterType)
    ensures
        child == attributed_child(*event),
{
    let parent_character_type = event.source.parent_actor_type;
    // Collapse all skill IDs from Seofon's avatar into his own.
    if parent_character_type == CharacterType::Pl2200 {
        parent_character_type
    } else {
        event.source.actor_type
    }
}

/// Damage attributed to a detected buff. This is informational and is never
/// added to encounter, player, or skill damage totals.
#[derive(Debug, Clone, PartialEq)]
pub struct BuffContributionState {
    pub status_name: String,
    pub kind: DamageModifierKind,
    pub category: i32,
    pub active_hits: u32,
    pub contributed_damage: u64,
}

impl BuffContributionState {
    /// Crediting one more hit with `contributed_damage` keeps both counters in
    /// range.
    pub open spec fn can_credit(self, contributed_damage: u64) -> bool {
        &&& self.active_hits < u32::MAX
        &&& self.contributed_damage + contributed_damage <= u64::MAX
    }

    /// The record after one more hit credited with `contributed_damage`.
    pub open spec fn credited(self, contributed_damage: u64) -> BuffContributionState {
        BuffContributionState {
            status_name: self.status_name,
            kind: self.kind,
            category: self.category,
            active_hits: (self.active_hits + 1) as u32,
            contributed_damage: (self.contributed_damage + contributed_damage) as u64,
        }
    }
}

/// A share of a hit credited to the attack buff `status_name` of `category`
/// belongs to `buff`.
pub open spec fn buff_matches(buff: BuffContributionState, status_name: Seq<char>, category: i32) -> bool {
    &&& buff.status_name@ == status_name
    &&& buff.kind == DamageModifierKind::Attack
    &&& buff.category == category
}

/// The index of the first record that a share credited to the attack buff
/// `status_name` of `category` belongs to.
pub open spec fn first_matching_buff(
    buffs: Seq<BuffContributionState>,
    status_name: Seq<char>,
    category: i32,
) -> Option<int>
    decreases buffs.len(),
{
    if buffs.len() == 0 {
        None
    } else {
        match first_matching_buff(buffs.drop_last(), status_name, category) {
            Some(i) => Some(i),
            None => if buff_matches(buffs.last(), status_name, category) {
                Some(buffs.len() - 1)
            } else {
                None
            },
        }
    }
}

/// The buff breakdown after crediting `contributed_damage` to the attack buff
/// `status_name` of `category`: a zero share is dropped, a buff already tracked
/// counts one more active hit, and any other buff starts a record of its own.
pub open spec fn buffs_after_credit(
    buffs: Seq<BuffContributionState>,
    status_name: String,
    category: i32,
    contributed_damage: u64,
) -> Seq<BuffContributionState> {
    if contributed_damage == 0 {
        buffs
    } else {
        match first_matching_buff(buffs, status_name@, category) {
            Some(i) => buffs.update(i, buffs[i].credited(contributed_damage)),
            None => buffs.push(
                BuffContributionState {
                    status_name,
                    kind: DamageModifierKind::Attack,
                    category,
                    active_hits: 1,
                    contributed_damage,
                },
            ),
        }
    }
}

/// The record that a share credited to the attack buff `status_name` of
/// `category` goes to can count it without overflowing.
pub open spec fn can_take_credit(
    buffs: Seq<BuffContributionState>,
    status_name: Seq<char>,
    category: i32,
    contributed_damage: u64,
) -> bool {
    contributed_damage == 0 || match first_matching_buff(buffs, status_name, category) {
        Some(i) => buffs[i].can_credit(contributed_damage),
        None => true,
    }
}

/// The damage credited to all buffs together.
pub open spec fn total_buff_damage(buffs: Seq<BuffContributionState>) -> int
    decreases buffs.len(),
{
    if buffs.len() == 0 {
        0
    } else {
        total_buff_damage(buffs.drop_last()) + buffs.last().contributed_damage
    }
}

pub proof fn lemma_first_matching_buff(buffs: Seq<BuffContributionState>, status_name: Seq<char>, category: i32)
    ensures
        match first_matching_buff(buffs, status_name, category) {
            Some(i) => {
                &&& 0 <= i < buffs.len()
                &&& buff_matches(buffs[i], status_name, category)
                &&& forall|j: int| 0 <= j < i ==> !buff_matches(#[trigger] buffs[j], status_name, category)
            },
            None => forall|j: int|
                0 <= j < buffs.len() ==> !buff_matches(#[trigger] buffs[j], status_name, category),
        },
    decreases buffs.len(),
{
    if buffs.len() > 0 {
        let prefix = buffs.drop_last();
        lemma_first_matching_buff(prefix, status_name, category);
        assert forall|j: int| 0 <= j < prefix.len() implies prefix[j] == buffs[j] by {}
        if first_matching_buff(prefix, status_name, category) is None {
            assert forall|j: int| 0 <= j < buffs.len() - 1 implies !buff_matches(
                #[trigger] buffs[j],
                status_name,
                category,
            ) by {
                assert(prefix[j] == buffs[j]);
            }
        }
    }
}

proof fn lemma_total_buff_damage_update(
    buffs: Seq<BuffContributionState>,
    i: int,
    buff: BuffContributionState,
)
    requires
        0 <= i < buffs.len(),
    ensures
        total_buff_damage(buffs.update(i, buff)) == total_buff_damage(buffs)
            - buffs[i].contributed_damage + buff.contributed_damage,
    decreases buffs.len(),
{
    let updated = buffs.update(i, buff);
    if i == buffs.len() - 1 {
        assert(updated.drop_last() =~= buffs.drop_last());
    } else {
        assert(updated.drop_last() =~= buffs.drop_last().update(i, buff));
        lemma_total_buff_damage_update(buffs.drop_last(), i, buff);
    }
}

/// Every credited share is counted once: the damage credited to all buffs
/// grows by the share.
pub proof fn lemma_credit_counted_once(
    buffs: Seq<BuffContributionState>,
    status_name: String,
    category: i32,
    contributed_damage: u64,
)
    requires
        can_take_credit(buffs, status_name@, category, contributed_damage),
    ensures
        total_buff_damage(buffs_after_credit(buffs, status_name, category, contributed_damage))
            == total_buff_damage(buffs) + contributed_damage,
{
    if contributed_damage != 0 {
        lemma_first_matching_buff(buffs, status_name@, category);
        match first_matching_buff(buffs, status_name@, category) {
            Some(i) => {
                lemma_total_buff_damage_update(buffs, i, buffs[i].credited(contributed_damage));
            },
            None => {
                let after = buffs_after_credit(buffs, status_name, category, contributed_damage);
                assert(after.drop_last() =~= buffs);
            },
        }
    }
}

/// Two buff records that one credited share would both belong to.
pub open spec fn same_buff_key(a: BuffContributionState, b: BuffContributionState) -> bool {
    &&& a.status_name@ == b.status_name@
    &&& a.kind == b.kind
    &&& a.category == b.category
}

/// No two records of the breakdown are for the same buff.
pub open spec fn buffs_keyed_uniquely(buffs: Seq<BuffContributionState>) -> bool {
    forall|i: int, j: int|
        0 <= i < j < buffs.len() ==> !same_buff_key(#[trigger] buffs[i], #[trigger] buffs[j])
}

/// Every record is an attack buff that was credited at least one hit, and at
/// least one damage for each hit.
pub open spec fn buff_records_well_formed(buffs: Seq<BuffContributionState>) -> bool {
    forall|i: int|
        0 <= i < buffs.len() ==> {
            &&& (#[trigger] buffs[i]).kind == DamageModifierKind::Attack
            &&& buffs[i].active_hits >= 1
            &&& buffs[i].contributed_damage >= buffs[i].active_hits
        }
}

/// A buff already tracked is credited in place, never tracked twice: a
/// breakdown in which every buff has one record keeps that property.
pub proof fn lemma_credit_keeps_buffs_keyed_uniquely(
    buffs: Seq<BuffContributionState>,
    status_name: String,
    category: i32,
    contributed_damage: u64,
)
    requires
        buffs_keyed_uniquely(buffs),
    ensures
        buffs_keyed_uniquely(buffs_after_credit(buffs, status_name, category, contributed_damage)),
{
    lemma_first_matching_buff(buffs, status_name@, category);
    let after = buffs_after_credit(buffs, status_name, category, contributed_damage);
    if contributed_damage != 0 {
        match first_matching_buff(buffs, status_name@, category) {
            Some(k) => {
                assert forall|i: int, j: int| 0 <= i < j < after.len() implies !same_buff_key(
                    #[trigger] after[i],
                    #[trigger] after[j],
                ) by {
                    assert(!same_buff_key(buffs[i], buffs[j]));
                }
            },
            None => {
                assert forall|i: int, j: int| 0 <= i < j < after.len() implies !same_buff_key(
                    #[trigger] after[i],
                    #[trigger] after[j],
                ) by {
                    if j < buffs.len() {
                        assert(!same_buff_key(buffs[i], buffs[j]));
                    } else {
                        assert(!buff_matches(buffs[i], status_name@, category));
                    }
                }
            },
        }
    }
}

/// Crediting keeps every record an attack buff with at least one hit and at
/// least one damage per hit: a zero share is never counted as a hit.
pub proof fn lemma_credit_keeps_buff_records_well_formed(
    buffs: Seq<BuffContributionState>,
    status_name: String,
    category: i32,
    contributed_damage: u64,
)
    requires
        buff_records_well_formed(buffs),
        can_take_credit(buffs, status_name@, category, contributed_damage),
    ensures
        buff_records_well_formed(buffs_after_credit(buffs, status_name, category, contributed_damage)),
{
    lemma_first_matching_buff(buffs, status_name@, category);
    let after = buffs_after_credit(buffs, status_name, category, contributed_damage);
    if contributed_damage != 0 {
        match first_matching_buff(buffs, status_name@, category) {
            Some(k) => {
                assert(buffs[k].can_credit(contributed_damage));
                assert forall|i: int| 0 <= i < after.len() implies {
                    &&& (#[trigger] after[i]).kind == DamageModifierKind::Attack
                    &&& after[i].active_hits >= 1
                    &&& after[i].contributed_damage >= after[i].active_hits
                } by {
                    assert(buffs[i].kind == DamageModifierKind::Attack);
                }
            },
            None => {
                assert forall|i: int| 0 <= i < after.len() implies {
                    &&& (#[trigger] after[i]).kind == DamageModifierKind::Attack
                    &&& after[i].active_hits >= 1
                    &&& after[i].contributed_damage >= after[i].active_hits
                } by {
                    if i < buffs.len() {
                        assert(buffs[i].kind == DamageModifierKind::Attack);
                    }
                }
            },
        }
    }
}

/// The buff breakdown after crediting each share of `shares` in turn; a share
/// is a buff's name, its category and the damage credited to it.
pub open spec fn buffs_after_credits(
    buffs: Seq<BuffContributionState>,
    shares: Seq<(String, i32, u64)>,
) -> Seq<BuffContributionState>
    decreases shares.len(),
{
    if shares.len() == 0 {
        buffs
    } else {
        let share = shares.last();
        buffs_after_credit(buffs_after_credits(buffs, shares.drop_last()), share.0, share.1, share.2)
    }
}

/// No two shares are for the same buff, as with the shares of one hit, which
/// are gathered per buff name and category.
pub open spec fn shares_keyed_uniquely(shares: Seq<(String, i32, u64)>) -> bool {
    forall|k: int, l: int|
        0 <= k < l < shares.len() ==> !((#[trigger] shares[k]).0@ == (#[trigger] shares[l]).0@
            && shares[k].1 == shares[l].1)
}

/// Each share can be credited to the breakdown `buffs` without overflowing a
/// counter.
pub open spec fn shares_fit(buffs: Seq<BuffContributionState>, shares: Seq<(String, i32, u64)>) -> bool {
    forall|k: int|
        0 <= k < shares.len() ==> can_take_credit(
            buffs,
            (#[trigger] shares[k]).0@,
            shares[k].1,
            shares[k].2,
        )
}

/// `buff` is a record that some share of `shares` belongs to.
pub open spec fn matches_some_share(buff: BuffContributionState, shares: Seq<(String, i32, u64)>) -> bool {
    exists|k: int| 0 <= k < shares.len() && buff_matches(buff, (#[trigger] shares[k]).0@, shares[k].1)
}

/// A record kept for the same buff, either as it was or credited one more hit
/// with more damage.
pub open spec fn buff_record_advanced(before: BuffContributionState, after: BuffContributionState) -> bool {
    &&& after.status_name == before.status_name
    &&& after.kind == before.kind
    &&& after.category == before.category
    &&& (after == before || (after.active_hits == before.active_hits + 1
        && after.contributed_damage > before.contributed_damage))
}

/// How one hit may change a buff breakdown: no record is lost or moved, each
/// is kept or credited once, and new records are attack buffs with one hit
/// and some damage.
pub open spec fn buffs_after_hit_shape(before: Seq<BuffContributionState>, after: Seq<BuffContributionState>) -> bool {
    &&& after.len() >= before.len()
    &&& forall|i: int| 0 <= i < before.len() ==> buff_record_advanced(before[i], #[trigger] after[i])
    &&& forall|i: int|
        before.len() <= i < after.len() ==> {
            &&& (#[trigger] after[i]).kind == DamageModifierKind::Attack
            &&& after[i].active_hits == 1
            &&& after[i].contributed_damage >= 1
        }
}

proof fn lemma_shares_prefix(buffs: Seq<BuffContributionState>, shares: Seq<(String, i32, u64)>, m: int)
    requires
        0 <= m <= shares.len(),
        shares_keyed_uniquely(shares),
        shares_fit(buffs, shares),
    ensures
        shares_keyed_uniquely(shares.take(m)),
        shares_fit(buffs, shares.take(m)),
        forall|buff: BuffContributionState|
            #[trigger] matches_some_share(buff, shares.take(m)) ==> matches_some_share(buff, shares),
{
    let prefix = shares.take(m);
    assert forall|k: int, l: int| 0 <= k < l < prefix.len() implies !((#[trigger] prefix[k]).0@
        == (#[trigger] prefix[l]).0@ && prefix[k].1 == prefix[l].1) by {
        assert(prefix[k] == shares[k]);
        assert(prefix[l] == shares[l]);
    }
    assert forall|k: int| 0 <= k < prefix.len() implies can_take_credit(
        buffs,
        (#[trigger] prefix[k]).0@,
        prefix[k].1,
        prefix[k].2,
    ) by {
        assert(prefix[k] == shares[k]);
    }
    assert forall|buff: BuffContributionState| #[trigger]
        matches_some_share(buff, prefix) implies matches_some_share(buff, shares) by {
        let k = choose|k: int| 0 <= k < prefix.len() && buff_matches(buff, (#[trigger] prefix[k]).0@, prefix[k].1);
        assert(prefix[k] == shares[k]);
    }
}

/// A record that an earlier share belongs to is not the last share's record.
proof fn lemma_last_share_is_new(buff: BuffContributionState, shares: Seq<(String, i32, u64)>)
    requires
        shares.len() > 0,
        shares_keyed_uniquely(shares),
        matches_some_share(buff, shares.take(shares.len() - 1)),
    ensures
        !buff_matches(buff, shares.last().0@, shares.last().1),
{
    let n = shares.len() - 1;
    let prefix = shares.take(n);
    let k = choose|k: int| 0 <= k < prefix.len() && buff_matches(buff, (#[trigger] prefix[k]).0@, prefix[k].1);
    assert(prefix[k] == shares[k]);
    assert(!(shares[k].0@ == shares[n].0@ && shares[k].1 == shares[n].1));
}

/// Crediting leaves a record first for a buff when it leaves it and every
/// record before it as they were.
proof fn lemma_first_match_kept(
    buffs: Seq<BuffContributionState>,
    mid: Seq<BuffContributionState>,
    status_name: Seq<char>,
    category: i32,
    j: int,
)
    requires
        mid.len() >= buffs.len(),
        forall|i: int| 0 <= i < buffs.len() ==> buff_record_advanced(buffs[i], #[trigger] mid[i]),
        first_matching_buff(mid, status_name, category) == Some(j),
        0 <= j < buffs.len(),
    ensures
        first_matching_buff(buffs, status_name, category) == Some(j),
{
    lemma_first_matching_buff(mid, status_name, category);
    lemma_first_matching_buff(buffs, status_name, category);
    assert(buff_record_advanced(buffs[j], mid[j]));
    assert forall|i: int| 0 <= i < j implies !buff_matches(#[trigger] buffs[i], status_name, category) by {
        assert(buff_record_advanced(buffs[i], mid[i]));
    }
}

/// The record the next share of one hit goes to was left alone by the earlier
/// shares, and is the first record for that buff in the breakdown before the
/// hit.
proof fn lemma_next_share_untouched(buffs: Seq<BuffContributionState>, shares: Seq<(String, i32, u64)>)
    requires
        shares.len() > 0,
        shares_keyed_uniquely(shares),
        shares_fit(buffs, shares),
    ensures
        ({
            let n = shares.len() - 1;
            let mid = buffs_after_credits(buffs, shares.take(n));
            let share = shares.last();
            &&& shares.drop_last() == shares.take(n)
            &&& match first_matching_buff(mid, share.0@, share.1) {
                Some(j) => {
                    &&& 0 <= j < buffs.len()
                    &&& mid[j] == buffs[j]
                    &&& first_matching_buff(buffs, share.0@, share.1) == Some(j)
                },
                None => true,
            }
        }),
    decreases shares.len(), 0int,
{
    let n = shares.len() - 1;
    let prefix = shares.take(n);
    assert(shares.drop_last() =~= prefix);
    let share = shares.last();
    lemma_shares_prefix(buffs, shares, n);
    lemma_credits_shape(buffs, prefix);
    let mid = buffs_after_credits(buffs, prefix);
    lemma_first_matching_buff(mid, share.0@, share.1);
    if let Some(j) = first_matching_buff(mid, share.0@, share.1) {
        if j >= buffs.len() {
            lemma_last_share_is_new(mid[j], shares);
        } else {
            if mid[j] != buffs[j] {
                assert(buff_record_advanced(buffs[j], mid[j]));
                lemma_last_share_is_new(buffs[j], shares);
            }
            lemma_first_match_kept(buffs, mid, share.0@, share.1, j);
        }
    }
}

proof fn lemma_credits_shape(buffs: Seq<BuffContributionState>, shares: Seq<(String, i32, u64)>)
    requires
        shares_keyed_uniquely(shares),
        shares_fit(buffs, shares),
    ensures
        buffs_after_hit_shape(buffs, buffs_after_credits(buffs, shares)),
        forall|i: int|
            0 <= i < buffs.len() && #[trigger] buffs_after_credits(buffs, shares)[i] != buffs[i]
                ==> matches_some_share(buffs[i], shares),
        forall|i: int|
            buffs.len() <= i < buffs_after_credits(buffs, shares).len() ==> matches_some_share(
                #[trigger] buffs_after_credits(buffs, shares)[i],
                shares,
            ),
    decreases shares.len(), 1int,
{
    if shares.len() > 0 {
        let n = shares.len() - 1;
        let prefix = shares.take(n);
        let share = shares.last();
        lemma_next_share_untouched(buffs, shares);
        lemma_shares_prefix(buffs, shares, n);
        lemma_credits_shape(buffs, prefix);
        let mid = buffs_after_credits(buffs, prefix);
        let after = buffs_after_credits(buffs, shares);
        assert(after == buffs_after_credit(mid, share.0, share.1, share.2));
        assert(shares[n] == share);
        assert(matches_some_share(
            BuffContributionState {
                status_name: share.0,
                kind: DamageModifierKind::Attack,
                category: share.1,
                active_hits: 1,
                contributed_damage: share.2,
            },
            shares,
        ));
        if share.2 != 0 {
            if let Some(j) = first_matching_buff(mid, share.0@, share.1) {
                lemma_first_matching_buff(mid, share.0@, share.1);
                assert(mid[j] == buffs[j]);
                assert(can_take_credit(buffs, shares[n].0@, shares[n].1, shares[n].2));
                assert(buffs[j].can_credit(share.2));
                assert(buff_matches(buffs[j], shares[n].0@, shares[n].1));
                assert(matches_some_share(buffs[j], shares));
            }
        }
    }
}

/// Crediting the shares of one hit, one share per buff, credits each record at
/// most once: no record is lost or moved, a credited record counts exactly one
/// more hit and more damage, and new records are attack buffs with one hit and
/// some damage.
pub proof fn lemma_hit_credits_each_buff_once(
    buffs: Seq<BuffContributionState>,
    shares: Seq<(String, i32, u64)>,
)
    requires
        shares_keyed_uniquely(shares),
        shares_fit(buffs, shares),
    ensures
        buffs_after_hit_shape(buffs, buffs_after_credits(buffs, shares)),
{
    lemma_credits_shape(buffs, shares);
}

/// A share is credited to the first record of an attack buff with the same
/// status name and category, counting one more hit and the share's damage;
/// only when there is none does the buff start a record of its own, as an
/// attack buff with one hit. Records of other names or categories are left as
/// they are, and a zero share changes nothing.
pub proof fn lemma_credit_goes_to_its_own_buff(
    buffs: Seq<BuffContributionState>,
    status_name: String,
    category: i32,
    contributed_damage: u64,
)
    ensures
        contributed_damage == 0 ==> buffs_after_credit(buffs, status_name, category, contributed_damage)
            == buffs,
        contributed_damage != 0 && (exists|i: int|
            0 <= i < buffs.len() && (#[trigger] buffs[i]).status_name@ == status_name@ && buffs[i].kind
                == DamageModifierKind::Attack && buffs[i].category == category) ==> exists|k: int|
            {
                &&& 0 <= k < buffs.len()
                &&& (#[trigger] buffs[k]).status_name@ == status_name@
                &&& buffs[k].kind == DamageModifierKind::Attack
                &&& buffs[k].category == category
                &&& forall|j: int|
                    0 <= j < k ==> !((#[trigger] buffs[j]).status_name@ == status_name@ && buffs[j].kind
                        == DamageModifierKind::Attack && buffs[j].category == category)
                &&& buffs_after_credit(buffs, status_name, category, contributed_damage) == buffs.update(
                    k,
                    BuffContributionState {
                        status_name: buffs[k].status_name,
                        kind: buffs[k].kind,
                        category: buffs[k].category,
                        active_hits: (buffs[k].active_hits + 1) as u32,
                        contributed_damage: (buffs[k].contributed_damage + contributed_damage) as u64,
                    },
                )
            },
        contributed_damage != 0 && (forall|i: int|
            0 <= i < buffs.len() ==> !((#[trigger] buffs[i]).status_name@ == status_name@
                && buffs[i].kind == DamageModifierKind::Attack && buffs[i].category == category))
            ==> buffs_after_credit(buffs, status_name, category, contributed_damage) == buffs.push(
            BuffContributionState {
                status_name,
                kind: DamageModifierKind::Attack,
                category,
                active_hits: 1,
                contributed_damage,
            },
        ),
        forall|i: int|
            0 <= i < buffs.len() && ((#[trigger] buffs[i]).status_name@ != status_name@
                || buffs[i].category != category) ==> buffs_after_credit(
                buffs,
                status_name,
                category,
                contributed_damage,
            )[i] == buffs[i],
{
    lemma_first_matching_buff(buffs, status_name@, category);
    match first_matching_buff(buffs, status_name@, category) {
        Some(k) => {
            assert(buff_matches(buffs[k], status_name@, category));
            assert forall|j: int| 0 <= j < k implies !((#[trigger] buffs[j]).status_name@ == status_name@
                && buffs[j].kind == DamageModifierKind::Attack && buffs[j].category == category) by {
                assert(!buff_matches(buffs[j], status_name@, category));
            }
        },
        None => {
            assert forall|i: int| 0 <= i < buffs.len() implies !((#[trigger] buffs[i]).status_name@
                == status_name@ && buffs[i].kind == DamageModifierKind::Attack && buffs[i].category
                == category) by {
                assert(!buff_matches(buffs[i], status_name@, category));
            }
        },
    }
}

/// The shares of one hit are for different buffs exactly when no two of them
/// have both the same status name and the same category: two buffs of one
/// category with different names are different buffs.
pub proof fn lemma_shares_keyed_by_name_and_category(shares: Seq<(String, i32, u64)>)
    ensures
        shares_keyed_uniquely(shares) <==> forall|k: int, l: int|
            0 <= k < l < shares.len() ==> (#[trigger] shares[k]).0@ != (#[trigger] shares[l]).0@
                || shares[k].1 != shares[l].1,
{
}

/// The index of the first record of `buffs` that a share credited to the
/// attack buff `status_name` of `category` belongs to.
fn find_buff(buffs: &Vec<BuffContributionState>, status_name: &String, category: i32) -> (index: Option<usize>)
    ensures
        index is None <==> first_matching_buff(buffs@, status_name@, category) is None,
        index matches Some(i) ==> first_matching_buff(buffs@, status_name@, category) == Some(i as int) && i < buffs@.len(),
{
    let ghost all = buffs@;
    let n = buffs.len();
    let mut i: usize = 0;
    while i < n
        invariant
            n == all.len(),
            all == buffs@,
            0 <= i <= n,
            forall|j: int| 0 <= j < i ==> !buff_matches(#[trigger] all[j], status_name@, category),
        decreases n - i,
    {
        let buff = &buffs[i];
        if buff.status_name == *status_name && buff.kind == DamageModifierKind::Attack
            && buff.category == category {
            proof {
                lemma_first_matching_buff(all, status_name@, category);
                assert(buff_matches(all[i as int], status_name@, category));
            }
            return Some(i);
        }
        i = i + 1;
    }
    proof {
        lemma_first_matching_buff(all, status_name@, category);
    }
    None
}

/// A share can always be credited when every record has room for one more hit
/// and for the share's damage.
pub proof fn lemma_room_for_credit(
    buffs: Seq<BuffContributionState>,
    status_name: Seq<char>,
    category: i32,
    contributed_damage: u64,
)
    requires
        forall|i: int|
            0 <= i < buffs.len() ==> (#[trigger] buffs[i]).active_hits < u32::MAX
                && buffs[i].contributed_damage + contributed_damage <= u64::MAX,
    ensures
        can_take_credit(buffs, status_name, category, contributed_damage),
{
    lemma_first_matching_buff(buffs, status_name, category);
}

/// The shares of one hit for different buffs can always be credited together
/// when every record has room for one more hit and for each share's damage.
pub proof fn lemma_room_for_hit_shares(buffs: Seq<BuffContributionState>, shares: Seq<(String, i32, u64)>)
    requires
        forall|k: int, l: int|
            0 <= k < l < shares.len() ==> (#[trigger] shares[k]).0@ != (#[trigger] shares[l]).0@
                || shares[k].1 != shares[l].1,
        forall|i: int, k: int|
            0 <= i < buffs.len() && 0 <= k < shares.len() ==> (#[trigger] buffs[i]).active_hits < u32::MAX
                && buffs[i].contributed_damage + (#[trigger] shares[k]).2 <= u64::MAX,
    ensures
        shares_keyed_uniquely(shares),
        shares_fit(buffs, shares),
{
    assert forall|k: int| 0 <= k < shares.len() implies can_take_credit(
        buffs,
        (#[trigger] shares[k]).0@,
        shares[k].1,
        shares[k].2,
    ) by {
        let share = shares[k];
        assert forall|i: int| 0 <= i < buffs.len() implies (#[trigger] buffs[i]).active_hits < u32::MAX
            && buffs[i].contributed_damage + share.2 <= u64::MAX by {
            assert(buffs[i].active_hits < u32::MAX && buffs[i].contributed_damage + shares[k].2 <= u64::MAX);
        }
        lemma_room_for_credit(buffs, shares[k].0@, shares[k].1, shares[k].2);
    }
}

/// Derived damage breakdown for a player: the integer bookkeeping of damage,
/// skills and buffs.
#[derive(Debug)]
pub struct PlayerState {
    pub index: u32,
    pub character_type: CharacterType,
    pub total_damage: u64,
    /// Used for Ferry's skills that don't keep track of where they came from.
    pub last_known_pet_skill: Option<ActionType>,
    pub skill_breakdown: Vec<SkillState>,
    pub buff_breakdown: Vec<BuffContributionState>,
}

/// A hit can always be counted when the player's total has room for its
/// damage and every skill has room for one more hit and for its damage.
pub proof fn lemma_room_for_hit(player: PlayerState, event: DamageEvent, ferry_skills: FerrySkillIds)
    requires
        player.total_damage + (event.damage as u64) <= u64::MAX,
        forall|i: int|
            0 <= i < player.skill_breakdown@.len() ==> (#[trigger] player.skill_breakdown@[i]).hits
                < u32::MAX && player.skill_breakdown@[i].total_damage + (event.damage as u64)
                <= u64::MAX,
    ensures
        player.can_record(event, ferry_skills),
{
    crate::skill_state::lemma_first_matching_skill(
        player.skill_breakdown@,
        attributed_action(player.last_known_pet_skill, event, ferry_skills),
        attributed_child(event),
    );
}

impl PlayerState {
    /// The skills' damage adds up to the player's damage.
    pub open spec fn skill_totals_consistent(&self) -> bool {
        total_skill_damage(self.skill_breakdown@) == self.total_damage
    }

    /// A hit of `event` can be counted without overflowing a counter.
    pub open spec fn can_record(&self, event: DamageEvent, ferry_skills: FerrySkillIds) -> bool {
        &&& self.total_damage + damage_amount(event.damage) <= u64::MAX
        &&& can_take_hit(
            self.skill_breakdown@,
            attributed_action(self.last_known_pet_skill, event, ferry_skills),
            attributed_child(event),
            event.damage,
        )
    }

    /// Finds the action a hit of one of Ferry's actors belongs to. Ferry needs
    /// special handling because the `action_id` that comes back for pet skills
    /// is usually wrong: after a strafe and a dodge, for instance, further hits
    /// come back as the dodge. The last tracked pet skill is remembered and
    /// later pet skill hits are filed under it.
    pub fn get_action_from_ferry_damage_event(
        &mut self,
        event: &DamageEvent,
        ferry_skills: &FerrySkillIds,
    ) -> (action: ActionType)
        ensures
            final(self).last_known_pet_skill == pet_skill_after(
                old(self).last_known_pet_skill,
                *event,
                *ferry_skills,
            ),
            action == ferry_action(final(self).last_known_pet_skill, *event, *ferry_skills),
            final(self).index == old(self).index,
            final(self).character_type == old(self).character_type,
            final(self).total_damage == old(self).total_damage,
            final(self).skill_breakdown@ == old(self).skill_breakdown@,
            final(self).buff_breakdown@ == old(self).buff_breakdown@,
    {
        self.last_known_pet_skill = ferry_pet_skill_after(self.last_known_pet_skill, event, ferry_skills);
        ferry_action_of(self.last_known_pet_skill, event, ferry_skills)
    }

    /// Whether a hit of `event` can be counted without overflowing a counter.
    pub fn can_record_hit(&self, event: &DamageEvent, ferry_skills: &FerrySkillIds) -> (ok: bool)
        ensures
            ok == self.can_record(*event, *ferry_skills),
    {
        let amount = event.damage as u64;
        if amount > u64::MAX - self.total_damage {
            return false;
        }
        let action = if event.source.parent_actor_type == CharacterType::Pl0700 {
            let last_known = ferry_pet_skill_after(self.last_known_pet_skill, event, ferry_skills);
            ferry_action_of(last_known, event, ferry_skills)
        } else {
            event.action_id
        };
        let child = child_character_type_of(event);
        match find_skill(&self.skill_breakdown, action, child) {
            Some(i) => {
                let skill = &self.skill_breakdown[i];
                skill.hits < u32::MAX && amount <= u64::MAX - skill.total_damage
            },
            None => true,
        }
    }

    /// Counts a hit: the player's damage grows by it, and the first skill it
    /// belongs to counts it, or a new skill is tracked for it.
    pub fn update_from_damage_event(&mut self, event: &DamageEvent, ferry_skills: &FerrySkillIds)
        requires
            old(self).can_record(*event, *ferry_skills),
        ensures
            final(self).total_damage == old(self).total_damage + damage_amount(event.damage),
            final(self).last_known_pet_skill == attributed_pet_skill(
                old(self).last_known_pet_skill,
                *event,
                *ferry_skills,
            ),
            final(self).skill_breakdown@ == skills_after_hit(
                old(self).skill_breakdown@,
                attributed_action(old(self).last_known_pet_skill, *event, *ferry_skills),
                attributed_child(*event),
                event.damage,
            ),
            final(self).index == old(self).index,
            final(self).character_type == old(self).character_type,
            final(self).buff_breakdown@ == old(self).buff_breakdown@,
            total_skill_damage(final(self).skill_breakdown@) == total_skill_damage(
                old(self).skill_breakdown@,
            ) + damage_amount(event.damage),
            old(self).skill_totals_consistent() ==> final(self).skill_totals_consistent(),
            skills_keyed_uniquely(old(self).skill_breakdown@) ==> skills_keyed_uniquely(
                final(self).skill_breakdown@,
            ),
            old(self).skill_breakdown@.len() <= final(self).skill_breakdown@.len()
                <= old(self).skill_breakdown@.len() + 1,
            forall|i: int|
                0 <= i < old(self).skill_breakdown@.len() ==> (#[trigger] final(self).skill_breakdown@[i]).action_type
                    == old(self).skill_breakdown@[i].action_type
                    && final(self).skill_breakdown@[i].child_character_type
                    == old(self).skill_breakdown@[i].child_character_type,
    {
        self.total_damage = self.total_damage + event.damage as u64;

        let child_character_type = child_character_type_of(event);

        // For Ferry, defer to a special function to handle the way her pets work.
        let action = if event.source.parent_actor_type == CharacterType::Pl0700 {
            self.get_action_from_ferry_damage_event(event, ferry_skills)
        } else {
            event.action_id
        };

        let ghost before = old(self).skill_breakdown@;
        record_skill_hit(&mut self.skill_breakdown, action, child_character_type, event);
        proof {
            lemma_hit_counted_once(before, action, child_character_type, event.damage);
            lemma_hit_absorbed_by_one_skill(before, action, child_character_type, event.damage);
            if skills_keyed_uniquely(before) {
                lemma_hit_keeps_skills_keyed_uniquely(
                    before,
                    action,
                    child_character_type,
                    event.damage,
                );
            }
        }
    }

    /// Whether crediting `contributed_damage` to the attack buff `status_name`
    /// of `category` can be done without overflowing a counter.
    pub fn can_add_buff_contribution(&self, status_name: &String, category: i32, contributed_damage: u64) -> (ok: bool)
        ensures
            ok == can_take_credit(self.buff_breakdown@, status_name@, category, contributed_damage),
    {
        if contributed_damage == 0 {
            return true;
        }
        match find_buff(&self.buff_breakdown, status_name, category) {
            Some(i) => {
                let buff = &self.buff_breakdown[i];
                buff.active_hits < u32::MAX && contributed_damage <= u64::MAX - buff.contributed_damage
            },
            None => true,
        }
    }

    /// Credits one hit's share of damage to the attack buff `status_name` of
    /// `category`. The player's and the skills' damage are left as they are.
    pub fn add_buff_contribution(&mut self, status_name: String, category: i32, contributed_damage: u64)
        requires
            can_take_credit(old(self).buff_breakdown@, status_name@, category, contributed_damage),
        ensures
            final(self).buff_breakdown@ == buffs_after_credit(
                old(self).buff_breakdown@,
                status_name,
                category,
                contributed_damage,
            ),
            total_buff_damage(final(self).buff_breakdown@) == total_buff_damage(
                old(self).buff_breakdown@,
            ) + contributed_damage,
            buffs_keyed_uniquely(old(self).buff_breakdown@) ==> buffs_keyed_uniquely(
                final(self).buff_breakdown@,
            ),
            buff_records_well_formed(old(self).buff_breakdown@) ==> buff_records_well_formed(
                final(self).buff_breakdown@,
            ),
            final(self).total_damage == old(self).total_damage,
            final(self).skill_breakdown@ == old(self).skill_breakdown@,
            final(self).last_known_pet_skill == old(self).last_known_pet_skill,
            final(self).index == old(self).index,
            final(self).character_type == old(self).character_type,
    {
        proof {
            let before = self.buff_breakdown@;
            lemma_credit_counted_once(before, status_name, category, contributed_damage);
            if buffs_keyed_uniquely(before) {
                lemma_credit_keeps_buffs_keyed_uniquely(before, status_name, category, contributed_damage);
            }
            if buff_records_well_formed(before) {
                lemma_credit_keeps_buff_records_well_formed(
                    before,
                    status_name,
                    category,
                    contributed_damage,
                );
            }
        }
        if contributed_damage == 0 {
            return;
        }
        match find_buff(&self.buff_breakdown, &status_name, category) {
            Some(i) => {
                let buff = &self.buff_breakdown[i];
                let credited = BuffContributionState {
                    status_name: buff.status_name.clone(),
                    kind: buff.kind,
                    category: buff.category,
                    active_hits: buff.active_hits + 1,
                    contributed_damage: buff.contributed_damage + contributed_damage,
                };
                self.buff_breakdown.set(i, credited);
            },
            None => {
                self.buff_breakdown.push(
                    BuffContributionState {
                        status_name,
                        kind: DamageModifierKind::Attack,
                        category,
                        active_hits: 1,
                        contributed_damage,
                    },
                );
            },
        }
    }

    /// Whether the shares of one hit can be credited together: no two are for
    /// the same buff, and each fits the breakdown without overflowing.
    pub fn can_credit_hit_shares(&self, shares: &Vec<(String, i32, u64)>) -> (ok: bool)
        ensures
            ok == (shares_keyed_uniquely(shares@) && shares_fit(self.buff_breakdown@, shares@)),
    {
        let n = shares.len();
        let mut l: usize = 0;
        while l < n
            invariant
                n == shares@.len(),
                0 <= l <= n,
                forall|k: int, m: int|
                    0 <= k < m < l ==> !((#[trigger] shares@[k]).0@ == (#[trigger] shares@[m]).0@
                        && shares@[k].1 == shares@[m].1),
                forall|k: int|
                    0 <= k < l ==> can_take_credit(
                        self.buff_breakdown@,
                        (#[trigger] shares@[k]).0@,
                        shares@[k].1,
                        shares@[k].2,
                    ),
            decreases n - l,
        {
            let share = &shares[l];
            let mut k: usize = 0;
            while k < l
                invariant
                    n == shares@.len(),
                    0 <= k <= l < n,
                    share == shares@[l as int],
                    forall|k2: int|
                        0 <= k2 < k ==> !((#[trigger] shares@[k2]).0@ == shares@[l as int].0@
                            && shares@[k2].1 == shares@[l as int].1),
                decreases l - k,
            {
                let earlier = &shares[k];
                if earlier.0 == share.0 && earlier.1 == share.1 {
                    assert(shares@[k as int].0@ == shares@[l as int].0@ && shares@[k as int].1
                        == shares@[l as int].1);
                    return false;
                }
                k = k + 1;
            }
            if !self.can_add_buff_contribution(&share.0, share.1, share.2) {
                return false;
            }
            l = l + 1;
        }
        true
    }

    /// Credits the shares of one hit, one per buff: each record is kept or
    /// credited once, new buffs start records of their own, and the player's
    /// and the skills' damage are left as they are.
    pub fn credit_hit_shares(&mut self, shares: Vec<(String, i32, u64)>)
        requires
            shares_keyed_uniquely(shares@),
            shares_fit(old(self).buff_breakdown@, shares@),
        ensures
            final(self).buff_breakdown@ == buffs_after_credits(old(self).buff_breakdown@, shares@),
            buffs_after_hit_shape(old(self).buff_breakdown@, final(self).buff_breakdown@),
            buffs_keyed_uniquely(old(self).buff_breakdown@) ==> buffs_keyed_uniquely(
                final(self).buff_breakdown@,
            ),
            buff_records_well_formed(old(self).buff_breakdown@) ==> buff_records_well_formed(
                final(self).buff_breakdown@,
            ),
            final(self).total_damage == old(self).total_damage,
            final(self).skill_breakdown@ == old(self).skill_breakdown@,
            final(self).last_known_pet_skill == old(self).last_known_pet_skill,
            final(self).index == old(self).index,
            final(self).character_type == old(self).character_type,
    {
        let ghost before = self.buff_breakdown@;
        let n = shares.len();
        let mut i: usize = 0;
        proof {
            assert(shares@.take(0) =~= Seq::<(String, i32, u64)>::empty());
        }
        while i < n
            invariant
                n == shares@.len(),
                0 <= i <= n,
                before == old(self).buff_breakdown@,
                shares_keyed_uniquely(shares@),
                shares_fit(before, shares@),
                self.buff_breakdown@ == buffs_after_credits(before, shares@.take(i as int)),
                buffs_keyed_uniquely(before) ==> buffs_keyed_uniquely(self.buff_breakdown@),
                buff_records_well_formed(before) ==> buff_records_well_formed(self.buff_breakdown@),
                self.total_damage == old(self).total_damage,
                self.skill_breakdown@ == old(self).skill_breakdown@,
                self.last_known_pet_skill == old(self).last_known_pet_skill,
                self.index == old(self).index,
                self.character_type == old(self).character_type,
            decreases n - i,
        {
            let ghost taken = shares@.take(i + 1);
            proof {
                lemma_shares_prefix(before, shares@, i + 1);
                lemma_next_share_untouched(before, taken);
                assert(taken.take(i as int) =~= shares@.take(i as int));
                assert(taken.last() == shares@[i as int]);
                assert(can_take_credit(before, shares@[i as int].0@, shares@[i as int].1, shares@[i as int].2));
            }
            let share = &shares[i];
            self.add_buff_contribution(share.0.clone(), share.1, share.2);
            proof {
                assert(taken.drop_last() =~= shares@.take(i as int));
            }
            i = i + 1;
        }
        proof {
            assert(shares@.take(n as int) =~= shares@);
            lemma_hit_credits_each_buff_once(before, shares@);
        }
    }
}

} // verus!
