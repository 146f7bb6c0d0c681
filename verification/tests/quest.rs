use vale_village::domains::quest::{
    advance_quest, check_rewards, get_active_quests, get_completed_quests, get_quest_stage,
    is_quest_available, QuestManager,
};
use vale_village::shared::bounded_types::Gold;
use vale_village::shared::{
    DialogueCondition, DialogueSideEffect, QuestDef, QuestFlagId, QuestStage, QuestStageDef,
    QuestState,
};

fn make_def(id: u16) -> QuestDef {
    QuestDef {
        id: QuestFlagId(id),
        name: format!("Quest {id}"),
        description: String::from("A test quest."),
        stages: vec![
            QuestStageDef {
                stage: QuestStage::Discovered,
                description: String::from("Discovered"),
                unlock_condition: None,
            },
            QuestStageDef {
                stage: QuestStage::Active,
                description: String::from("Active"),
                unlock_condition: None,
            },
            QuestStageDef {
                stage: QuestStage::InProgress,
                description: String::from("InProgress"),
                unlock_condition: None,
            },
            QuestStageDef {
                stage: QuestStage::Complete,
                description: String::from("Complete"),
                unlock_condition: None,
            },
            QuestStageDef {
                stage: QuestStage::Rewarded,
                description: String::from("Rewarded"),
                unlock_condition: None,
            },
        ],
        rewards: vec![DialogueSideEffect::GiveGold(Gold::new(100))],
    }
}

// T1: default stage is Unknown
#[test]
fn test_default_stage_unknown() {
    let mut mgr = QuestManager::new(vec![make_def(1)]);
    assert_eq!(mgr.stage(QuestFlagId(1)), QuestStage::Unknown);
    // not-tracked quest is also Unknown
    assert_eq!(mgr.stage(QuestFlagId(99)), QuestStage::Unknown);
    // advance and verify
    mgr.advance(QuestFlagId(1), QuestStage::Active);
    assert_eq!(mgr.stage(QuestFlagId(1)), QuestStage::Active);
}

// T2: advance is monotonic — cannot go backward
#[test]
fn test_advance_monotonic_no_backward() {
    let mut state = QuestState::default();
    let id = QuestFlagId(10);
    advance_quest(&mut state, id, QuestStage::Complete);
    assert_eq!(get_quest_stage(&state, id), QuestStage::Complete);

    // Try to go back to Active — must be no-op
    advance_quest(&mut state, id, QuestStage::Active);
    assert_eq!(get_quest_stage(&state, id), QuestStage::Complete);
}

// T3: advance from Complete to Active is no-op (spec example)
#[test]
fn test_advance_complete_to_active_noop() {
    let mut mgr = QuestManager::new(vec![make_def(2)]);
    mgr.advance(QuestFlagId(2), QuestStage::Complete);
    mgr.advance(QuestFlagId(2), QuestStage::Active);
    assert_eq!(mgr.stage(QuestFlagId(2)), QuestStage::Complete);
}

// T4: advance strictly forward works
#[test]
fn test_advance_forward_sequence() {
    let mut mgr = QuestManager::new(vec![make_def(3)]);
    let stages = [
        QuestStage::Discovered,
        QuestStage::Active,
        QuestStage::InProgress,
        QuestStage::Complete,
        QuestStage::Rewarded,
    ];
    for &s in &stages {
        mgr.advance(QuestFlagId(3), s);
        assert_eq!(mgr.stage(QuestFlagId(3)), s);
    }
}

// T5: active_quests returns Active/InProgress/Complete but not Unknown/Rewarded
#[test]
fn test_active_quests_filtering() {
    let defs = vec![make_def(1), make_def(2), make_def(3), make_def(4)];
    let mut mgr = QuestManager::new(defs);

    // 1 = Unknown (not active)
    mgr.advance(QuestFlagId(2), QuestStage::Active);
    mgr.advance(QuestFlagId(3), QuestStage::InProgress);
    mgr.advance(QuestFlagId(4), QuestStage::Rewarded); // completed, not active

    let active: Vec<u16> = mgr.active_quests().iter().map(|d| d.id.0).collect();
    assert!(active.contains(&2));
    assert!(active.contains(&3));
    assert!(!active.contains(&1));
    assert!(!active.contains(&4));
}

// T6: completed_quests returns only Rewarded
#[test]
fn test_completed_quests() {
    let defs = vec![make_def(5), make_def(6)];
    let mut mgr = QuestManager::new(defs);
    mgr.advance(QuestFlagId(5), QuestStage::Rewarded);

    let done: Vec<u16> = mgr.completed_quests().iter().map(|d| d.id.0).collect();
    assert_eq!(done, vec![5]);
}

// T7: check_rewards returns Some only at Complete stage
#[test]
fn test_check_rewards() {
    let def = make_def(7);
    let mut state = QuestState::default();

    assert!(check_rewards(&state, &def).is_none()); // Unknown

    advance_quest(&mut state, QuestFlagId(7), QuestStage::Active);
    assert!(check_rewards(&state, &def).is_none()); // Active — no rewards yet

    advance_quest(&mut state, QuestFlagId(7), QuestStage::Complete);
    let rewards = check_rewards(&state, &def);
    assert!(rewards.is_some());
    assert_eq!(rewards.unwrap().len(), 1);

    advance_quest(&mut state, QuestFlagId(7), QuestStage::Rewarded);
    assert!(check_rewards(&state, &def).is_none()); // Already rewarded
}

// T8: is_quest_available returns false once discovered
#[test]
fn test_availability_once_discovered() {
    let def = make_def(8);
    let mut state = QuestState::default();
    assert!(is_quest_available(&def, &state)); // not yet known

    advance_quest(&mut state, QuestFlagId(8), QuestStage::Discovered);
    assert!(!is_quest_available(&def, &state)); // already known
}

// T9: is_quest_available with a QuestAtStage unlock condition
#[test]
fn test_availability_with_condition() {

    let prereq_id = QuestFlagId(100);
    let mut def = make_def(9);
    // First stage requires quest 100 to be at least Active
    def.stages[0].unlock_condition =
        Some(DialogueCondition::QuestAtStage(prereq_id, QuestStage::Active));

    let mut state = QuestState::default();
    // Prereq not met → unavailable
    assert!(!is_quest_available(&def, &state));

    // Satisfy prereq
    advance_quest(&mut state, prereq_id, QuestStage::Active);
    assert!(is_quest_available(&def, &state));
}

// T10: claim_rewards advances to Rewarded and check_rewards returns None after
#[test]
fn test_claim_rewards() {
    let defs = vec![make_def(10)];
    let mut mgr = QuestManager::new(defs);
    mgr.advance(QuestFlagId(10), QuestStage::Complete);
    let def = mgr.defs[0].clone();
    let rewards = mgr.check_rewards(&def);
    assert!(rewards.is_some());

    mgr.claim_rewards(QuestFlagId(10));
    assert!(mgr.check_rewards(&def).is_none());
    assert_eq!(mgr.stage(QuestFlagId(10)), QuestStage::Rewarded);
}

#[test]
fn test_free_function_listings() {
    let defs = vec![make_def(1), make_def(2), make_def(3)];
    let mut state = QuestState::default();
    advance_quest(&mut state, QuestFlagId(1), QuestStage::Complete);
    advance_quest(&mut state, QuestFlagId(2), QuestStage::Rewarded);
    let active: Vec<u16> = get_active_quests(&state, &defs).iter().map(|d| d.id.0).collect();
    assert_eq!(active, vec![1]);
    let done: Vec<u16> = get_completed_quests(&state, &defs).iter().map(|d| d.id.0).collect();
    assert_eq!(done, vec![2]);
}

#[test]
fn test_claim_rewards_refused_before_complete() {
    let mut mgr = QuestManager::new(vec![make_def(11)]);
    mgr.advance(QuestFlagId(11), QuestStage::Active);
    assert!(!mgr.claim_rewards(QuestFlagId(11)));
    assert_eq!(mgr.stage(QuestFlagId(11)), QuestStage::Active);
}

#[test]
fn test_available_quests_lists_undiscovered() {
    let mut mgr = QuestManager::new(vec![make_def(1), make_def(2)]);
    mgr.advance(QuestFlagId(1), QuestStage::Discovered);
    let avail: Vec<u16> = mgr.available_quests().iter().map(|d| d.id.0).collect();
    assert_eq!(avail, vec![2]);
}

#[test]
fn test_check_rewards_returns_the_rewards() {
    let def = make_def(12);
    let mut state = QuestState::default();
    advance_quest(&mut state, QuestFlagId(12), QuestStage::Complete);
    let rewards = check_rewards(&state, &def).unwrap();
    assert_eq!(rewards, vec![DialogueSideEffect::GiveGold(Gold::new(100))]);
}
