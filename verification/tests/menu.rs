use vale_village::domains::menu::{
    show_djinn, show_equipment, show_items, show_party, show_quest_log, DjinnMenuState,
    DjinnSummary, EquipmentSummary, ItemSummary, MenuState, QuestLogEntry, UnitSummary,
};
use vale_village::shared::MenuScreen;

fn sample_units() -> Vec<UnitSummary> {
    vec![
        UnitSummary {
            name: "Isaac".to_string(),
            level: 10,
            hp_current: 180,
            hp_max: 200,
            element: "Venus".to_string(),
        },
        UnitSummary {
            name: "Garet".to_string(),
            level: 9,
            hp_current: 150,
            hp_max: 220,
            element: "Mars".to_string(),
        },
    ]
}

#[test]
fn test_show_party_header() {
    let lines = show_party(&sample_units());
    assert_eq!(lines[0], "=== PARTY ===");
}

#[test]
fn test_show_party_contains_name_and_level() {
    let lines = show_party(&sample_units());
    assert!(lines[1].contains("Isaac"));
    assert!(lines[1].contains("10"));
    assert!(lines[1].contains("Venus"));
    assert!(lines[1].contains("180"));
    assert!(lines[1].contains("200"));
}

#[test]
fn test_show_party_empty() {
    let lines = show_party(&[]);
    assert!(lines.iter().any(|l| l.contains("no party members")));
}

#[test]
fn test_show_equipment_header_contains_unit_name() {
    let unit = &sample_units()[0];
    let equipment = vec![
        EquipmentSummary {
            name: "Broad Sword".to_string(),
            slot: "Weapon".to_string(),
            tier: 2,
            equipped: true,
        },
        EquipmentSummary {
            name: "Iron Shield".to_string(),
            slot: "Shield".to_string(),
            tier: 1,
            equipped: false,
        },
    ];
    let lines = show_equipment(unit, &equipment);
    assert!(lines[0].contains("Isaac"));
    let equipped_section: Vec<&String> = lines.iter().filter(|l| l.contains("Broad Sword")).collect();
    assert!(!equipped_section.is_empty());
    let available_section: Vec<&String> = lines.iter().filter(|l| l.contains("Iron Shield")).collect();
    assert!(!available_section.is_empty());
}

#[test]
fn test_show_equipment_empty() {
    let unit = &sample_units()[0];
    let lines = show_equipment(unit, &[]);
    assert!(lines.iter().any(|l| l.contains("nothing equipped")));
    assert!(lines.iter().any(|l| l.contains("no other equipment")));
}

#[test]
fn test_show_djinn_states() {
    let djinn_list = vec![
        DjinnSummary {
            name: "Flint".to_string(),
            element: "Venus".to_string(),
            state: DjinnMenuState::SetToUnit,
            tier: 1,
        },
        DjinnSummary {
            name: "Forge".to_string(),
            element: "Mars".to_string(),
            state: DjinnMenuState::Standby,
            tier: 2,
        },
        DjinnSummary {
            name: "Fizz".to_string(),
            element: "Mercury".to_string(),
            state: DjinnMenuState::Recovery,
            tier: 1,
        },
    ];
    let lines = show_djinn(&djinn_list);
    assert_eq!(lines[0], "=== DJINN ===");
    assert!(lines[1].contains("Flint") && lines[1].contains("SET"));
    assert!(lines[2].contains("Forge") && lines[2].contains("STANDBY"));
    assert!(lines[3].contains("Fizz") && lines[3].contains("RECOVERY"));
}

#[test]
fn test_show_djinn_empty() {
    let lines = show_djinn(&[]);
    assert!(lines.iter().any(|l| l.contains("no djinn")));
}

#[test]
fn test_show_items_with_counts() {
    let inventory = vec![
        ItemSummary {
            name: "Herb".to_string(),
            count: 5,
            description: "Restores 50 HP".to_string(),
        },
        ItemSummary {
            name: "Antidote".to_string(),
            count: 2,
            description: "Cures poison".to_string(),
        },
    ];
    let lines = show_items(&inventory);
    assert_eq!(lines[0], "=== ITEMS ===");
    assert!(lines[1].contains("Herb") && lines[1].contains("5"));
    assert!(lines[2].contains("Antidote") && lines[2].contains("2"));
}

#[test]
fn test_show_items_empty() {
    let lines = show_items(&[]);
    assert!(lines.iter().any(|l| l.contains("inventory empty")));
}

#[test]
fn test_show_quest_log_active_and_completed() {
    let quests = vec![
        QuestLogEntry {
            name: "Find the Crystal".to_string(),
            description: "Locate the lost crystal in the cave.".to_string(),
            completed: false,
        },
        QuestLogEntry {
            name: "Defeat the Slime".to_string(),
            description: "Clear the slimes from the farm.".to_string(),
            completed: true,
        },
    ];
    let lines = show_quest_log(&quests);
    assert_eq!(lines[0], "=== QUEST LOG ===");
    let active_quest: Vec<&String> = lines.iter().filter(|l| l.contains("Find the Crystal")).collect();
    assert!(!active_quest.is_empty());
    assert!(active_quest[0].contains("[ ]"));
    let done_quest: Vec<&String> = lines.iter().filter(|l| l.contains("Defeat the Slime")).collect();
    assert!(!done_quest.is_empty());
    assert!(done_quest[0].contains("[x]"));
}

#[test]
fn test_show_quest_log_empty() {
    let lines = show_quest_log(&[]);
    assert!(lines.iter().any(|l| l.contains("no active quests")));
    assert!(lines.iter().any(|l| l.contains("none yet")));
}

#[test]
fn test_menu_state_switch_and_select() {
    let mut state = MenuState::new(MenuScreen::Party);
    assert_eq!(state.current, MenuScreen::Party);
    assert_eq!(state.selected_index(), 0);

    state.select(2);
    assert_eq!(state.selected_index(), 2);

    state.switch_to(MenuScreen::Items);
    assert_eq!(state.current, MenuScreen::Items);
    assert_eq!(state.selected_index(), 0); // fresh cursor for new screen

    state.switch_to(MenuScreen::Party);
    assert_eq!(state.selected_index(), 2); // remembered
}

#[test]
fn party_lines_are_numbered_from_one_in_order() {
    let lines = show_party(&sample_units());
    assert_eq!(lines.len(), 3);
    assert!(lines[1].contains("[1]") && lines[1].contains("Isaac"));
    assert!(lines[2].contains("[2]") && lines[2].contains("Garet"));
}

#[test]
fn equipment_lists_equipped_before_available() {
    let unit = &sample_units()[0];
    let equipment = vec![
        EquipmentSummary { name: "Cloak".to_string(), slot: "Body".to_string(), tier: 1, equipped: false },
        EquipmentSummary { name: "Sword".to_string(), slot: "Weapon".to_string(), tier: 3, equipped: true },
    ];
    let lines = show_equipment(unit, &equipment);
    assert_eq!(lines.len(), 5);
    assert_eq!(lines[1], "  Equipped:");
    assert!(lines[2].contains("Sword"));
    assert_eq!(lines[3], "  Available:");
    assert!(lines[4].contains("Cloak"));
}

#[test]
fn quest_log_gives_each_quest_a_description_line() {
    let quests = vec![QuestLogEntry {
        name: "Find the Crystal".to_string(),
        description: "Locate the lost crystal.".to_string(),
        completed: false,
    }];
    let lines = show_quest_log(&quests);
    assert_eq!(lines[2], "    [ ] Find the Crystal");
    assert_eq!(lines[3], "        Locate the lost crystal.");
    assert_eq!(lines[4], "  Completed:");
    assert_eq!(lines[5], "    (none yet)");
}

#[test]
fn cursor_is_kept_per_screen() {
    let mut state = MenuState::new(MenuScreen::Items);
    state.select(4);
    state.select(1);
    assert_eq!(state.selected_index(), 1);
    state.switch_to(MenuScreen::Djinn);
    state.select(7);
    state.switch_to(MenuScreen::Items);
    assert_eq!(state.selected_index(), 1);
}

// ── Exact layout, as std's formatting lays it out ───────────────────

#[test]
fn party_lines_match_std_layout() {
    let lines = show_party(&sample_units());
    assert_eq!(lines[1], format!("  [{}] {:<12} Lv.{:>2}   HP: {:>4}/{:>4}   {}", 1, "Isaac", 10, 180, 200, "Venus"));
    assert_eq!(lines[2], format!("  [{}] {:<12} Lv.{:>2}   HP: {:>4}/{:>4}   {}", 2, "Garet", 9, 150, 220, "Mars"));
    assert_eq!(lines[2], "  [2] Garet        Lv. 9   HP:  150/ 220   Mars");
}

#[test]
fn djinn_item_and_equipment_lines_match_std_layout() {
    let djinn = show_djinn(&[DjinnSummary {
        name: "Flint".to_string(),
        element: "Venus".to_string(),
        state: DjinnMenuState::Standby,
        tier: 3,
    }]);
    assert_eq!(djinn[1], format!("  {:<14} [{:>8}]  Tier {}  {}", "Flint", "STANDBY", 3, "Venus"));
    let items = show_items(&[ItemSummary {
        name: "Psy Crystal".to_string(),
        count: 12,
        description: "Restores PP".to_string(),
    }]);
    assert_eq!(items[1], format!("  {:<18} x{:<3}  {}", "Psy Crystal", 12, "Restores PP"));
    let unit = &sample_units()[0];
    let eq = show_equipment(
        unit,
        &[EquipmentSummary { name: "Long Sword".to_string(), slot: "Weapon".to_string(), tier: 4, equipped: true }],
    );
    assert_eq!(eq[0], "=== EQUIPMENT — Isaac ===");
    assert_eq!(eq[2], format!("    [{:>6}] Tier {} — {}", "Weapon", 4, "Long Sword"));
}

#[test]
fn overlong_names_are_not_cut() {
    let units = vec![UnitSummary {
        name: "Maximilianus Rex".to_string(),
        level: 123,
        hp_current: 12345,
        hp_max: 54321,
        element: "Jupiter".to_string(),
    }];
    let lines = show_party(&units);
    assert_eq!(
        lines[1],
        format!("  [{}] {:<12} Lv.{:>2}   HP: {:>4}/{:>4}   {}", 1, "Maximilianus Rex", 123, 12345, 54321, "Jupiter")
    );
}
