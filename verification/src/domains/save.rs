//! Saved games: the saved state of a game, a fresh game's state, and the
//! check of a save file's format version.
//!
//! Writing and reading the save files is the caller's part.
use vstd::prelude::*;
use vstd::string::*;

use crate::shared::{Direction, DjinnId, DjinnState, EncounterId, EquipmentId, GameScreen, QuestStage, UnitId};
use crate::text::{append_decimal, decimal};

verus! {

/// The format version that saves are written in and that loading accepts.
pub const CURRENT_SAVE_VERSION: u32 = 1;

/// The operating system's description of an I/O error.
#[verifier::external_type_specification]
#[verifier::external_body]
pub struct ExIoError(std::io::Error);

/// What went wrong while saving or loading a game.
#[derive(Debug)]
pub enum SaveError {
    IoError(std::io::Error),
    SerializeError(String),
    DeserializeError(String),
    VersionMismatch { expected: u32, found: u32 },
}

/// `std::io::Error`'s `Display` text, as `to_string` renders it. Nothing is
/// stated of the text: it comes from the operating system.
#[verifier::external_body]
fn io_error_text(e: &std::io::Error) -> String {
    e.to_string()
}

impl SaveError {
    /// The text shown for this error. For an I/O error, the text that follows
    /// "IO error: " is the operating system's.
    pub fn describe(&self) -> (r: String)
        ensures
            match self {
                SaveError::IoError(_) => "IO error: "@.is_prefix_of(r@),
                SaveError::SerializeError(m) => r@ == "Serialize error: "@ + m@,
                SaveError::DeserializeError(m) => r@ == "Deserialize error: "@ + m@,
                SaveError::VersionMismatch { expected, found } => r@ == "Version mismatch: expected "@
                    + decimal(*expected as nat) + ", found "@ + decimal(*found as nat),
            },
    {
        match self {
            SaveError::IoError(e) => {
                let mut r = String::from_str("IO error: ");
                let t = io_error_text(e);
                r.append(t.as_str());
                r
            },
            SaveError::SerializeError(m) => {
                let mut r = String::from_str("Serialize error: ");
                r.append(m.as_str());
                r
            },
            SaveError::DeserializeError(m) => {
                let mut r = String::from_str("Deserialize error: ");
                r.append(m.as_str());
                r
            },
            SaveError::VersionMismatch { expected, found } => {
                let mut r = String::from_str("Version mismatch: expected ");
                append_decimal(&mut r, *expected);
                r.append(", found ");
                append_decimal(&mut r, *found);
                r
            },
        }
    }
}

/// Accepts a save written in `found`'s format version, or tells which version
/// was expected.
pub fn check_save_version(found: u32) -> (r: Result<(), SaveError>)
    ensures
        found == CURRENT_SAVE_VERSION ==> r is Ok,
        found != CURRENT_SAVE_VERSION ==> (r matches Err(SaveError::VersionMismatch { expected, found: f })
            && expected == CURRENT_SAVE_VERSION && f == found),
{
    if found != CURRENT_SAVE_VERSION {
        Err(SaveError::VersionMismatch { expected: CURRENT_SAVE_VERSION, found })
    } else {
        Ok(())
    }
}

// ── Saved state ─────────────────────────────────────────────────────

/// The equipment a saved unit wears, slot by slot.
#[derive(Debug, Clone, PartialEq)]
pub struct SavedEquipment {
    pub weapon: Option<EquipmentId>,
    pub helm: Option<EquipmentId>,
    pub armor: Option<EquipmentId>,
    pub boots: Option<EquipmentId>,
    pub accessory: Option<EquipmentId>,
}

impl Default for SavedEquipment {
    fn default() -> (r: Self)
        ensures
            r.weapon is None,
            r.helm is None,
            r.armor is None,
            r.boots is None,
            r.accessory is None,
    {
        SavedEquipment { weapon: None, helm: None, armor: None, boots: None, accessory: None }
    }
}

/// A djinn as saved: which one, and its state.
#[derive(Debug, Clone, PartialEq)]
pub struct SavedDjinn {
    pub djinn_id: DjinnId,
    pub state: DjinnState,
}

/// A unit as saved.
#[derive(Debug, Clone, PartialEq)]
pub struct SavedUnit {
    pub unit_id: UnitId,
    pub level: u8,
    pub current_hp: u16,
    pub equipment: SavedEquipment,
    pub djinn: Vec<SavedDjinn>,
}

/// The saved state of a game.
#[derive(Debug, Clone, PartialEq)]
pub struct SaveData {
    pub version: u32,
    pub player_party: Vec<SavedUnit>,
    pub roster: Vec<SavedUnit>,
    pub gold: u32,
    pub xp: u32,
    pub current_encounter_id: Option<EncounterId>,
    pub completed_encounters: Vec<EncounterId>,
    pub inventory: Vec<EquipmentId>,
    pub team_djinn: Vec<SavedDjinn>,
    pub extension: Option<SaveDataExtension>,
}

/// Whether a node of the world map is open to the player.
#[derive(Clone, Copy, Debug, PartialEq, Eq, Hash, Structural)]
pub enum NodeUnlockState {
    Locked,
    Unlocked,
}

/// Where the player stood on the overworld. The position's two coordinates
/// are kept as their bit patterns; this library never reads them.
#[derive(Debug, Clone, PartialEq)]
pub struct OverworldSaveData {
    pub location: GameScreen,
    pub room: Option<u16>,
    pub position_x_bits: u32,
    pub position_y_bits: u32,
    pub facing: Direction,
}

/// The world-side state of a save: quests, map, overworld, shops, dungeons.
#[derive(Debug, Clone, PartialEq)]
pub struct SaveDataExtension {
    pub quest_state: Vec<(u16, QuestStage)>,
    pub map_unlock_state: Vec<(u16, NodeUnlockState)>,
    pub overworld: OverworldSaveData,
    pub shop_stock: Vec<(u8, Vec<(String, Option<u8>)>)>,
    pub visited_rooms: Vec<u16>,
    pub collected_items: Vec<(u16, u16, usize)>,
    pub play_time_seconds: u64,
    pub save_timestamp: String,
}

/// A fresh extension: no quest, map or shop state, standing on the title
/// screen at the origin (both coordinates 0.0, whose bits are all zero),
/// facing down, nothing visited or collected, no play time, no timestamp.
pub fn create_default_extension() -> (e: SaveDataExtension)
    ensures
        e.quest_state@.len() == 0,
        e.map_unlock_state@.len() == 0,
        e.overworld.location == GameScreen::Title,
        e.overworld.room is None,
        e.overworld.position_x_bits == 0,
        e.overworld.position_y_bits == 0,
        e.overworld.facing == Direction::Down,
        e.shop_stock@.len() == 0,
        e.visited_rooms@.len() == 0,
        e.collected_items@.len() == 0,
        e.play_time_seconds == 0,
        e.save_timestamp@.len() == 0,
{
    SaveDataExtension {
        quest_state: Vec::new(),
        map_unlock_state: Vec::new(),
        overworld: OverworldSaveData {
            location: GameScreen::Title,
            room: None,
            position_x_bits: 0,
            position_y_bits: 0,
            facing: Direction::Down,
        },
        shop_stock: Vec::new(),
        visited_rooms: Vec::new(),
        collected_items: Vec::new(),
        play_time_seconds: 0,
        save_timestamp: String::new(),
    }
}

/// A starting unit: level 1, 100 HP, the given weapon and nothing else, no djinn.
pub open spec fn is_starting_unit(u: SavedUnit, id: Seq<char>, weapon: Seq<char>) -> bool {
    &&& u.unit_id@ == id
    &&& u.level == 1
    &&& u.current_hp == 100
    &&& u.equipment.weapon matches Some(w) && w@ == weapon
    &&& u.equipment.helm is None
    &&& u.equipment.armor is None
    &&& u.equipment.boots is None
    &&& u.equipment.accessory is None
    &&& u.djinn@.len() == 0
}

fn starting_unit(id: &str, weapon: &str) -> (u: SavedUnit)
    ensures
        is_starting_unit(u, id@, weapon@),
{
    SavedUnit {
        unit_id: UnitId(String::from_str(id)),
        level: 1,
        current_hp: 100,
        equipment: SavedEquipment {
            weapon: Some(EquipmentId(String::from_str(weapon))),
            helm: None,
            armor: None,
            boots: None,
            accessory: None,
        },
        djinn: Vec::new(),
    }
}

/// A fresh game: the party is the Adept (Venus), the War Mage (Mars), the
/// Mystic (Mercury) and the Ranger (Jupiter), all at level 1 with 100 HP and a
/// basic weapon, without djinn; 200 gold, no experience, nothing else.
pub fn create_new_game() -> (d: SaveData)
    ensures
        d.version == CURRENT_SAVE_VERSION,
        d.player_party@.len() == 4,
        is_starting_unit(d.player_party@[0], "adept"@, "wooden-sword"@),
        is_starting_unit(d.player_party@[1], "war-mage"@, "wooden-axe"@),
        is_starting_unit(d.player_party@[2], "mystic"@, "wooden-staff"@),
        is_starting_unit(d.player_party@[3], "ranger"@, "wooden-sword"@),
        d.roster@.len() == 0,
        d.gold == 200,
        d.xp == 0,
        d.current_encounter_id is None,
        d.completed_encounters@.len() == 0,
        d.inventory@.len() == 0,
        d.team_djinn@.len() == 0,
        d.extension is None,
{
    let mut party: Vec<SavedUnit> = Vec::new();
    party.push(starting_unit("adept", "wooden-sword"));
    party.push(starting_unit("war-mage", "wooden-axe"));
    party.push(starting_unit("mystic", "wooden-staff"));
    party.push(starting_unit("ranger", "wooden-sword"));
    SaveData {
        version: CURRENT_SAVE_VERSION,
        player_party: party,
        roster: Vec::new(),
        gold: 200,
        xp: 0,
        current_encounter_id: None,
        completed_encounters: Vec::new(),
        inventory: Vec::new(),
        team_djinn: Vec::new(),
        extension: None,
    }
}

} // verus!
