//! Game domains: each module holds the rules of one part of the game.
pub mod combat;
pub mod ai;
pub mod djinn;
pub mod progression;
pub mod equipment;
pub mod dungeon;
pub mod encounter;
pub mod dialogue;
pub mod quest;
pub mod puzzle;
pub mod screens;
pub mod shop;
pub mod town;
pub mod status;
pub mod damage_mods;
pub mod menu;
pub mod battle_engine;
pub mod data_loader;
pub mod save;
pub mod cli_runner;
pub mod sprite_loader;
