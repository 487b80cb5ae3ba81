//! Verified game-server rules: form parsing, shops, wallets, inventory, the hero inn,
//! hero growth and presets, live offers, summons, pets and events, equipment extensions
//! (soul weapons, runes, cosmetics, punishment runes, storage slots, NPC friendship) and
//! mail.
pub mod error;
pub mod text;
pub mod forms;
pub mod lists;
pub mod inventory;
pub mod wallet;
pub mod dice;
pub mod inn;
pub mod hero;
pub mod potion;
pub mod transcend;
pub mod growth;
pub mod mail;
pub mod lobby;
pub mod social;
pub mod live;
pub mod extensions;
pub mod renewal;
pub mod soul;
pub mod equip;
pub mod options;
pub mod skills;
pub mod shop;
pub mod item_use;
pub mod gear;
pub mod consumables;
pub mod valance;
pub mod buffs;
pub mod pets;
pub mod forge;
pub mod events;
pub mod summons;
pub mod offers;
pub mod presets;
pub mod soul_weapon;
pub mod npc;
pub mod runes;
pub mod cosmetics;
pub mod punishment;
pub mod storage;
