//! The games whose resource files share this plugin format, and the
//! per-install settings the merge is run with. Reading a load order or an
//! install path from the host system is the caller's affair; this module
//! only models the game-specific constants.

use vstd::prelude::*;

verus! {

/// One of the engine family's games.
#[derive(Debug, Clone, Copy, PartialEq, Eq, Structural)]
pub enum Game {
    Morrowind,
    Oblivion,
    Skyrim,
    SkyrimSE,
    SkyrimVR,
    Fallout3,
    Fallout4,
    Fallout4VR,
}

impl Game {
    /// The game's display name.
    pub open spec fn spec_name(self) -> Seq<char> {
        match self {
            Game::Morrowind => "Morrowind"@,
            Game::Oblivion => "Oblivion"@,
            Game::Skyrim => "Skyrim"@,
            Game::SkyrimSE => "Skyrim Special Edition"@,
            Game::SkyrimVR => "Skyrim VR"@,
            Game::Fallout3 => "Fallout 3"@,
            Game::Fallout4 => "Fallout 4"@,
            Game::Fallout4VR => "Fallout 4 VR"@,
        }
    }

    /// The game's display name, as a string.
    pub fn name_string(&self) -> (r: String)
        ensures
            r@ == self.spec_name(),
    {
        match self {
            Game::Morrowind => "Morrowind".to_owned(),
            Game::Oblivion => "Oblivion".to_owned(),
            Game::Skyrim => "Skyrim".to_owned(),
            Game::SkyrimSE => "Skyrim Special Edition".to_owned(),
            Game::SkyrimVR => "Skyrim VR".to_owned(),
            Game::Fallout3 => "Fallout 3".to_owned(),
            Game::Fallout4 => "Fallout 4".to_owned(),
            Game::Fallout4VR => "Fallout 4 VR".to_owned(),
        }
    }

    /// The core modules the engine always loads even though the load-order
    /// file does not list them.
    pub open spec fn spec_implicit_modules(self) -> Seq<Seq<char>> {
        match self {
            Game::Skyrim | Game::SkyrimSE | Game::SkyrimVR => seq!["Skyrim.esm"@, "Update.esm"@],
            Game::Fallout4 | Game::Fallout4VR => seq!["Fallout4.esm"@],
            _ => Seq::empty(),
        }
    }

    /// The core modules, as strings.
    pub fn implicit_modules(&self) -> (r: Vec<String>)
        ensures
            r.deep_view() == self.spec_implicit_modules(),
    {
        match self {
            Game::Skyrim | Game::SkyrimSE | Game::SkyrimVR => {
                let mut v: Vec<String> = Vec::new();
                v.push("Skyrim.esm".to_owned());
                v.push("Update.esm".to_owned());
                proof {
                    assert(v.deep_view() =~= self.spec_implicit_modules());
                }
                v
            },
            Game::Fallout4 | Game::Fallout4VR => {
                let mut v: Vec<String> = Vec::new();
                v.push("Fallout4.esm".to_owned());
                proof {
                    assert(v.deep_view() =~= self.spec_implicit_modules());
                }
                v
            },
            _ => {
                let v: Vec<String> = Vec::new();
                proof {
                    assert(v.deep_view() =~= self.spec_implicit_modules());
                }
                v
            },
        }
    }
}

/// The settings one merge run works under: which game, where it is
/// installed, its implicit modules and the load order read so far. Reading
/// the load order from disk is up to the caller.
#[derive(Debug, Clone)]
pub struct GameSettings {
    pub id: String,
    pub name: String,
    pub location: String,
    pub implicit_modules: Vec<String>,
    pub load_order: Vec<String>,
}

impl GameSettings {
    /// Settings for a game installed at `location`, with an empty load
    /// order.
    pub fn new(game: Game, location: String) -> (s: GameSettings)
        ensures
            s.id@ == game.spec_name(),
            s.name@ == game.spec_name(),
            s.location@ == location@,
            s.implicit_modules.deep_view() == game.spec_implicit_modules(),
            s.load_order@.len() == 0,
    {
        let id = game.name_string();
        let name = game.name_string();
        let implicit_modules = game.implicit_modules();
        GameSettings { id, name, location, implicit_modules, load_order: Vec::new() }
    }
}

} // verus!
