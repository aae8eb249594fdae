use esmerge::game::{Game, GameSettings};

#[test]
fn implicit_modules_for_skyrim_family() {
    let v = Game::SkyrimSE.implicit_modules();
    assert_eq!(v, vec!["Skyrim.esm".to_string(), "Update.esm".to_string()]);
    let v2 = Game::Skyrim.implicit_modules();
    assert_eq!(v2, vec!["Skyrim.esm".to_string(), "Update.esm".to_string()]);
}

#[test]
fn implicit_modules_for_fallout4() {
    let v = Game::Fallout4.implicit_modules();
    assert_eq!(v, vec!["Fallout4.esm".to_string()]);
}

#[test]
fn implicit_modules_empty_for_older_games() {
    assert!(Game::Morrowind.implicit_modules().is_empty());
    assert!(Game::Oblivion.implicit_modules().is_empty());
    assert!(Game::Fallout3.implicit_modules().is_empty());
}

#[test]
fn settings_carry_game_name_and_location() {
    let s = GameSettings::new(Game::SkyrimSE, "C:\\Games\\SSE".to_string());
    assert_eq!(s.name, "Skyrim Special Edition".to_string());
    assert_eq!(s.id, "Skyrim Special Edition".to_string());
    assert_eq!(s.location, "C:\\Games\\SSE".to_string());
    assert_eq!(
        s.implicit_modules,
        vec!["Skyrim.esm".to_string(), "Update.esm".to_string()]
    );
    assert!(s.load_order.is_empty());
}
