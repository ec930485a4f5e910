use labyrintuine::types::{MainMenuItem, MenuType, OptionsMenuItem, Screen};

#[test]
fn test_screen_variants() {
    let main_menu = Screen::MainMenu(MainMenuItem::StartGame);
    let options_menu = Screen::OptionsMenu(OptionsMenuItem::Back);
    let in_game = Screen::InGame;
    let map_menu = Screen::MapMenu;

    assert_eq!(main_menu, Screen::MainMenu(MainMenuItem::StartGame));
    assert_eq!(options_menu, Screen::OptionsMenu(OptionsMenuItem::Back));
    assert_eq!(in_game, Screen::InGame);
    assert_eq!(map_menu, Screen::MapMenu);

    assert_ne!(main_menu, in_game);
    assert_ne!(options_menu, map_menu);
}

#[test]
fn test_main_menu_item_variants() {
    let start_game = MainMenuItem::StartGame;
    let options = MainMenuItem::Options;
    let quit = MainMenuItem::Quit;

    assert_eq!(start_game, MainMenuItem::StartGame);
    assert_eq!(options, MainMenuItem::Options);
    assert_eq!(quit, MainMenuItem::Quit);

    assert_ne!(start_game, options);
    assert_ne!(options, quit);
    assert_ne!(start_game, quit);
}

#[test]
fn test_options_menu_item_variants() {
    let back = OptionsMenuItem::Back;
    let map = OptionsMenuItem::Maps;

    assert_eq!(back, OptionsMenuItem::Back);
    assert_eq!(map, OptionsMenuItem::Maps);
    assert_ne!(back, map);
}

#[test]
fn types_test_menu_type_repr() {
    let main_menu = MenuType::MainMenu(3);
    let options_menu = MenuType::OptionsMenu(2);

    assert_eq!(main_menu.repr(), "Main Menu");
    assert_eq!(options_menu.repr(), "Options Menu");
}

#[test]
fn types_test_menu_type_value() {
    let main_menu = MenuType::MainMenu(3);
    let options_menu = MenuType::OptionsMenu(2);

    assert_eq!(main_menu.value(), 3);
    assert_eq!(options_menu.value(), 2);
}

#[test]
fn test_menu_type_with_different_values() {
    let main_menu_5 = MenuType::MainMenu(5);
    let main_menu_10 = MenuType::MainMenu(10);
    let options_menu_0 = MenuType::OptionsMenu(0);

    assert_eq!(main_menu_5.value(), 5);
    assert_eq!(main_menu_10.value(), 10);
    assert_eq!(options_menu_0.value(), 0);

    assert_eq!(main_menu_5.repr(), "Main Menu");
    assert_eq!(main_menu_10.repr(), "Main Menu");
    assert_eq!(options_menu_0.repr(), "Options Menu");
}

#[test]
fn test_debug_implementations() {
    let screen = Screen::InGame;
    let main_item = MainMenuItem::StartGame;
    let options_item = OptionsMenuItem::Back;

    assert_eq!(format!("{screen:?}"), "InGame");
    assert_eq!(format!("{main_item:?}"), "StartGame");
    assert_eq!(format!("{options_item:?}"), "Back");
}

#[test]
fn test_clone_copy_traits() {
    let main_item = MainMenuItem::Options;
    let copied_main = main_item;
    let cloned_main = main_item;

    assert_eq!(main_item, copied_main);
    assert_eq!(main_item, cloned_main);

    let options_item = OptionsMenuItem::Maps;
    let copied_options = options_item;
    let cloned_options = options_item;

    assert_eq!(options_item, copied_options);
    assert_eq!(options_item, cloned_options);
}

#[test]
fn ui_test_menu_type_repr() {
    let main_menu = MenuType::MainMenu(3);
    let options_menu = MenuType::OptionsMenu(2);

    assert_eq!(main_menu.repr(), "Main Menu");
    assert_eq!(options_menu.repr(), "Options Menu");
}

#[test]
fn ui_test_menu_type_value() {
    let main_menu = MenuType::MainMenu(3);
    let options_menu = MenuType::OptionsMenu(2);

    assert_eq!(main_menu.value(), 3);
    assert_eq!(options_menu.value(), 2);
}
