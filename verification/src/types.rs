//! Screen and menu navigation types.

use vstd::prelude::*;

verus! {

/// The screen currently shown to the user.
#[derive(Clone, Copy, Debug, PartialEq, Eq, Structural)]
pub enum Screen {
    /// The main menu, with its selected item.
    MainMenu(MainMenuItem),
    /// The options menu, with its selected item.
    OptionsMenu(OptionsMenuItem),
    /// The maze view, where the labyrinth is displayed and solved.
    InGame,
    /// The map selection list.
    MapMenu,
}

/// The selectable items of the main menu.
#[derive(Clone, Copy, Debug, PartialEq, Eq, Structural)]
pub enum MainMenuItem {
    /// Start the game.
    StartGame,
    /// Open the options menu.
    Options,
    /// Quit the application.
    Quit,
}

/// The selectable items of the options menu.
#[derive(Clone, Copy, Debug, PartialEq, Eq, Structural)]
pub enum OptionsMenuItem {
    /// Return to the main menu.
    Back,
    /// Open the map selection list.
    Maps,
}

/// A generic menu kind, carrying its number of items for layout.
pub enum MenuType {
    /// The main menu.
    MainMenu(u8),
    /// The options menu.
    OptionsMenu(u8),
}

impl MenuType {
    /// The display title of the menu.
    pub fn repr(&self) -> (r: &'static str)
        ensures
            match self {
                MenuType::MainMenu(_) => r@ == "Main Menu"@,
                MenuType::OptionsMenu(_) => r@ == "Options Menu"@,
            },
    {
        match self {
            MenuType::MainMenu(_) => "Main Menu",
            MenuType::OptionsMenu(_) => "Options Menu",
        }
    }

    /// The number of menu items carried by the variant.
    pub fn value(&self) -> (r: u8)
        ensures
            match self {
                MenuType::MainMenu(v) => r == v,
                MenuType::OptionsMenu(v) => r == v,
            },
    {
        match self {
            MenuType::MainMenu(value) => *value,
            MenuType::OptionsMenu(value) => *value,
        }
    }
}

} // verus!
