//! Menu and list navigation: the state transitions behind each key.
//!
//! The handlers are pure state transitions on [`App`]; polling the keyboard
//! and scanning the file system belong to the surrounding program. Where a
//! transition asks for outside work, the handler says so in its result.

use vstd::prelude::*;

use crate::app::{is_default_map, App};
use crate::map::{map_eqv, MazeMap};
use crate::types::{MainMenuItem, OptionsMenuItem, Screen};

verus! {

/// Why a navigation key could not be applied.
#[derive(Clone, Copy, Debug, PartialEq, Eq, Structural)]
pub enum EventError {
    /// The selection list has no map under the cursor.
    NoSelectedMap,
    /// The selection viewport shows no entry.
    EmptyViewport,
}

/// The content of a map: its name and grid views.
pub open spec fn map_view(m: &MazeMap) -> (Seq<char>, Seq<Seq<char>>) {
    (m.key@, m.data.deep_view())
}

/// First index of a map with content `v`, or `maps.len()` if none matches.
pub open spec fn find_first_eqv(maps: Seq<MazeMap>, v: (Seq<char>, Seq<Seq<char>>)) -> int
    decreases maps.len(),
{
    if maps.len() == 0 {
        0
    } else if map_view(&maps[0]) == v {
        0
    } else {
        1 + find_first_eqv(maps.drop_first(), v)
    }
}

pub proof fn lemma_find_first_eqv_unique(maps: Seq<MazeMap>, v: (Seq<char>, Seq<Seq<char>>), i: int)
    requires
        0 <= i <= maps.len(),
        forall|j: int| 0 <= j < i ==> map_view(&maps[j]) != v,
        i < maps.len() ==> map_view(&maps[i]) == v,
    ensures
        find_first_eqv(maps, v) == i,
    decreases maps.len(),
{
    if maps.len() == 0 {
    } else if map_view(&maps[0]) == v {
    } else {
        assert forall|j: int| 0 <= j < i - 1 implies map_view(&maps.drop_first()[j]) != v by {
            assert(maps.drop_first()[j] == maps[j + 1]);
        }
        if i - 1 < maps.drop_first().len() {
            assert(maps.drop_first()[i - 1] == maps[i]);
        }
        lemma_find_first_eqv_unique(maps.drop_first(), v, i - 1);
    }
}

/// The index the selection scan yields: the first map with content `v`, or 0
/// when none matches.
pub open spec fn selection_index(maps: Seq<MazeMap>, v: (Seq<char>, Seq<Seq<char>>)) -> int {
    if find_first_eqv(maps, v) < maps.len() {
        find_first_eqv(maps, v)
    } else {
        0
    }
}

/// Index one past the last entry shown by the selection viewport.
pub open spec fn viewport_end(len: int, offset: int, height: int) -> int {
    if offset + height <= len {
        offset + height
    } else {
        len
    }
}

/// Whether the selection viewport shows no entry.
pub open spec fn viewport_empty(len: int, offset: int, height: int) -> bool {
    offset >= len || height == 0
}

/// All fields of `b` equal those of `a`, except the screen.
pub open spec fn same_except_screen(a: &App, b: &App) -> bool {
    &&& b.exit == a.exit
    &&& b.map == a.map
    &&& b.maps == a.maps
    &&& b.viewport_map == a.viewport_map
    &&& b.viewport_offset == a.viewport_offset
    &&& b.viewport_height == a.viewport_height
    &&& b.animation_manager == a.animation_manager
}

/// All fields of `b` equal those of `a`, except the selection cursor and the
/// viewport offset.
pub open spec fn same_except_selection(a: &App, b: &App) -> bool {
    &&& b.exit == a.exit
    &&& b.screen == a.screen
    &&& b.map == a.map
    &&& b.maps == a.maps
    &&& b.viewport_height == a.viewport_height
    &&& b.animation_manager == a.animation_manager
}

/// Moves the selection cursor one entry down the map list, scrolling the
/// viewport when the cursor leaves it, exactly as [`handle_j_events`] states
/// for the map menu.
fn handle_j_map_menu(app: &mut App) -> (res: Result<(), EventError>)
    requires
        old(app).screen == Screen::MapMenu,
    ensures
        match old(app).viewport_map {
            None => res == Err::<(), EventError>(EventError::NoSelectedMap) && *final(app) == *old(
                app,
            ),
            Some(vm) => {
                if viewport_empty(
                    old(app).maps@.len() as int,
                    old(app).viewport_offset as int,
                    old(app).viewport_height as int,
                ) {
                    res == Err::<(), EventError>(EventError::EmptyViewport) && *final(app) == *old(
                        app,
                    )
                } else {
                    let len = old(app).maps@.len() as int;
                    let end = viewport_end(
                        len,
                        old(app).viewport_offset as int,
                        old(app).viewport_height as int,
                    );
                    let bump = map_view(&old(app).maps@[end - 1]) == map_view(&vm) && map_view(
                        &old(app).maps@[len - 1],
                    ) != map_view(&vm);
                    let idx = selection_index(old(app).maps@, map_view(&vm));
                    &&& res is Ok
                    &&& same_except_selection(old(app), final(app))
                    &&& final(app).viewport_offset == old(app).viewport_offset as int + (if bump {
                        1int
                    } else {
                        0int
                    })
                    &&& (if idx + 1 < len {
                        final(app).viewport_map matches Some(nm) && map_eqv(
                            &nm,
                            &old(app).maps@[idx + 1],
                        )
                    } else {
                        final(app).viewport_map == old(app).viewport_map
                    })
                }
            },
        },
{
    let vm = match &app.viewport_map {
        None => {
            return Err(EventError::NoSelectedMap);
        },
        Some(m) => m.clone(),
    };
    let len = app.maps.len();
    if app.viewport_offset >= len || app.viewport_height == 0 {
        return Err(EventError::EmptyViewport);
    }
    let end = if len - app.viewport_offset <= app.viewport_height {
        len
    } else {
        app.viewport_offset + app.viewport_height
    };

    let mut index: usize = 0;
    let mut found = false;
    let mut i: usize = 0;
    while i < len
        invariant
            *app == *old(app),
            len == app.maps@.len(),
            i <= len,
            found ==> index < i && map_view(&app.maps@[index as int]) == map_view(&vm) && (
            forall|j: int| 0 <= j < index ==> map_view(&app.maps@[j]) != map_view(&vm)),
            !found ==> index == 0 && (forall|j: int|
                0 <= j < i ==> map_view(&app.maps@[j]) != map_view(&vm)),
        decreases len - i,
    {
        if !found && vm == app.maps[i] {
            index = i;
            found = true;
        }
        i += 1;
    }
    proof {
        if found {
            lemma_find_first_eqv_unique(app.maps@, map_view(&vm), index as int);
        } else {
            lemma_find_first_eqv_unique(app.maps@, map_view(&vm), len as int);
        }
        assert(selection_index(app.maps@, map_view(&vm)) == index as int);
    }

    let at_viewport_end = vm == app.maps[end - 1];
    let at_list_end = vm == app.maps[len - 1];
    if at_viewport_end && !at_list_end {
        app.viewport_offset += 1;
    }

    if index + 1 < len {
        let next = app.maps[index + 1].clone();
        app.viewport_map = Some(next);
    }
    Ok(())
}

/// Applies the "down" key: moves the main or options menu selection one item
/// down, or moves the map list cursor to the next map, scrolling if needed.
pub fn handle_j_events(app: &mut App) -> (res: Result<(), EventError>)
    ensures
        match old(app).screen {
            Screen::MainMenu(MainMenuItem::StartGame) => res is Ok && same_except_screen(
                old(app),
                final(app),
            ) && final(app).screen == Screen::MainMenu(MainMenuItem::Options),
            Screen::MainMenu(MainMenuItem::Options) => res is Ok && same_except_screen(
                old(app),
                final(app),
            ) && final(app).screen == Screen::MainMenu(MainMenuItem::Quit),
            Screen::OptionsMenu(OptionsMenuItem::Maps) => res is Ok && same_except_screen(
                old(app),
                final(app),
            ) && final(app).screen == Screen::OptionsMenu(OptionsMenuItem::Back),
            Screen::MapMenu => match old(app).viewport_map {
                None => res == Err::<(), EventError>(EventError::NoSelectedMap) && *final(app)
                    == *old(app),
                Some(vm) => {
                    if viewport_empty(
                        old(app).maps@.len() as int,
                        old(app).viewport_offset as int,
                        old(app).viewport_height as int,
                    ) {
                        res == Err::<(), EventError>(EventError::EmptyViewport) && *final(app)
                            == *old(app)
                    } else {
                        let len = old(app).maps@.len() as int;
                        let end = viewport_end(
                            len,
                            old(app).viewport_offset as int,
                            old(app).viewport_height as int,
                        );
                        let bump = map_view(&old(app).maps@[end - 1]) == map_view(&vm) && map_view(
                            &old(app).maps@[len - 1],
                        ) != map_view(&vm);
                        let idx = selection_index(old(app).maps@, map_view(&vm));
                        &&& res is Ok
                        &&& same_except_selection(old(app), final(app))
                        &&& final(app).viewport_offset == old(app).viewport_offset as int + (
                        if bump {
                            1int
                        } else {
                            0int
                        })
                        &&& (if idx + 1 < len {
                            final(app).viewport_map matches Some(nm) && map_eqv(
                                &nm,
                                &old(app).maps@[idx + 1],
                            )
                        } else {
                            final(app).viewport_map == old(app).viewport_map
                        })
                    }
                },
            },
            _ => res is Ok && *final(app) == *old(app),
        },
{
    match app.screen {
        Screen::MainMenu(MainMenuItem::StartGame) => {
            app.screen = Screen::MainMenu(MainMenuItem::Options);
            Ok(())
        },
        Screen::MainMenu(MainMenuItem::Options) => {
            app.screen = Screen::MainMenu(MainMenuItem::Quit);
            Ok(())
        },
        Screen::OptionsMenu(OptionsMenuItem::Maps) => {
            app.screen = Screen::OptionsMenu(OptionsMenuItem::Back);
            Ok(())
        },
        Screen::MapMenu => handle_j_map_menu(app),
        _ => Ok(()),
    }
}

/// Moves the selection cursor one entry up the map list, scrolling the
/// viewport when the cursor leaves it, exactly as [`handle_k_events`] states
/// for the map menu.
fn handle_k_map_menu(app: &mut App) -> (res: Result<(), EventError>)
    requires
        old(app).screen == Screen::MapMenu,
    ensures
        match old(app).viewport_map {
            None => res == Err::<(), EventError>(EventError::NoSelectedMap) && *final(app) == *old(
                app,
            ),
            Some(vm) => {
                if viewport_empty(
                    old(app).maps@.len() as int,
                    old(app).viewport_offset as int,
                    old(app).viewport_height as int,
                ) {
                    res == Err::<(), EventError>(EventError::EmptyViewport) && *final(app) == *old(
                        app,
                    )
                } else {
                    let bump = map_view(&old(app).maps@[old(app).viewport_offset as int])
                        == map_view(&vm) && map_view(&old(app).maps@[0]) != map_view(&vm);
                    let idx = selection_index(old(app).maps@, map_view(&vm));
                    let target = if idx > 0 {
                        idx - 1
                    } else {
                        0int
                    };
                    &&& res is Ok
                    &&& same_except_selection(old(app), final(app))
                    &&& final(app).viewport_offset == old(app).viewport_offset as int - (if bump {
                        1int
                    } else {
                        0int
                    })
                    &&& (final(app).viewport_map matches Some(nm) && map_eqv(
                        &nm,
                        &old(app).maps@[target],
                    ))
                }
            },
        },
{
    let vm = match &app.viewport_map {
        None => {
            return Err(EventError::NoSelectedMap);
        },
        Some(m) => m.clone(),
    };
    let len = app.maps.len();
    if app.viewport_offset >= len || app.viewport_height == 0 {
        return Err(EventError::EmptyViewport);
    }

    let mut index: usize = 0;
    let mut found = false;
    let mut i: usize = 0;
    while i < len
        invariant
            *app == *old(app),
            len == app.maps@.len(),
            i <= len,
            found ==> index < i && map_view(&app.maps@[index as int]) == map_view(&vm) && (
            forall|j: int| 0 <= j < index ==> map_view(&app.maps@[j]) != map_view(&vm)),
            !found ==> index == 0 && (forall|j: int|
                0 <= j < i ==> map_view(&app.maps@[j]) != map_view(&vm)),
        decreases len - i,
    {
        if !found && vm == app.maps[i] {
            index = i;
            found = true;
        }
        i += 1;
    }
    proof {
        if found {
            lemma_find_first_eqv_unique(app.maps@, map_view(&vm), index as int);
        } else {
            lemma_find_first_eqv_unique(app.maps@, map_view(&vm), len as int);
        }
        assert(selection_index(app.maps@, map_view(&vm)) == index as int);
    }

    let at_viewport_start = vm == app.maps[app.viewport_offset];
    let at_list_start = vm == app.maps[0];
    if at_viewport_start && !at_list_start {
        app.viewport_offset -= 1;
    }

    let target = if index > 0 {
        index - 1
    } else {
        0
    };
    let prev = app.maps[target].clone();
    app.viewport_map = Some(prev);
    Ok(())
}

/// Applies the "up" key: moves the main or options menu selection one item
/// up, or moves the map list cursor to the previous map, scrolling if needed.
pub fn handle_k_events(app: &mut App) -> (res: Result<(), EventError>)
    ensures
        match old(app).screen {
            Screen::MainMenu(MainMenuItem::Quit) => res is Ok && same_except_screen(
                old(app),
                final(app),
            ) && final(app).screen == Screen::MainMenu(MainMenuItem::Options),
            Screen::MainMenu(MainMenuItem::Options) => res is Ok && same_except_screen(
                old(app),
                final(app),
            ) && final(app).screen == Screen::MainMenu(MainMenuItem::StartGame),
            Screen::OptionsMenu(OptionsMenuItem::Back) => res is Ok && same_except_screen(
                old(app),
                final(app),
            ) && final(app).screen == Screen::OptionsMenu(OptionsMenuItem::Maps),
            Screen::MapMenu => match old(app).viewport_map {
                None => res == Err::<(), EventError>(EventError::NoSelectedMap) && *final(app)
                    == *old(app),
                Some(vm) => {
                    if viewport_empty(
                        old(app).maps@.len() as int,
                        old(app).viewport_offset as int,
                        old(app).viewport_height as int,
                    ) {
                        res == Err::<(), EventError>(EventError::EmptyViewport) && *final(app)
                            == *old(app)
                    } else {
                        let bump = map_view(&old(app).maps@[old(app).viewport_offset as int])
                            == map_view(&vm) && map_view(&old(app).maps@[0]) != map_view(&vm);
                        let idx = selection_index(old(app).maps@, map_view(&vm));
                        let target = if idx > 0 {
                            idx - 1
                        } else {
                            0int
                        };
                        &&& res is Ok
                        &&& same_except_selection(old(app), final(app))
                        &&& final(app).viewport_offset == old(app).viewport_offset as int - (
                        if bump {
                            1int
                        } else {
                            0int
                        })
                        &&& (final(app).viewport_map matches Some(nm) && map_eqv(
                            &nm,
                            &old(app).maps@[target],
                        ))
                    }
                },
            },
            _ => res is Ok && *final(app) == *old(app),
        },
{
    match app.screen {
        Screen::MainMenu(MainMenuItem::Quit) => {
            app.screen = Screen::MainMenu(MainMenuItem::Options);
            Ok(())
        },
        Screen::MainMenu(MainMenuItem::Options) => {
            app.screen = Screen::MainMenu(MainMenuItem::StartGame);
            Ok(())
        },
        Screen::OptionsMenu(OptionsMenuItem::Back) => {
            app.screen = Screen::OptionsMenu(OptionsMenuItem::Maps);
            Ok(())
        },
        Screen::MapMenu => handle_k_map_menu(app),
        _ => Ok(()),
    }
}

/// Applies the "select" key.
///
/// In the menus it descends or quits; entering the map menu seeds the list
/// with the fallback maze and selects it; in the map menu it makes the map
/// under the cursor the active one. `Ok(true)` asks the caller to scan the
/// file system for further maps and append them to the list — that scan is
/// outside work.
pub fn handle_l_events(app: &mut App) -> (res: Result<bool, EventError>)
    ensures
        match old(app).screen {
            Screen::MainMenu(MainMenuItem::StartGame) => res == Ok::<bool, EventError>(false)
                && same_except_screen(old(app), final(app)) && final(app).screen == Screen::InGame,
            Screen::MainMenu(MainMenuItem::Options) => res == Ok::<bool, EventError>(false)
                && same_except_screen(old(app), final(app)) && final(app).screen
                == Screen::OptionsMenu(OptionsMenuItem::Maps),
            Screen::MainMenu(MainMenuItem::Quit) => res == Ok::<bool, EventError>(false) && (
            *final(app) == App { exit: true, ..*old(app) }),
            Screen::OptionsMenu(OptionsMenuItem::Maps) => {
                &&& res == Ok::<bool, EventError>(true)
                &&& final(app).screen == Screen::MapMenu
                &&& final(app).maps@.len() == 1
                &&& is_default_map(&final(app).maps@[0])
                &&& (final(app).viewport_map matches Some(d) && is_default_map(&d))
                &&& final(app).viewport_offset == 0
                &&& final(app).exit == old(app).exit
                &&& final(app).map == old(app).map
                &&& final(app).viewport_height == old(app).viewport_height
                &&& final(app).animation_manager == old(app).animation_manager
            },
            Screen::OptionsMenu(OptionsMenuItem::Back) => res == Ok::<bool, EventError>(false)
                && same_except_screen(old(app), final(app)) && final(app).screen
                == Screen::MainMenu(MainMenuItem::StartGame),
            Screen::MapMenu => match old(app).viewport_map {
                None => res == Err::<bool, EventError>(EventError::NoSelectedMap) && *final(app)
                    == *old(app),
                Some(vm) => {
                    &&& res == Ok::<bool, EventError>(false)
                    &&& map_eqv(&final(app).map, &vm)
                    &&& final(app).exit == old(app).exit
                    &&& final(app).screen == old(app).screen
                    &&& final(app).maps == old(app).maps
                    &&& final(app).viewport_map == old(app).viewport_map
                    &&& final(app).viewport_offset == old(app).viewport_offset
                    &&& final(app).viewport_height == old(app).viewport_height
                    &&& final(app).animation_manager == old(app).animation_manager
                },
            },
            _ => res == Ok::<bool, EventError>(false) && *final(app) == *old(app),
        },
{
    match app.screen {
        Screen::MainMenu(MainMenuItem::StartGame) => {
            app.screen = Screen::InGame;
            Ok(false)
        },
        Screen::MainMenu(MainMenuItem::Options) => {
            app.screen = Screen::OptionsMenu(OptionsMenuItem::Maps);
            Ok(false)
        },
        Screen::MainMenu(MainMenuItem::Quit) => {
            app.exit = true;
            Ok(false)
        },
        Screen::OptionsMenu(OptionsMenuItem::Maps) => {
            app.screen = Screen::MapMenu;
            let first = MazeMap::default();
            let first_again = first.clone();
            app.maps.clear();
            app.maps.push(first);
            app.viewport_map = Some(first_again);
            app.viewport_offset = 0;
            Ok(true)
        },
        Screen::OptionsMenu(OptionsMenuItem::Back) => {
            app.screen = Screen::MainMenu(MainMenuItem::StartGame);
            Ok(false)
        },
        Screen::MapMenu => {
            let vm = match &app.viewport_map {
                None => {
                    return Err(EventError::NoSelectedMap);
                },
                Some(m) => m.clone(),
            };
            app.map = vm;
            Ok(false)
        },
        _ => Ok(false),
    }
}

/// Applies the "back" key: leaves the maze view (discarding the recorded
/// trace) or the map menu.
pub fn handle_h_events(app: &mut App)
    ensures
        match old(app).screen {
            Screen::InGame => {
                &&& final(app).screen == Screen::MainMenu(MainMenuItem::StartGame)
                &&& final(app).animation_manager.steps@.len() == 0
                &&& final(app).animation_manager.current_index == 0
                &&& final(app).animation_manager.current_path@.len() == 0
                &&& final(app).animation_manager.last_update_time == old(
                    app,
                ).animation_manager.last_update_time
                &&& final(app).exit == old(app).exit
                &&& final(app).map == old(app).map
                &&& final(app).maps == old(app).maps
                &&& final(app).viewport_map == old(app).viewport_map
                &&& final(app).viewport_offset == old(app).viewport_offset
                &&& final(app).viewport_height == old(app).viewport_height
            },
            Screen::MapMenu => same_except_screen(old(app), final(app)) && final(app).screen
                == Screen::OptionsMenu(OptionsMenuItem::Maps),
            _ => *final(app) == *old(app),
        },
{
    match app.screen {
        Screen::InGame => {
            app.animation_manager.clear();
            app.screen = Screen::MainMenu(MainMenuItem::StartGame);
        },
        Screen::MapMenu => {
            app.screen = Screen::OptionsMenu(OptionsMenuItem::Maps);
        },
        _ => {},
    }
}

} // verus!
