//! The application state of a maze session.

use vstd::prelude::*;

use crate::format::{grid_valid, parse_file_contents};
use crate::map::{default_map_text, has_suffix, rfind_suffix, MazeMap};
use crate::pathfinding::AnimationManager;
use crate::text::spec_lines;
use crate::types::{MainMenuItem, Screen};

verus! {

/// Why a maze file's contents could not become a running session.
#[derive(Clone, Copy, Debug, PartialEq, Eq, Structural)]
pub enum MapLoadError {
    /// The contents do not form a well-formed grid.
    InvalidFormat,
    /// The file name lacks the map-file suffix.
    MissingSuffix,
}

/// The built-in fallback maze under its display name.
pub open spec fn is_default_map(m: &MazeMap) -> bool {
    m.key@ == "Default"@ && m.data.deep_view() == spec_lines(default_map_text())
}

/// An idle animation manager with an empty trace.
pub open spec fn manager_idle(m: &AnimationManager) -> bool {
    m.steps@.len() == 0 && m.current_index == 0 && m.current_path@.len() == 0
}

/// The session state: current screen, active maze, the list of selectable
/// mazes, the selection viewport, and the playback manager.
pub struct App {
    /// Whether the session should end.
    pub exit: bool,
    /// The screen currently shown.
    pub screen: Screen,
    /// The active maze.
    pub map: MazeMap,
    /// All selectable mazes, the fallback first.
    pub maps: Vec<MazeMap>,
    /// The maze under the cursor in the selection list.
    pub viewport_map: Option<MazeMap>,
    /// Scroll offset of the selection list viewport.
    pub viewport_offset: usize,
    /// Height of the selection list viewport, in rows.
    pub viewport_height: usize,
    /// Playback state of the exploration animation.
    pub animation_manager: AnimationManager,
}

/// The starting state: main menu, fallback maze, nothing selected, playback
/// idle.
pub open spec fn app_initial(a: &App) -> bool {
    &&& !a.exit
    &&& a.screen == Screen::MainMenu(MainMenuItem::StartGame)
    &&& is_default_map(&a.map)
    &&& a.maps@.len() == 0
    &&& a.viewport_map is None
    &&& a.viewport_offset == 0
    &&& a.viewport_height == 0
    &&& manager_idle(&a.animation_manager)
}

impl App {
    /// Creates the starting state of a session.
    pub fn new() -> (res: App)
        ensures
            app_initial(&res),
    {
        App {
            exit: false,
            screen: Screen::MainMenu(MainMenuItem::StartGame),
            map: MazeMap::default(),
            maps: Vec::new(),
            viewport_map: None,
            viewport_offset: 0,
            viewport_height: 0,
            animation_manager: AnimationManager::new(),
        }
    }

    /// Builds the state for a maze handed over at startup.
    ///
    /// `contents` must pass grid validation and `file_name` must carry the
    /// map-file suffix; the session then starts directly in the maze view
    /// with that maze active. Each failure is reported exactly.
    pub fn new_with_loaded_map(file_name: &str, contents: &str) -> (res: Result<
        App,
        MapLoadError,
    >)
        ensures
            match res {
                Ok(a) => {
                    &&& grid_valid(spec_lines(contents@))
                    &&& has_suffix(file_name@)
                    &&& !a.exit
                    &&& a.screen == Screen::InGame
                    &&& a.map.key@ == file_name@.take(rfind_suffix(file_name@))
                    &&& a.map.data.deep_view() == spec_lines(contents@)
                    &&& a.maps@.len() == 0
                    &&& a.viewport_map is None
                    &&& a.viewport_offset == 0
                    &&& a.viewport_height == 0
                    &&& manager_idle(&a.animation_manager)
                },
                Err(MapLoadError::InvalidFormat) => !grid_valid(spec_lines(contents@)),
                Err(MapLoadError::MissingSuffix) => grid_valid(spec_lines(contents@))
                    && !has_suffix(file_name@),
            },
    {
        if !parse_file_contents(contents) {
            return Err(MapLoadError::InvalidFormat);
        }
        let map = match MazeMap::new(file_name, contents) {
            Ok(m) => m,
            Err(_) => {
                return Err(MapLoadError::MissingSuffix);
            },
        };
        let mut app = App::new();
        app.map = map;
        app.screen = Screen::InGame;
        Ok(app)
    }
}

impl Default for App {
    /// Same state as [`App::new`].
    fn default() -> (res: App)
        ensures
            app_initial(&res),
    {
        App::new()
    }
}

} // verus!
