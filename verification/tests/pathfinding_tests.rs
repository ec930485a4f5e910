use labyrintuine::pathfinding::{
    collect_wall_coords, find_entry_point, record_animation_steps, record_trace,
    transform_maze_to_screen_coords, AnimationManager, AnimationStep, DimensionError,
    ANIMATION_FRAME_DELAY_MS,
};

fn rows(data: &[&str]) -> Vec<String> {
    data.iter().map(|r| (*r).to_owned()).collect()
}

#[test]
fn test_animation_step_creation() {
    let add_step = AnimationStep::Add(5, 10);
    let remove_step = AnimationStep::Remove(3, 7);

    match add_step {
        AnimationStep::Add(x, y) => {
            assert_eq!(x, 5);
            assert_eq!(y, 10);
        }
        _ => panic!("Expected Add variant"),
    }

    match remove_step {
        AnimationStep::Remove(x, y) => {
            assert_eq!(x, 3);
            assert_eq!(y, 7);
        }
        _ => panic!("Expected Remove variant"),
    }
}

#[test]
fn test_animation_manager_new() {
    let manager = AnimationManager::new();

    assert!(manager.steps.is_empty());
    assert_eq!(manager.current_index, 0);
    assert!(manager.current_path.is_empty());
}

#[test]
fn test_animation_manager_default() {
    let manager = AnimationManager::default();

    assert!(manager.steps.is_empty());
    assert_eq!(manager.current_index, 0);
    assert!(manager.current_path.is_empty());
}

#[test]
fn test_animation_manager_reset() {
    let mut manager = AnimationManager::new();

    manager.steps.push(AnimationStep::Add(1, 2));
    manager.current_index = 5;
    manager.current_path.push((3, 4));

    manager.reset();

    assert_eq!(manager.steps.len(), 1);
    assert_eq!(manager.current_index, 0);
    assert!(manager.current_path.is_empty());
}

#[test]
fn test_animation_manager_clear() {
    let mut manager = AnimationManager::new();

    manager.steps.push(AnimationStep::Add(1, 2));
    manager.current_index = 5;
    manager.current_path.push((3, 4));

    manager.clear();

    assert!(manager.steps.is_empty());
    assert_eq!(manager.current_index, 0);
    assert!(manager.current_path.is_empty());
}

#[test]
fn test_animation_manager_update_add_step() {
    let mut manager = AnimationManager::new();
    manager.steps.push(AnimationStep::Add(5, 10));

    // The manager starts with frame time 0, so this tick fires; applying the
    // only step exhausts the trace, and playback loops back to idle.
    manager.update(ANIMATION_FRAME_DELAY_MS + 10);

    assert_eq!(manager.current_index, 0);
    assert!(manager.current_path.is_empty());
}

#[test]
fn test_animation_manager_update_remove_step() {
    let mut manager = AnimationManager::new();
    manager.current_path.push((5, 10));
    manager.steps.push(AnimationStep::Remove(5, 10));

    manager.update(ANIMATION_FRAME_DELAY_MS + 10);

    assert_eq!(manager.current_index, 0);
    assert!(manager.current_path.is_empty());
}

#[test]
fn test_animation_manager_update_timing() {
    let mut manager = AnimationManager::new();
    manager.steps.push(AnimationStep::Add(1, 2));

    // Less than a frame interval after the last frame: no-op.
    manager.update(ANIMATION_FRAME_DELAY_MS - 10);

    assert_eq!(manager.current_index, 0);
    assert!(manager.current_path.is_empty());
}

#[test]
fn test_animation_manager_update_loop_restart() {
    let mut manager = AnimationManager::new();
    manager.steps.push(AnimationStep::Add(1, 2));
    manager.current_index = 1; // At end of steps
    manager.current_path.push((1, 2));

    manager.update(ANIMATION_FRAME_DELAY_MS + 10);

    assert_eq!(manager.current_index, 0);
    assert!(manager.current_path.is_empty());
}

#[test]
fn test_update_applies_add_step() {
    let mut manager = AnimationManager::new();
    manager.steps.push(AnimationStep::Add(5, 10));
    manager.steps.push(AnimationStep::Add(1, 1));

    manager.update(ANIMATION_FRAME_DELAY_MS);

    assert_eq!(manager.current_index, 1);
    assert_eq!(manager.current_path, vec![(5, 10)]);
    assert_eq!(manager.last_update_time, ANIMATION_FRAME_DELAY_MS);
}

#[test]
fn test_update_removes_first_occurrence() {
    let mut manager = AnimationManager::new();
    manager.current_path.push((1, 1));
    manager.current_path.push((5, 10));
    manager.steps.push(AnimationStep::Remove(1, 1));
    manager.steps.push(AnimationStep::Add(0, 0));

    manager.update(ANIMATION_FRAME_DELAY_MS);

    assert_eq!(manager.current_index, 1);
    assert_eq!(manager.current_path, vec![(5, 10)]);
}

#[test]
fn test_record_animation_steps_with_exit() {
    let map_data = rows(&["11111", "13341", "11111"]);

    let mut current_path = Vec::new();
    let mut animation_steps = Vec::new();

    record_animation_steps(&map_data, (1, 1), &mut current_path, &mut animation_steps);

    assert!(!animation_steps.is_empty());
    match animation_steps
        .first()
        .expect("Animation steps should not be empty")
    {
        AnimationStep::Add(x, y) => {
            assert_eq!(*x, 1);
            assert_eq!(*y, 1);
        }
        _ => panic!("Expected first step to be Add"),
    }
}

#[test]
fn test_record_animation_steps_direct_exit() {
    let map_data = rows(&["111", "141", "111"]);

    let mut current_path = Vec::new();
    let mut animation_steps = Vec::new();

    record_animation_steps(&map_data, (1, 1), &mut current_path, &mut animation_steps);

    assert_eq!(animation_steps.len(), 2);
    match animation_steps
        .first()
        .expect("First animation step should exist")
    {
        AnimationStep::Add(1, 1) => {}
        _ => panic!("Expected Add step"),
    }
    match animation_steps
        .get(1)
        .expect("Second animation step should exist")
    {
        AnimationStep::Remove(1, 1) => {}
        _ => panic!("Expected Remove step"),
    }
}

#[test]
fn test_record_trace_minimal_grid() {
    let map_data = rows(&["2222", "2134", "2222"]);

    assert_eq!(find_entry_point(&map_data), Some((1, 1)));

    let steps = record_trace(&map_data).expect("grid has an entry");
    assert_eq!(steps[0], AnimationStep::Add(1, 1));

    // A branch reaches the exit at (3, 1) and leaves it at once.
    let exit_add = steps
        .iter()
        .position(|s| *s == AnimationStep::Add(3, 1))
        .expect("the exit cell is reached");
    assert_eq!(steps[exit_add + 1], AnimationStep::Remove(3, 1));
}

#[test]
fn test_record_trace_no_entry() {
    let map_data = rows(&["222", "232", "222"]);
    assert!(record_trace(&map_data).is_err());
}

#[test]
fn test_trace_balanced_concrete() {
    let map_data = rows(&["22224", "21332", "23332", "22222"]);
    let steps = record_trace(&map_data).expect("grid has an entry");

    assert!(!steps.is_empty());

    // Every coordinate is added exactly as often as it is removed.
    let mut coords: Vec<(usize, usize)> = Vec::new();
    for s in &steps {
        let c = match s {
            AnimationStep::Add(x, y) => (*x, *y),
            AnimationStep::Remove(x, y) => (*x, *y),
        };
        if !coords.contains(&c) {
            coords.push(c);
        }
    }
    for c in coords {
        let adds = steps
            .iter()
            .filter(|s| **s == AnimationStep::Add(c.0, c.1))
            .count();
        let removes = steps
            .iter()
            .filter(|s| **s == AnimationStep::Remove(c.0, c.1))
            .count();
        assert_eq!(adds, removes);
    }
}

#[test]
fn test_player_full_loop() {
    let map_data = rows(&["2222", "2134", "2222"]);
    let steps = record_trace(&map_data).expect("grid has an entry");
    let n = steps.len();

    let mut manager = AnimationManager::new();
    manager.steps = steps;

    // Exactly len(steps) ticks, each one frame interval apart, play the whole
    // trace and return the player to idle.
    for k in 1..=n {
        manager.update((k as u64) * ANIMATION_FRAME_DELAY_MS);
    }
    assert_eq!(manager.current_index, 0);
    assert!(manager.current_path.is_empty());
}

#[test]
fn test_transform_maze_to_screen_coords_basic() {
    let map_data = rows(&["111", "131", "111"]);

    let maze_coords = vec![(1, 1)];
    let result = transform_maze_to_screen_coords(&maze_coords, &map_data)
        .expect("Transform should work with valid data");

    assert_eq!(result.len(), 1);
    let (dx, dy) = result
        .first()
        .expect("Result should have at least one element")
        .to_owned();
    let (screen_x, screen_y) = (dx as f64 / 2.0, dy as f64 / 2.0);

    // For 3x3 grid, center (1,1) should map to (0.0, 0.0)
    assert!((screen_x - 0.0).abs() < f64::EPSILON);
    assert!((screen_y - 0.0).abs() < f64::EPSILON);
}

#[test]
fn test_transform_maze_to_screen_coords_multiple_points() {
    let map_data = rows(&["11111", "13331", "13331", "13331", "11111"]);

    let maze_coords = vec![(0, 0), (2, 2), (4, 4)];
    let result = transform_maze_to_screen_coords(&maze_coords, &map_data)
        .expect("Transform should work with valid data");

    assert_eq!(result.len(), 3);

    // For 5x5 grid:
    // (0,0) -> x = 0 - 2 = -2.0, y = 2 - 0 = 2.0
    let (dx0, dy0) = result
        .first()
        .expect("Result should have first element")
        .to_owned();
    let (x0, y0) = (dx0 as f64 / 2.0, dy0 as f64 / 2.0);
    assert!((x0 - (-2.0)).abs() < f64::EPSILON);
    assert!((y0 - 2.0).abs() < f64::EPSILON);
    // (2,2) -> x = 2 - 2 = 0.0, y = 2 - 2 = 0.0
    let (dx1, dy1) = result
        .get(1)
        .expect("Result should have second element")
        .to_owned();
    let (x1, y1) = (dx1 as f64 / 2.0, dy1 as f64 / 2.0);
    assert!((x1 - 0.0).abs() < f64::EPSILON);
    assert!((y1 - 0.0).abs() < f64::EPSILON);
    // (4,4) -> x = 4 - 2 = 2.0, y = 2 - 4 = -2.0
    let (dx2, dy2) = result
        .get(2)
        .expect("Result should have third element")
        .to_owned();
    let (x2, y2) = (dx2 as f64 / 2.0, dy2 as f64 / 2.0);
    assert!((x2 - 2.0).abs() < f64::EPSILON);
    assert!((y2 - (-2.0)).abs() < f64::EPSILON);
}

#[test]
fn test_transform_maze_to_screen_coords_empty_input() {
    let map_data = rows(&["111", "131", "111"]);

    let maze_coords = vec![];
    let result = transform_maze_to_screen_coords(&maze_coords, &map_data)
        .expect("Transform should work with empty input");

    assert!(result.is_empty());
}

#[test]
fn test_transform_maze_to_screen_coords_error_empty_map() {
    let map_data: Vec<String> = vec![];
    let maze_coords = vec![(0, 0)];

    let result = transform_maze_to_screen_coords(&maze_coords, &map_data);
    assert!(result.is_err());
    assert_eq!(result, Err(DimensionError::NoRows));
}

#[test]
fn test_transform_error_empty_first_row() {
    let map_data = rows(&[""]);
    let maze_coords = vec![(0, 0)];

    let result = transform_maze_to_screen_coords(&maze_coords, &map_data);
    assert_eq!(result, Err(DimensionError::EmptyFirstRow));
}

#[test]
fn test_transform_error_coordinate_too_large() {
    let map_data = rows(&["111", "131", "111"]);
    let maze_coords = vec![(70000, 0)];

    let result = transform_maze_to_screen_coords(&maze_coords, &map_data);
    assert_eq!(result, Err(DimensionError::TooLarge));
}

#[test]
fn test_animation_frame_delay_constant() {
    assert_eq!(ANIMATION_FRAME_DELAY_MS, 200);
}

#[test]
fn test_find_entry_point_row_major_order() {
    let map_data = rows(&["2222", "2312", "2132"]);
    assert_eq!(find_entry_point(&map_data), Some((2, 1)));

    let no_entry = rows(&["222", "232", "222"]);
    assert_eq!(find_entry_point(&no_entry), None);
}

#[test]
fn test_collect_wall_coords_basic() {
    let map_data = rows(&["222", "213", "222"]);
    let walls = collect_wall_coords(&map_data);

    assert_eq!(
        walls,
        vec![(0, 0), (1, 0), (2, 0), (0, 1), (0, 2), (1, 2), (2, 2)]
    );
}
