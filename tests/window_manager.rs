use wm_core::geometry::Rectangle;
use wm_core::layout::Layout;
use wm_core::window_manager::{Command, Config, ViewError, WindowManager};

fn config(tags: &[&str], border_width: u32) -> Config {
    Config { tags: tags.iter().map(|t| t.to_string()).collect(), border_width }
}

fn screen() -> Rectangle {
    Rectangle::new(0, 0, 1920, 1080)
}

fn single_head(cfg: &Config) -> WindowManager {
    WindowManager::new(vec![screen()], cfg)
}

fn membership_count(wm: &WindowManager, w: u64) -> usize {
    let mut n = 0;
    for i in 0..wm.workspace_count() {
        n += wm.windows(i).iter().filter(|&&x| x == w).count();
    }
    n
}

#[test]
fn new_binds_first_workspace_and_hides_the_rest() {
    let cfg = config(&["web", "code", "chat"], 1);
    let wm = single_head(&cfg);
    assert_eq!(wm.workspace_count(), 3);
    assert_eq!(wm.current_workspace(), 0);
    assert_eq!(wm.current_screen(), screen());
    assert!(!wm.is_hidden(0));
    assert!(wm.is_hidden(1));
    assert!(wm.is_hidden(2));
    assert!(!wm.is_hidden(3));
    assert_eq!(wm.tag(1), "code");
    assert_eq!(wm.layout(0), Layout::Tall);
    assert!(wm.windows(0).is_empty());
}

#[test]
fn new_binds_one_workspace_per_screen() {
    let cfg = config(&["a", "b", "c"], 0);
    let wm = WindowManager::new(vec![screen(), Rectangle::new(1920, 0, 1280, 1024)], &cfg);
    assert_eq!(wm.current_workspace(), 0);
    assert!(!wm.is_hidden(1));
    assert!(wm.is_hidden(2));
}

#[test]
fn managed_until_unmanaged() {
    let cfg = config(&["a", "b"], 1);
    let mut wm = single_head(&cfg);
    assert!(!wm.is_window_managed(7));
    wm.manage(7, &cfg);
    assert!(wm.is_window_managed(7));
    wm.manage(8, &cfg);
    wm.unmanage(8, &cfg);
    wm.view(1, &cfg).unwrap();
    assert!(wm.is_window_managed(7));
    wm.unmanage(7, &cfg);
    assert!(!wm.is_window_managed(7));
}

#[test]
fn unmanage_unknown_window_does_nothing() {
    let cfg = config(&["a", "b"], 1);
    let mut wm = single_head(&cfg);
    wm.manage(1, &cfg);
    let cmds = wm.unmanage(99, &cfg);
    assert!(cmds.is_empty());
    assert_eq!(wm.windows(0), &vec![1]);
}

#[test]
fn manage_inserts_above_focus_and_focuses() {
    let cfg = config(&["a"], 0);
    let mut wm = single_head(&cfg);
    wm.manage(1, &cfg);
    wm.manage(2, &cfg);
    assert_eq!(wm.windows(0), &vec![2, 1]);
    assert_eq!(wm.focus(0), 0);
    wm.manage(3, &cfg);
    assert_eq!(wm.windows(0), &vec![3, 2, 1]);
    assert_eq!(wm.focus(0), 0);
}

#[test]
fn unmanage_moves_focus_to_next_or_previous() {
    let cfg = config(&["a"], 0);
    let mut wm = single_head(&cfg);
    wm.manage(1, &cfg);
    wm.manage(2, &cfg);
    wm.manage(3, &cfg);
    // stack [3, 2, 1], focus on 3
    wm.unmanage(3, &cfg);
    assert_eq!(wm.windows(0), &vec![2, 1]);
    assert_eq!(wm.focus(0), 0);
    wm.unmanage(1, &cfg);
    assert_eq!(wm.windows(0), &vec![2]);
    assert_eq!(wm.focus(0), 0);
    wm.unmanage(2, &cfg);
    assert!(wm.windows(0).is_empty());
}

#[test]
fn manage_already_managed_window_is_not_duplicated() {
    let cfg = config(&["a", "b"], 1);
    let mut wm = single_head(&cfg);
    wm.manage(5, &cfg);
    assert_eq!(membership_count(&wm, 5), 1);
    let cmds = wm.manage(5, &cfg);
    assert!(cmds.is_empty());
    assert_eq!(membership_count(&wm, 5), 1);
    wm.view(1, &cfg).unwrap();
    wm.manage(5, &cfg);
    assert_eq!(membership_count(&wm, 5), 1);
    assert!(wm.windows(1).is_empty());
}

#[test]
fn reapply_twice_gives_identical_commands() {
    let cfg = config(&["a", "b"], 3);
    let mut wm = single_head(&cfg);
    wm.manage(1, &cfg);
    wm.manage(2, &cfg);
    wm.view(1, &cfg).unwrap();
    wm.manage(3, &cfg);
    let first = wm.reapply_layout(&cfg);
    let second = wm.reapply_layout(&cfg);
    assert_eq!(first, second);
    assert!(!first.is_empty());
}

#[test]
fn hidden_windows_are_hidden_once_and_never_shown() {
    let cfg = config(&["a", "b", "c"], 1);
    let mut wm = single_head(&cfg);
    wm.manage(1, &cfg);
    wm.manage(2, &cfg);
    wm.view(1, &cfg).unwrap();
    wm.manage(3, &cfg);
    let cmds = wm.reapply_layout(&cfg);
    for w in [1u64, 2] {
        assert_eq!(cmds.iter().filter(|c| **c == Command::Hide(w)).count(), 1);
        assert!(!cmds.iter().any(|c| matches!(c,
            Command::Show(x) | Command::Resize(x, _, _) | Command::Move(x, _, _) | Command::SetBorderWidth(x, _) if *x == w)));
    }
    assert!(cmds.contains(&Command::Show(3)));
    assert!(!cmds.contains(&Command::Hide(3)));
}

#[test]
fn full_layout_shows_only_the_focused_window() {
    let cfg = config(&["a", "b"], 2);
    let mut wm = single_head(&cfg);
    wm.set_layout(0, Layout::Full).unwrap();
    wm.manage(2, &cfg);
    wm.manage(1, &cfg);
    assert_eq!(wm.windows(0), &vec![1, 2]);
    let cmds = wm.reapply_layout(&cfg);
    assert_eq!(
        cmds,
        vec![
            Command::Show(1),
            Command::Resize(1, 1916, 1076),
            Command::Move(1, 0, 0),
            Command::SetBorderWidth(1, 2),
        ]
    );
}

#[test]
fn tall_layout_splits_master_and_stack() {
    let cfg = config(&["a"], 0);
    let mut wm = single_head(&cfg);
    wm.manage(3, &cfg);
    wm.manage(2, &cfg);
    let cmds = wm.manage(1, &cfg);
    assert_eq!(
        cmds,
        vec![
            Command::Show(1),
            Command::Resize(1, 960, 1080),
            Command::Move(1, 0, 0),
            Command::SetBorderWidth(1, 0),
            Command::Show(2),
            Command::Resize(2, 960, 540),
            Command::Move(2, 960, 0),
            Command::SetBorderWidth(2, 0),
            Command::Show(3),
            Command::Resize(3, 960, 540),
            Command::Move(3, 960, 540),
            Command::SetBorderWidth(3, 0),
        ]
    );
}

#[test]
fn tall_layout_gives_a_lone_window_the_whole_screen() {
    let layout = Layout::Tall;
    let placed = layout.apply_layout(Rectangle::new(10, 20, 800, 600), &vec![4], 0);
    assert_eq!(placed, vec![(4, Rectangle::new(10, 20, 800, 600))]);
    let none = layout.apply_layout(Rectangle::new(10, 20, 800, 600), &vec![], 0);
    assert!(none.is_empty());
}

#[test]
fn border_wider_than_half_gives_negative_size() {
    let cfg = config(&["a"], 600);
    let mut wm = single_head(&cfg);
    let cmds = wm.manage(1, &cfg);
    assert_eq!(cmds[1], Command::Resize(1, 720, -120));
}

#[test]
fn empty_current_workspace_still_hides_hidden_windows() {
    let cfg = config(&["a", "b"], 1);
    let mut wm = single_head(&cfg);
    wm.manage(1, &cfg);
    let cmds = wm.view(1, &cfg).unwrap();
    assert_eq!(cmds, vec![Command::Hide(1)]);
}

#[test]
fn view_round_trip_restores_partition() {
    let cfg = config(&["a", "b", "c"], 1);
    let mut wm = single_head(&cfg);
    let previous = wm.current_workspace();
    wm.view(2, &cfg).unwrap();
    assert_eq!(wm.current_workspace(), 2);
    assert!(wm.is_hidden(0));
    wm.view(previous, &cfg).unwrap();
    assert_eq!(wm.current_workspace(), 0);
    assert!(wm.is_hidden(1));
    assert!(wm.is_hidden(2));
}

#[test]
fn view_of_a_visible_workspace_swaps_screens() {
    let cfg = config(&["a", "b", "c"], 0);
    let mut wm = WindowManager::new(vec![screen(), Rectangle::new(1920, 0, 1280, 1024)], &cfg);
    wm.view(1, &cfg).unwrap();
    assert_eq!(wm.current_workspace(), 1);
    assert!(!wm.is_hidden(0));
    assert!(wm.is_hidden(2));
    wm.view(0, &cfg).unwrap();
    assert_eq!(wm.current_workspace(), 0);
    assert!(!wm.is_hidden(1));
}

#[test]
fn view_of_current_workspace_changes_nothing() {
    let cfg = config(&["a", "b"], 0);
    let mut wm = single_head(&cfg);
    wm.view(0, &cfg).unwrap();
    assert_eq!(wm.current_workspace(), 0);
    assert!(wm.is_hidden(1));
}

#[test]
fn view_out_of_range_is_an_error() {
    let cfg = config(&["a", "b"], 0);
    let mut wm = single_head(&cfg);
    assert_eq!(wm.view(2, &cfg), Err(ViewError::InvalidIndex));
    assert_eq!(wm.current_workspace(), 0);
    assert_eq!(wm.set_layout(5, Layout::Full), Err(ViewError::InvalidIndex));
}

#[test]
fn no_window_in_two_stacks_after_many_events() {
    let cfg = config(&["a", "b", "c"], 1);
    let mut wm = single_head(&cfg);
    for step in 0u64..30 {
        match step % 5 {
            0 | 1 => {
                wm.manage(step % 7, &cfg);
            }
            2 => {
                wm.unmanage((step * 3) % 7, &cfg);
            }
            _ => {
                wm.view((step % 3) as usize, &cfg).unwrap();
            }
        }
        for w in 0..7 {
            let n = membership_count(&wm, w);
            assert!(n <= 1);
            assert_eq!(n == 1, wm.is_window_managed(w));
        }
    }
}
