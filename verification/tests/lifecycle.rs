use destyle::app::allocate_unique_title;
use destyle::app::every_tab_has_buffer;
use destyle::app::first_free_title;
use destyle::app::Application;
use destyle::app::LifecycleError;
use destyle::app::ShowPanel;
use destyle::app::TITLE_SEARCH_LIMIT;
use destyle::layout::empty_layout;
use destyle::layout::shows_title;
use destyle::requests::RequestType;
use egui_dock::DockState;
use egui_dock::NodeIndex;
use egui_dock::SurfaceIndex;

fn shown(tree: &DockState<String>) -> Vec<String> {
    tree.iter_all_tabs().map(|(_, tab)| tab.clone()).collect()
}

fn stored(app: &Application) -> Vec<(String, String)> {
    let buffers = &app.file_viewer.buffers;
    (0..buffers.len())
        .map(|i| (buffers.title_at(i).clone(), buffers.content_at(i).clone()))
        .collect()
}

fn names(titles: &[&str]) -> Vec<String> {
    titles.iter().map(|t| t.to_string()).collect()
}

fn close_in_layout(app: &mut Application, title: &str) {
    let place = app.tree.find_tab(&title.to_string()).unwrap();
    app.tree.remove_tab(place);
    assert!(app.file_viewer.on_close(title));
}

#[test]
fn a_fresh_application_is_empty() {
    let app = Application::default();
    assert_eq!(app.show_panel, ShowPanel { top: true, left: true, right: true, center: true });
    assert_eq!(shown(&app.tree), Vec::<String>::new());
    assert_eq!(app.file_viewer.buffers.len(), 0);
    assert!(app.file_viewer.requests.is_empty());
}

#[test]
fn creates_in_a_row_are_numbered_from_one() {
    let mut app = Application::default();
    for _ in 0..12 {
        app.new_file();
    }
    assert_eq!(app.drain_requests(), Ok(()));
    let expected: Vec<String> = (1..=12).map(|i| format!("Untitled-{}", i)).collect();
    assert_eq!(shown(&app.tree), expected);
    let mut sorted = shown(&app.tree);
    sorted.sort();
    sorted.dedup();
    assert_eq!(sorted.len(), 12);
    assert_eq!(app.file_viewer.buffers.len(), 12);
    for title in &expected {
        assert_eq!(app.file_viewer.buffers.get(title), Some(&String::new()));
    }
}

#[test]
fn creates_over_several_drains_keep_counting() {
    let mut app = Application::default();
    app.new_file();
    assert_eq!(app.drain_requests(), Ok(()));
    app.new_file();
    app.new_file();
    assert_eq!(app.drain_requests(), Ok(()));
    assert_eq!(shown(&app.tree), names(&["Untitled-1", "Untitled-2", "Untitled-3"]));
}

#[test]
fn a_closed_title_is_given_out_again() {
    let mut app = Application::default();
    app.new_file();
    app.new_file();
    assert_eq!(app.drain_requests(), Ok(()));
    close_in_layout(&mut app, "Untitled-1");
    assert_eq!(app.drain_requests(), Ok(()));
    assert_eq!(shown(&app.tree), names(&["Untitled-2"]));
    app.new_file();
    assert_eq!(app.drain_requests(), Ok(()));
    assert_eq!(shown(&app.tree), names(&["Untitled-2", "Untitled-1"]));
    assert!(!shows_title(&app.tree, &"Untitled-3".to_string()));
    assert_eq!(
        stored(&app),
        vec![("Untitled-1".to_string(), String::new()), ("Untitled-2".to_string(), String::new())]
    );
}

#[test]
fn every_tab_has_its_buffer_after_a_drain() {
    let mut app = Application::default();
    app.new_file();
    app.new_file();
    app.new_file();
    assert_eq!(app.drain_requests(), Ok(()));
    assert!(every_tab_has_buffer(&app.tree, &app.file_viewer.buffers));
    close_in_layout(&mut app, "Untitled-2");
    app.new_file();
    assert_eq!(app.drain_requests(), Ok(()));
    assert!(every_tab_has_buffer(&app.tree, &app.file_viewer.buffers));
    assert_eq!(shown(&app.tree), names(&["Untitled-1", "Untitled-3", "Untitled-2"]));
    assert!(app.file_viewer.requests.is_empty());
}

#[test]
fn closing_a_tab_that_the_layout_still_shows_leaves_it_without_buffer() {
    let mut app = Application::default();
    app.new_file();
    assert_eq!(app.drain_requests(), Ok(()));
    assert!(app.file_viewer.on_close("Untitled-1"));
    assert_eq!(app.drain_requests(), Ok(()));
    assert_eq!(shown(&app.tree), names(&["Untitled-1"]));
    assert!(!every_tab_has_buffer(&app.tree, &app.file_viewer.buffers));
}

#[test]
fn closing_an_absent_title_changes_nothing() {
    let mut app = Application::default();
    app.new_file();
    assert_eq!(app.drain_requests(), Ok(()));
    app.file_viewer.buffers.get_mut("Untitled-1").unwrap().push_str("kept");
    let tabs_before = shown(&app.tree);
    let buffers_before = stored(&app);
    assert!(app.file_viewer.on_close("Ghost"));
    assert_eq!(app.drain_requests(), Ok(()));
    assert_eq!(shown(&app.tree), tabs_before);
    assert_eq!(stored(&app), buffers_before);
    assert_eq!(app.apply_request(&RequestType::CloseTab("Ghost".to_string())), Ok(()));
    assert_eq!(app.apply_request(&RequestType::CloseTab("Ghost".to_string())), Ok(()));
    assert_eq!(shown(&app.tree), tabs_before);
    assert_eq!(stored(&app), buffers_before);
}

#[test]
fn closing_twice_is_closing_once() {
    let mut app = Application::default();
    app.new_file();
    app.new_file();
    assert_eq!(app.drain_requests(), Ok(()));
    assert!(app.file_viewer.on_close("Untitled-2"));
    assert!(app.file_viewer.on_close("Untitled-2"));
    assert_eq!(app.drain_requests(), Ok(()));
    assert_eq!(stored(&app), vec![("Untitled-1".to_string(), String::new())]);
}

#[test]
fn close_all_drops_every_tab_and_buffer() {
    let mut app = Application::default();
    app.new_file();
    app.new_file();
    app.new_file();
    assert_eq!(app.drain_requests(), Ok(()));
    assert_eq!(app.file_viewer.buffers.len(), 3);
    app.file_viewer.buffers.get_mut("Untitled-2").unwrap().push_str("unsaved");
    app.show_panel.toggle_left();
    app.close_all_files_without_save();
    assert_eq!(app.file_viewer.buffers.len(), 0);
    assert!(app.file_viewer.buffers.is_empty());
    assert_eq!(app.tree.iter_all_tabs().count(), 0);
    assert_eq!(app.tree.main_surface().num_tabs(), 0);
    assert_eq!(app.tree.surfaces_count(), 1);
    assert_eq!(app.show_panel, ShowPanel { top: true, left: false, right: true, center: true });
    app.new_file();
    assert_eq!(app.drain_requests(), Ok(()));
    assert_eq!(shown(&app.tree), names(&["Untitled-1"]));
}

#[test]
fn close_all_keeps_waiting_requests() {
    let mut app = Application::default();
    app.new_file();
    app.close_all_files_without_save();
    assert_eq!(app.file_viewer.requests.len(), 1);
    assert_eq!(app.drain_requests(), Ok(()));
    assert_eq!(shown(&app.tree), names(&["Untitled-1"]));
}

#[test]
fn two_creates_then_one_close() {
    let mut app = Application::default();
    app.file_viewer.on_add(0, 0);
    app.file_viewer.on_add(0, 0);
    assert_eq!(app.drain_requests(), Ok(()));
    assert_eq!(
        stored(&app),
        vec![("Untitled-1".to_string(), String::new()), ("Untitled-2".to_string(), String::new())]
    );
    assert!(app.file_viewer.on_close("Untitled-1"));
    assert_eq!(app.drain_requests(), Ok(()));
    assert_eq!(stored(&app), vec![("Untitled-2".to_string(), String::new())]);
    assert_eq!(app.file_viewer.buffers.get("Untitled-2"), Some(&String::new()));
    assert_eq!(app.file_viewer.buffers.get("Untitled-1"), None);
}

#[test]
fn requests_are_applied_in_the_order_they_came() {
    let mut app = Application::default();
    app.new_file();
    assert!(app.file_viewer.on_close("Untitled-1"));
    app.new_file();
    assert_eq!(app.drain_requests(), Ok(()));
    assert_eq!(shown(&app.tree), names(&["Untitled-1", "Untitled-2"]));
    assert_eq!(stored(&app), vec![("Untitled-2".to_string(), String::new())]);
    assert!(app.file_viewer.requests.is_empty());
}

#[test]
fn a_create_overwrites_a_buffer_left_under_its_title() {
    let mut app = Application::default();
    app.file_viewer.buffers.insert("Untitled-1".to_string(), "left over".to_string());
    app.new_file();
    assert_eq!(app.drain_requests(), Ok(()));
    assert_eq!(shown(&app.tree), names(&["Untitled-1"]));
    assert_eq!(app.file_viewer.buffers.get("Untitled-1"), Some(&String::new()));
}

#[test]
fn new_file_asks_for_a_tab_at_the_root_of_the_main_surface() {
    let mut app = Application::default();
    app.new_file();
    assert_eq!(app.file_viewer.requests, vec![RequestType::CreateTab(0, 0)]);
    assert_eq!(SurfaceIndex::main().0, 0);
    assert_eq!(NodeIndex::root().0, 0);
    assert_eq!(shown(&app.tree), Vec::<String>::new());
    assert_eq!(app.file_viewer.buffers.len(), 0);
}

#[test]
fn the_first_free_title_fills_the_lowest_gap() {
    let layout = DockState::new(names(&["Untitled-1", "Notes", "Untitled-3", "Untitled-4"]));
    assert_eq!(allocate_unique_title(&layout), Ok("Untitled-2".to_string()));
    assert_eq!(first_free_title(&layout, 2), Ok("Untitled-2".to_string()));
    let none = empty_layout();
    assert_eq!(allocate_unique_title(&none), Ok("Untitled-1".to_string()));
}

#[test]
fn the_title_search_stops_at_its_limit() {
    let layout = DockState::new(names(&["Untitled-2", "Untitled-1", "Untitled-3"]));
    assert_eq!(first_free_title(&layout, 0), Err(LifecycleError::TitleAllocationExhaustion));
    assert_eq!(first_free_title(&layout, 1), Err(LifecycleError::TitleAllocationExhaustion));
    assert_eq!(first_free_title(&layout, 3), Err(LifecycleError::TitleAllocationExhaustion));
    assert_eq!(first_free_title(&layout, 4), Ok("Untitled-4".to_string()));
    assert_eq!(first_free_title(&layout, u64::MAX), Ok("Untitled-4".to_string()));
    assert_eq!(first_free_title(&empty_layout(), 0), Err(LifecycleError::TitleAllocationExhaustion));
    assert_eq!(TITLE_SEARCH_LIMIT, 1_000_000);
}

#[test]
fn a_create_that_finds_no_title_changes_nothing() {
    let mut app = Application::default();
    app.tree = DockState::new(names(&["Untitled-1"]));
    app.file_viewer.buffers.insert("Untitled-1".to_string(), "text".to_string());
    let create = RequestType::CreateTab(0, 0);
    assert_eq!(app.apply_request_within(&create, 1), Err(LifecycleError::TitleAllocationExhaustion));
    assert_eq!(app.apply_request_within(&create, 0), Err(LifecycleError::TitleAllocationExhaustion));
    assert_eq!(shown(&app.tree), names(&["Untitled-1"]));
    assert_eq!(stored(&app), vec![("Untitled-1".to_string(), "text".to_string())]);
    assert_eq!(app.apply_request_within(&create, 2), Ok(()));
    assert_eq!(shown(&app.tree), names(&["Untitled-1", "Untitled-2"]));
    assert_eq!(app.apply_request(&create), Ok(()));
    assert_eq!(shown(&app.tree), names(&["Untitled-1", "Untitled-2", "Untitled-3"]));
}

#[test]
fn a_drain_goes_on_after_a_create_that_found_no_title() {
    let mut app = Application::default();
    app.new_file();
    app.new_file();
    app.new_file();
    assert!(app.file_viewer.on_close("Untitled-1"));
    assert_eq!(app.drain_requests_within(2), Err(LifecycleError::TitleAllocationExhaustion));
    assert_eq!(shown(&app.tree), names(&["Untitled-1", "Untitled-2"]));
    assert_eq!(stored(&app), vec![("Untitled-2".to_string(), String::new())]);
    assert!(app.file_viewer.requests.is_empty());
    assert_eq!(app.drain_requests_within(2), Ok(()));
    app.new_file();
    assert_eq!(app.drain_requests_within(3), Ok(()));
    assert_eq!(shown(&app.tree), names(&["Untitled-1", "Untitled-2", "Untitled-3"]));
}

#[test]
fn a_title_is_shown_only_after_it_was_added() {
    let layout = DockState::new(names(&["Notes", "Draft"]));
    assert!(shows_title(&layout, &"Notes".to_string()));
    assert!(shows_title(&layout, &"Draft".to_string()));
    assert!(!shows_title(&layout, &"notes".to_string()));
    assert!(!shows_title(&layout, &"".to_string()));
    assert!(!shows_title(&empty_layout(), &"Notes".to_string()));
}

#[test]
fn the_empty_layout_has_one_surface_and_no_tab() {
    let layout = empty_layout();
    assert_eq!(layout.surfaces_count(), 1);
    assert_eq!(layout.iter_all_tabs().count(), 0);
    assert_eq!(layout.focused_leaf(), None);
}

#[test]
fn a_create_lands_in_the_leaf_it_names() {
    let mut app = Application::default();
    app.tree = DockState::new(names(&["left"]));
    let [old, new] = app.tree.main_surface_mut().split_right(NodeIndex::root(), 0.5, names(&["right"]));
    app.file_viewer.buffers.insert("left".to_string(), String::new());
    app.file_viewer.buffers.insert("right".to_string(), String::new());
    app.file_viewer.on_add(0, old.0);
    assert_eq!(app.drain_requests(), Ok(()));
    app.file_viewer.on_add(0, new.0);
    assert_eq!(app.drain_requests(), Ok(()));
    let placed: Vec<(usize, String)> =
        app.tree.iter_all_tabs().map(|((_, node), tab)| (node.0, tab.clone())).collect();
    assert_eq!(
        placed,
        vec![
            (old.0, "left".to_string()),
            (old.0, "Untitled-1".to_string()),
            (new.0, "right".to_string()),
            (new.0, "Untitled-2".to_string()),
        ]
    );
    assert_eq!(app.tree.focused_leaf(), Some((SurfaceIndex::main(), new)));
    assert!(every_tab_has_buffer(&app.tree, &app.file_viewer.buffers));
}

#[test]
fn a_create_that_names_no_leaf_lands_in_the_main_surface() {
    let mut app = Application::default();
    app.tree = DockState::new(names(&["only"]));
    app.file_viewer.buffers.insert("only".to_string(), String::new());
    app.file_viewer.on_add(7, 99);
    app.file_viewer.on_add(0, 3);
    assert_eq!(app.drain_requests(), Ok(()));
    let placed: Vec<(usize, usize, String)> =
        app.tree.iter_all_tabs().map(|((surface, node), tab)| (surface.0, node.0, tab.clone())).collect();
    assert_eq!(
        placed,
        vec![(0, 0, "only".to_string()), (0, 0, "Untitled-1".to_string()), (0, 0, "Untitled-2".to_string())]
    );
}

#[test]
fn a_create_at_a_split_root_lands_in_a_leaf_of_the_main_surface() {
    let mut app = Application::default();
    app.tree = DockState::new(names(&["left"]));
    let [_old, new] = app.tree.main_surface_mut().split_right(NodeIndex::root(), 0.5, names(&["right"]));
    app.new_file();
    assert_eq!(app.drain_requests(), Ok(()));
    let mut titles = shown(&app.tree);
    titles.sort();
    assert_eq!(titles, names(&["Untitled-1", "left", "right"]));
    let place = app.tree.find_tab(&"Untitled-1".to_string()).unwrap();
    assert_eq!(place.0, SurfaceIndex::main());
    assert_eq!(place.1, new);
}

#[test]
fn panel_flags_toggle() {
    let mut flags = ShowPanel::all();
    flags.toggle_left();
    assert_eq!(flags, ShowPanel { top: true, left: false, right: true, center: true });
    flags.toggle_right();
    assert_eq!(flags, ShowPanel { top: true, left: false, right: false, center: true });
    flags.toggle_left();
    flags.toggle_right();
    assert_eq!(flags, ShowPanel::all());
}
