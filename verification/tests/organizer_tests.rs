use image_organizer::listing::order_image_paths;
use image_organizer::movelog::MoveLogEntry;
use image_organizer::organizer::{FolderLetterEntry, MoveError, Organizer};

fn strings(v: &[&str]) -> Vec<String> {
    v.iter().map(|s| s.to_string()).collect()
}

fn organizer_with(v: &[&str]) -> Organizer {
    let mut app = Organizer::new();
    app.image_manager.set_images(order_image_paths(strings(v)));
    app
}

#[test]
fn remove_folder_letter_entries_test() {
    let mut app = Organizer::new();
    app.folder_letter_entries.push(FolderLetterEntry {
        folder: "folder1".to_string(),
        letter: 'A',
    });
    app.folder_letter_entries.push(FolderLetterEntry {
        folder: "folder2".to_string(),
        letter: 'B',
    });
    let indecies = vec![0, 1];
    app.remove_folder_letter_entries(indecies);
    assert!(app.folder_letter_entries.is_empty());
}

#[test]
fn remove_folder_letter_entries_keeps_the_rest_in_order() {
    let mut app = Organizer::new();
    for (folder, letter) in [("f0", 'a'), ("f1", 'b'), ("f2", 'c'), ("f3", 'd')] {
        app.folder_letter_entries.push(FolderLetterEntry {
            folder: folder.to_string(),
            letter,
        });
    }
    app.remove_folder_letter_entries(vec![3, 1]);
    let folders: Vec<&str> = app.folder_letter_entries.iter().map(|e| e.folder.as_str()).collect();
    assert_eq!(folders, vec!["f0", "f2"]);
}

#[test]
fn folders_for_letter_lists_matching_bindings_in_order() {
    let mut app = Organizer::new();
    for (folder, letter) in [("f1", 'a'), ("f2", 'b'), ("f3", 'a')] {
        app.folder_letter_entries.push(FolderLetterEntry {
            folder: folder.to_string(),
            letter,
        });
    }
    assert_eq!(app.folders_for_letter('a'), strings(&["f1", "f3"]));
    assert_eq!(app.folders_for_letter('b'), strings(&["f2"]));
    assert!(app.folders_for_letter('z').is_empty());
}

#[test]
fn scenario_two_files_moves_the_reverse_lexicographic_first() {
    let mut app = organizer_with(&["/src/test1.jpg", "/src/test2.jpg"]);
    let plan = app.move_current_plan("/dest").unwrap();
    assert_eq!(plan.src, "/src/test2.jpg");
    assert_eq!(plan.dest, "/dest/test2.jpg");
    app.apply_move(plan);
    assert_eq!(app.image_manager.num_images(), 1);
    assert_eq!(app.image_manager.current().unwrap(), "/src/test1.jpg");
    assert_eq!(app.move_log.len(), 1);
}

#[test]
fn scenario_single_file_move_empties_the_sequence() {
    let mut app = organizer_with(&["/src/test.jpg"]);
    let plan = app.move_current_plan("/dest").unwrap();
    app.apply_move(plan);
    assert_eq!(app.image_manager.num_images(), 0);
    assert!(app.image_manager.current().is_none());
}

#[test]
fn scenario_move_then_undo_restores_the_sequence() {
    let mut app = organizer_with(&["/src/test.jpg"]);
    let plan = app.move_current_plan("/dest").unwrap();
    app.apply_move(plan);

    let undo = app.undo_plan().unwrap();
    assert_eq!(undo.src, "/src/test.jpg");
    assert_eq!(undo.dest, "/dest/test.jpg");
    let restored = app.apply_undo();
    assert_eq!(restored, "/src/test.jpg");
    assert_eq!(app.image_manager.current().unwrap(), "/src/test.jpg");
    assert_eq!(app.image_manager.current_index(), 0);

    // a further undo finds nothing to undo
    assert!(app.undo_plan().is_none());
    assert!(app.undo_plan().is_none());
}

#[test]
fn scenario_move_on_empty_sequence_is_refused() {
    let mut app = Organizer::new();
    let r = app.move_current_plan("/dest");
    assert!(matches!(r, Err(MoveError::NoCurrentImage)));
    assert_eq!(app.move_log.len(), 0);
    assert_eq!(app.image_manager.num_images(), 0);
}

#[test]
fn scenario_two_moves_undo_in_reverse_order() {
    let mut app = organizer_with(&["/src/test1.jpg", "/src/test2.jpg"]);
    let plan = app.move_current_plan("/dest").unwrap();
    app.apply_move(plan);
    let plan = app.move_current_plan("/dest").unwrap();
    assert_eq!(plan.src, "/src/test1.jpg");
    app.apply_move(plan);
    assert_eq!(app.move_log.len(), 2);
    assert_eq!(app.image_manager.num_images(), 0);

    let first_undo = app.apply_undo();
    assert_eq!(first_undo, "/src/test1.jpg");
    let second_undo = app.apply_undo();
    assert_eq!(second_undo, "/src/test2.jpg");
    assert_eq!(app.move_log.len(), 0);
    assert_eq!(app.image_manager.num_images(), 2);
    assert_eq!(app.image_manager.current().unwrap(), "/src/test2.jpg");
}

#[test]
fn undo_restores_the_index_where_the_user_was_browsing() {
    let mut app = organizer_with(&["/src/a.jpg", "/src/b.jpg", "/src/c.jpg"]);
    // order is c, b, a; step to b
    app.next_image();
    let plan = app.move_current_plan("/dest").unwrap();
    assert_eq!(plan.src, "/src/b.jpg");
    app.apply_move(plan);
    assert_eq!(app.image_manager.current_index(), 1);
    app.apply_undo();
    assert_eq!(app.image_manager.current_index(), 1);
    assert_eq!(app.image_manager.current().unwrap(), "/src/b.jpg");
}

#[test]
fn an_io_failure_before_commit_leaves_everything_unchanged() {
    // the caller performs the rename between planning and committing;
    // when it fails, nothing is committed and nothing has changed
    let mut app = organizer_with(&["/src/test.jpg"]);
    let plan = app.move_current_plan("/dest").unwrap();
    let failure = MoveError::IoError("permission denied".to_string());
    assert!(matches!(failure, MoveError::IoError(_)));
    drop(plan);
    assert_eq!(app.image_manager.num_images(), 1);
    assert_eq!(app.move_log.len(), 0);
}

#[test]
fn display_info_counts_from_one() {
    let mut app = organizer_with(&["/src/test1.jpg", "/src/test2.jpg"]);
    let info = app.current_display_info().unwrap();
    assert_eq!(info.path, "/src/test2.jpg");
    assert_eq!(info.uri, "file:///src/test2.jpg");
    assert_eq!(info.position, 1);
    assert_eq!(info.total, 2);
    app.next_image();
    let info = app.current_display_info().unwrap();
    assert_eq!(info.position, 2);
}

#[test]
fn display_info_is_nothing_on_an_empty_sequence() {
    let mut app = Organizer::new();
    assert!(app.current_display_info().is_none());
}

#[test]
fn reconcile_cache_evicts_what_left_the_window() {
    let names: Vec<String> = (0..10).map(|i| format!("/d/{}.jpg", i)).collect();
    let mut app = Organizer::new();
    app.image_manager.set_images(order_image_paths(names));
    for _ in 0..10 {
        app.current_display_info();
        app.next_image();
    }
    let evicted = app.reconcile_cache();
    assert!(app.image_manager.live_len() <= 7);
    assert!(!evicted.is_empty());
}

#[test]
fn a_move_log_entry_can_be_copied_for_the_status_line() {
    let entry = MoveLogEntry {
        src: "/src/test.jpg".to_string(),
        dest: "/dest/test.jpg".to_string(),
    };
    let copy = entry.duplicate();
    assert_eq!(copy.src, entry.src);
    assert_eq!(copy.dest, entry.dest);
}
