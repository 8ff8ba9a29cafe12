use image_organizer::cache::Loader;
use image_organizer::navigator::ImageManager;

fn strings(v: &[&str]) -> Vec<String> {
    v.iter().map(|s| s.to_string()).collect()
}

fn manager_with(v: &[&str]) -> ImageManager {
    let mut m = ImageManager::new();
    m.set_images(strings(v));
    m
}

#[test]
fn next_and_previous_wrap_around() {
    let mut m = manager_with(&["/d/c.jpg", "/d/b.jpg", "/d/a.jpg"]);
    assert_eq!(m.current_index(), 0);
    m.next_image();
    assert_eq!(m.current_index(), 1);
    m.next_image();
    assert_eq!(m.current_index(), 2);
    m.next_image();
    assert_eq!(m.current_index(), 0);
    m.previous_image();
    assert_eq!(m.current_index(), 2);
}

#[test]
fn cyclic_closure_after_length_steps() {
    let mut m = manager_with(&["/d/c.jpg", "/d/b.jpg", "/d/a.jpg"]);
    m.next_image();
    let start = m.current_index();
    for _ in 0..m.num_images() {
        m.next_image();
    }
    assert_eq!(m.current_index(), start);
    for _ in 0..m.num_images() {
        m.previous_image();
    }
    assert_eq!(m.current_index(), start);
}

#[test]
fn navigation_on_empty_sequence_is_a_noop() {
    let mut m = ImageManager::new();
    m.next_image();
    m.previous_image();
    assert_eq!(m.current_index(), 0);
    assert_eq!(m.num_images(), 0);
    assert!(m.current().is_none());
    assert!(m.load_current_image().is_none());
    assert!(m.remove_current_image().is_none());
}

#[test]
fn remove_current_returns_it_and_keeps_index_in_bounds() {
    let mut m = manager_with(&["/d/c.jpg", "/d/b.jpg", "/d/a.jpg"]);
    m.next_image();
    m.next_image();
    // the current image is the last one: removal steps the index back
    let removed = m.remove_current_image().unwrap();
    assert_eq!(removed, "/d/a.jpg");
    assert_eq!(m.num_images(), 2);
    assert_eq!(m.current_index(), 1);
    assert_eq!(m.current().unwrap(), "/d/b.jpg");
}

#[test]
fn remove_in_the_middle_makes_the_successor_current() {
    let mut m = manager_with(&["/d/c.jpg", "/d/b.jpg", "/d/a.jpg"]);
    m.next_image();
    let removed = m.remove_current_image().unwrap();
    assert_eq!(removed, "/d/b.jpg");
    assert_eq!(m.current_index(), 1);
    assert_eq!(m.current().unwrap(), "/d/a.jpg");
}

#[test]
fn remove_only_image_empties_the_sequence() {
    let mut m = manager_with(&["/d/a.jpg"]);
    let removed = m.remove_current_image().unwrap();
    assert_eq!(removed, "/d/a.jpg");
    assert_eq!(m.num_images(), 0);
    assert_eq!(m.current_index(), 0);
    assert!(m.current().is_none());
}

#[test]
fn add_image_inserts_at_the_current_index() {
    let mut m = manager_with(&["/d/c.jpg", "/d/a.jpg"]);
    m.next_image();
    m.add_image("/d/b.jpg");
    assert_eq!(m.num_images(), 3);
    assert_eq!(m.current_index(), 1);
    assert_eq!(m.current().unwrap(), "/d/b.jpg");
}

#[test]
fn load_current_image_hands_out_path_and_uri() {
    let mut m = manager_with(&["/d/b.jpg", "/d/a.jpg"]);
    let info = m.load_current_image().unwrap();
    assert_eq!(info.path, "/d/b.jpg");
    assert_eq!(info.uri, "file:///d/b.jpg");
}

#[test]
fn window_around_is_clamped_to_the_bounds() {
    let names: Vec<String> = (0..10).map(|i| format!("/d/{:02}.jpg", i)).collect();
    let mut m = ImageManager::new();
    m.set_images(names);
    let w = m.window_around(3);
    assert_eq!(w, vec!["/d/00.jpg", "/d/01.jpg", "/d/02.jpg", "/d/03.jpg"]);
    for _ in 0..5 {
        m.next_image();
    }
    let w = m.window_around(3);
    assert_eq!(w.len(), 7);
    assert_eq!(w[0], "/d/02.jpg");
    assert_eq!(w[6], "/d/08.jpg");
}

#[test]
fn request_is_idempotent() {
    let mut loader = Loader::new();
    let uri1 = loader.request("/d/a.jpg");
    let uri2 = loader.request("/d/a.jpg");
    assert_eq!(uri1, "file:///d/a.jpg");
    assert_eq!(uri1, uri2);
    assert_eq!(loader.live_len(), 1);
}

#[test]
fn reconcile_evicts_everything_outside_the_keep_set() {
    let mut loader = Loader::new();
    loader.request("/d/a.jpg");
    loader.request("/d/b.jpg");
    loader.request("/d/c.jpg");
    let evicted = loader.reconcile(&vec!["/d/b.jpg".to_string(), "/d/zzz.jpg".to_string()]);
    assert_eq!(evicted, vec!["/d/a.jpg", "/d/c.jpg"]);
    assert_eq!(loader.live_len(), 1);
    assert!(loader.is_live("/d/b.jpg"));
    assert!(!loader.is_live("/d/a.jpg"));
    // a kept path that was never live stays unmaterialized
    assert!(!loader.is_live("/d/zzz.jpg"));
}

#[test]
fn cleanup_bounds_the_live_entries_by_the_window() {
    let names: Vec<String> = (0..20).map(|i| format!("/d/{:02}.jpg", i)).collect();
    let mut m = ImageManager::new();
    m.set_images(names);
    for _ in 0..12 {
        m.load_current_image();
        m.next_image();
    }
    assert_eq!(m.live_len(), 12);
    let evicted = m.cleanup();
    assert!(m.live_len() <= 7);
    // the window around index 12 reaches from 09 to 15; of those only
    // 09, 10, 11 ever became live, so everything earlier is evicted
    assert_eq!(m.live_len(), 3);
    assert_eq!(evicted.len(), 9);
    assert!(evicted.contains(&"/d/00.jpg".to_string()));
    assert!(!evicted.contains(&"/d/11.jpg".to_string()));
}
