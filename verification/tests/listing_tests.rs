use image_organizer::listing::{filter_image_entries, order_image_paths, sort_paths_desc};
use image_organizer::paths::{get_file_name, has_image_extension, join_dest_path, ImagePath};

fn strings(v: &[&str]) -> Vec<String> {
    v.iter().map(|s| s.to_string()) .collect()
}

#[test]
fn order_is_reverse_lexicographic() {
    let ordered = order_image_paths(strings(&["/d/test1.jpg", "/d/test2.jpg"]));
    assert_eq!(ordered, strings(&["/d/test2.jpg", "/d/test1.jpg"]));
}

#[test]
fn order_sorts_then_reverses() {
    let ordered = order_image_paths(strings(&[
        "/d/b.png",
        "/d/a.jpg",
        "/d/c.gif",
        "/d/aa.webp",
    ]));
    assert_eq!(ordered, strings(&["/d/c.gif", "/d/b.png", "/d/aa.webp", "/d/a.jpg"]));
}

#[test]
fn order_of_empty_listing_is_empty() {
    let ordered = order_image_paths(Vec::new());
    assert!(ordered.is_empty());
}

#[test]
fn filter_skips_non_images() {
    let kept = filter_image_entries(&strings(&[
        "/d/a.txt",
        "/d/b.JPG",
        "/d/c.jpeg",
        "/d/noext",
        "/d/.hidden",
        "/d/x.png.bak",
    ]));
    assert_eq!(kept, strings(&["/d/b.JPG", "/d/c.jpeg"]));
}

#[test]
fn extension_matching_ignores_case() {
    assert!(has_image_extension("/d/A.WEBP"));
    assert!(has_image_extension("/d/b.GiF"));
    assert!(has_image_extension("/d/c.Png"));
    assert!(!has_image_extension("/d/c.tiff"));
    assert!(!has_image_extension("/d/jpg"));
}

#[test]
fn hidden_file_has_no_extension() {
    assert!(!has_image_extension("/d/.jpg"));
    assert!(has_image_extension("/d/.config.jpg"));
}

#[test]
fn sort_keeps_duplicates() {
    let sorted = sort_paths_desc(strings(&["b", "a", "b"]));
    assert_eq!(sorted, strings(&["b", "b", "a"]));
}

#[test]
fn file_name_is_the_part_after_the_last_slash() {
    assert_eq!(get_file_name("/a/b/c.jpg"), "c.jpg");
    assert_eq!(get_file_name("file.png"), "file.png");
    assert_eq!(get_file_name("/a/b/"), "");
}

#[test]
fn joined_path_inserts_one_separator() {
    assert_eq!(join_dest_path("dest", "f.jpg"), "dest/f.jpg");
    assert_eq!(join_dest_path("dest/", "f.jpg"), "dest/f.jpg");
    assert_eq!(join_dest_path("", "f.jpg"), "f.jpg");
}

#[test]
fn image_path_round_trip_and_uri() {
    let ip = ImagePath::new("/p/x.jpg");
    assert_eq!(ip.path(), "/p/x.jpg");
    assert_eq!(ip.uri(), "file:///p/x.jpg");
}
