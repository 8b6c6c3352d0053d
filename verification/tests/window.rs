use slideshow::path_map::PathMap;
use slideshow::playlist::Playlist;
use slideshow::window::{
    load_failures, Frame, GameWindow, ImageLoad, Keys, LoadError, Screen, TextureHandle,
};

fn paths_of(paths: &[&str]) -> Vec<String> {
    paths.iter().map(|path| path.to_string()).collect()
}

fn loaded(path: &str, id: u64) -> ImageLoad {
    ImageLoad { path: path.to_string(), outcome: Ok(TextureHandle { id }) }
}

fn failed(path: &str, reason: &str) -> ImageLoad {
    ImageLoad { path: path.to_string(), outcome: Err(reason.to_string()) }
}

fn window_of(paths: &[&str]) -> GameWindow {
    let loads = paths.iter().enumerate().map(|(i, path)| loaded(path, i as u64)).collect();
    GameWindow::new(Vec::new(), loads)
}

const FORWARD: Keys = Keys { advance: true, retreat: false };
const BACK: Keys = Keys { advance: false, retreat: true };
const BOTH: Keys = Keys { advance: true, retreat: true };
const NONE: Keys = Keys { advance: false, retreat: false };

#[test]
fn path_map_starts_empty() {
    let map: PathMap<u64> = PathMap::new();
    assert_eq!(map.len(), 0);
    assert!(!map.contains_key(&"a".to_string()));
    assert_eq!(map.get(&"a".to_string()), None);
}

#[test]
fn path_map_holds_what_was_inserted() {
    let mut map: PathMap<u64> = PathMap::new();
    map.insert("a".to_string(), 1);
    map.insert("b".to_string(), 2);
    assert_eq!(map.len(), 2);
    assert_eq!(map.get(&"a".to_string()), Some(&1));
    assert_eq!(map.get(&"b".to_string()), Some(&2));
    assert!(map.contains_key(&"b".to_string()));
    assert!(!map.contains_key(&"c".to_string()));
}

#[test]
fn path_map_last_write_wins() {
    let mut map: PathMap<u64> = PathMap::new();
    map.insert("a".to_string(), 1);
    map.insert("b".to_string(), 2);
    map.insert("a".to_string(), 3);
    assert_eq!(map.len(), 2);
    assert_eq!(map.get(&"a".to_string()), Some(&3));
    assert_eq!(map.get(&"b".to_string()), Some(&2));
}

#[test]
fn playlist_starts_at_the_first_path() {
    let playlist = Playlist::new(paths_of(&["a2.jpg"]), paths_of(&["a1.jpg", "a10.jpg"]));
    assert_eq!(playlist.len(), 3);
    assert_eq!(playlist.index(), 0);
    assert_eq!(playlist.current(), Some(&"a2.jpg".to_string()));
    assert_eq!(playlist.paths(), &paths_of(&["a2.jpg", "a1.jpg", "a10.jpg"]));
}

#[test]
fn playlist_advance_n_times_returns_to_start() {
    for n in 1..6usize {
        let found: Vec<String> = (0..n).map(|i| format!("pic{}", i)).collect();
        for start in 0..n {
            let mut playlist = Playlist::new(Vec::new(), found.clone());
            for _ in 0..start {
                playlist.advance();
            }
            assert_eq!(playlist.index(), start);
            for _ in 0..n {
                assert!(playlist.advance());
            }
            assert_eq!(playlist.index(), start);
        }
    }
}

#[test]
fn playlist_wraps_at_both_ends() {
    let mut playlist = Playlist::new(Vec::new(), paths_of(&["pic1", "pic2", "pic3", "pic4"]));
    assert!(playlist.retreat());
    assert_eq!(playlist.index(), 3);
    assert_eq!(playlist.current(), Some(&"pic4".to_string()));
    assert!(playlist.advance());
    assert_eq!(playlist.index(), 0);
    assert!(playlist.advance());
    assert_eq!(playlist.index(), 1);
    assert!(playlist.retreat());
    assert_eq!(playlist.index(), 0);
}

#[test]
fn playlist_of_one_path_stays_on_it() {
    let mut playlist = Playlist::new(paths_of(&["only"]), Vec::new());
    assert!(playlist.advance());
    assert_eq!(playlist.index(), 0);
    assert!(playlist.retreat());
    assert_eq!(playlist.index(), 0);
}

#[test]
fn empty_playlist_has_nowhere_to_go() {
    let mut playlist = Playlist::new(Vec::new(), Vec::new());
    assert_eq!(playlist.len(), 0);
    assert_eq!(playlist.current(), None);
    assert!(!playlist.advance());
    assert!(!playlist.retreat());
    assert_eq!(playlist.index(), 0);
}

#[test]
fn playlist_extend_sorts_again_and_keeps_the_cover() {
    let mut playlist = Playlist::new(paths_of(&["c5", "c1"]), paths_of(&["c3"]));
    assert_eq!(playlist.paths(), &paths_of(&["c5", "c1", "c3"]));
    playlist.advance();
    playlist.extend(paths_of(&["c2", "c0", "c9"]));
    assert_eq!(playlist.paths(), &paths_of(&["c5", "c0", "c1", "c2", "c3", "c9"]));
    assert_eq!(playlist.index(), 1);
}

#[test]
fn playlist_extend_without_a_cover_only_sorts() {
    let mut playlist = Playlist::new(Vec::new(), paths_of(&["c3"]));
    playlist.extend(paths_of(&["c2", "c10"]));
    assert_eq!(playlist.paths(), &paths_of(&["c2", "c3", "c10"]));
}

#[test]
fn default_window_is_empty() {
    let window = GameWindow::default();
    assert!(window.image_paths().is_empty());
    assert_eq!(window.current_image_index(), 0);
    assert_eq!(window.texture_count(), 0);
    assert_eq!(window.output_text(), "");
    assert_eq!(window.screen(), Screen::NoImage);
    assert_eq!(window.initial_image_path(), None);
}

#[test]
fn end_to_end_seed_is_first_and_the_rest_ascends() {
    let loads = vec![loaded("a1.jpg", 1), loaded("a2.jpg", 2), loaded("a10.jpg", 10)];
    let window = GameWindow::new(paths_of(&["a2.jpg"]), loads);
    assert_eq!(window.image_paths(), &paths_of(&["a2.jpg", "a1.jpg", "a2.jpg", "a10.jpg"]));
    assert_eq!(window.current_image_index(), 0);
    assert_eq!(window.texture_count(), 3);
    assert_eq!(window.screen(), Screen::Image(TextureHandle { id: 2 }));
    assert_eq!(window.initial_image_path(), None);
}

#[test]
fn end_to_end_in_another_walk_order() {
    let loads = vec![loaded("a10.jpg", 10), loaded("a2.jpg", 2), loaded("a1.jpg", 1)];
    let window = GameWindow::new(paths_of(&["a2.jpg"]), loads);
    assert_eq!(window.image_paths(), &paths_of(&["a2.jpg", "a1.jpg", "a2.jpg", "a10.jpg"]));
}

#[test]
fn new_window_asks_for_a_first_image_without_texture() {
    let window = GameWindow::new(paths_of(&["cover.png"]), vec![loaded("img1.png", 1)]);
    assert_eq!(window.image_paths(), &paths_of(&["cover.png", "img1.png"]));
    assert_eq!(window.initial_image_path(), Some("cover.png".to_string()));
    assert_eq!(window.screen(), Screen::Loading);
}

#[test]
fn load_image_records_a_texture() {
    let mut window = GameWindow::new(paths_of(&["cover.png"]), Vec::new());
    assert_eq!(window.texture(&"cover.png".to_string()), None);
    assert_eq!(window.load_image(loaded("cover.png", 7)), Ok(()));
    assert_eq!(window.texture(&"cover.png".to_string()), Some(TextureHandle { id: 7 }));
    assert_eq!(window.screen(), Screen::Image(TextureHandle { id: 7 }));
    assert_eq!(window.initial_image_path(), None);
}

#[test]
fn load_image_again_overwrites_the_texture() {
    let mut window = GameWindow::new(paths_of(&["cover.png"]), vec![loaded("cover.png", 1)]);
    assert_eq!(window.load_image(loaded("cover.png", 2)), Ok(()));
    assert_eq!(window.texture_count(), 1);
    assert_eq!(window.texture(&"cover.png".to_string()), Some(TextureHandle { id: 2 }));
}

#[test]
fn failed_load_leaves_the_window_as_it_was() {
    let mut window = GameWindow::new(paths_of(&["a1.png"]), vec![loaded("a2.png", 2)]);
    let result = window.load_image(failed("missing.png", "No such file or directory"));
    assert_eq!(
        result,
        Err(LoadError {
            path: "missing.png".to_string(),
            reason: "No such file or directory".to_string(),
        })
    );
    assert_eq!(window.texture(&"missing.png".to_string()), None);
    assert_eq!(window.texture_count(), 1);
    assert_eq!(window.image_paths(), &paths_of(&["a1.png", "a2.png"]));
    assert_eq!(window.current_image_index(), 0);
}

#[test]
fn failed_load_keeps_an_earlier_texture() {
    let mut window = GameWindow::new(Vec::new(), vec![loaded("a1.png", 1)]);
    assert!(window.load_image(failed("a1.png", "corrupt")).is_err());
    assert_eq!(window.texture(&"a1.png".to_string()), Some(TextureHandle { id: 1 }));
}

#[test]
fn directory_load_keeps_the_path_of_a_failed_image() {
    let mut window = GameWindow::new(paths_of(&["a2.png"]), Vec::new());
    let failures = window.load_images_from_directory(vec![
        loaded("a3.png", 3),
        failed("a1.png", "corrupt"),
        loaded("a2.png", 2),
        failed("a0.png", "truncated"),
    ]);
    assert_eq!(
        failures,
        vec![
            LoadError { path: "a1.png".to_string(), reason: "corrupt".to_string() },
            LoadError { path: "a0.png".to_string(), reason: "truncated".to_string() },
        ]
    );
    assert_eq!(
        window.image_paths(),
        &paths_of(&["a2.png", "a0.png", "a1.png", "a2.png", "a3.png"])
    );
    assert_eq!(window.texture_count(), 2);
    assert_eq!(window.texture(&"a1.png".to_string()), None);
    assert_eq!(window.texture(&"a3.png".to_string()), Some(TextureHandle { id: 3 }));
}

#[test]
fn failed_image_shows_the_placeholder() {
    let mut window = GameWindow::new(Vec::new(), vec![loaded("a1.png", 1), failed("a2.png", "bad")]);
    assert_eq!(window.screen(), Screen::Image(TextureHandle { id: 1 }));
    assert!(window.advance());
    assert_eq!(window.screen(), Screen::Loading);
}

#[test]
fn load_failures_lists_only_failures() {
    let loads = vec![failed("x", "e1"), loaded("y", 1), failed("z", "e2")];
    assert_eq!(
        load_failures(&loads),
        vec![
            LoadError { path: "x".to_string(), reason: "e1".to_string() },
            LoadError { path: "z".to_string(), reason: "e2".to_string() },
        ]
    );
    assert!(load_failures(&vec![loaded("y", 1)]).is_empty());
}

#[test]
fn load_error_message() {
    let error = LoadError { path: "a.png".to_string(), reason: "Format error".to_string() };
    assert_eq!(error.message(), "Failed to open image a.png: Format error");
}

#[test]
fn screen_captions() {
    assert_eq!(Screen::Image(TextureHandle { id: 1 }).caption(), None);
    assert_eq!(Screen::Loading.caption(), Some("Loading image or error occurred..."));
    assert_eq!(Screen::NoImage.caption(), Some("No image available."));
}

#[test]
fn advance_n_times_returns_to_start() {
    let names = ["s1", "s2", "s3", "s4", "s5"];
    for start in 0..names.len() {
        let mut window = window_of(&names);
        for _ in 0..start {
            window.advance();
        }
        for _ in 0..names.len() {
            assert!(window.advance());
        }
        assert_eq!(window.current_image_index(), start);
    }
}

#[test]
fn retreat_from_first_yields_last() {
    let mut window = window_of(&["s1", "s2", "s3"]);
    assert!(window.retreat());
    assert_eq!(window.current_image_index(), 2);
}

#[test]
fn advance_from_last_yields_first() {
    let mut window = window_of(&["s1", "s2", "s3"]);
    window.retreat();
    assert_eq!(window.current_image_index(), 2);
    assert!(window.advance());
    assert_eq!(window.current_image_index(), 0);
}

#[test]
fn gated_image_blocks_advance() {
    let mut window = window_of(&["s1", "s2", "s3"]);
    window.require("s2".to_string(), "key".to_string());
    assert_eq!(window.requirement(&"s2".to_string()), Some(&"key".to_string()));
    assert_eq!(window.requirement(&"s1".to_string()), None);
    assert!(window.advance());
    assert_eq!(window.current_image_index(), 1);
    assert!(!window.advance());
    assert_eq!(window.current_image_index(), 1);
    assert!(!window.advance());
    assert_eq!(window.current_image_index(), 1);
}

#[test]
fn gated_image_does_not_block_retreat() {
    let mut window = window_of(&["s1", "s2", "s3"]);
    window.require("s1".to_string(), "key".to_string());
    window.require("s2".to_string(), "key".to_string());
    window.require("s3".to_string(), "key".to_string());
    assert!(!window.advance());
    assert!(window.retreat());
    assert_eq!(window.current_image_index(), 2);
    assert!(window.retreat());
    assert_eq!(window.current_image_index(), 1);
    assert!(window.retreat());
    assert_eq!(window.current_image_index(), 0);
}

#[test]
fn empty_window_ignores_both_keys() {
    let mut window = GameWindow::default();
    assert!(!window.advance());
    assert!(!window.retreat());
    assert_eq!(window.current_image_index(), 0);
    let frame = window.update(BOTH);
    assert_eq!(frame, Frame { screen: Screen::NoImage, repaint: false });
    assert_eq!(window.current_image_index(), 0);
}

#[test]
fn update_shows_the_image_the_frame_began_with() {
    let mut window = window_of(&["s1", "s2", "s3"]);
    let frame = window.update(FORWARD);
    assert_eq!(frame, Frame { screen: Screen::Image(TextureHandle { id: 0 }), repaint: true });
    assert_eq!(window.current_image_index(), 1);
    let frame = window.update(NONE);
    assert_eq!(frame, Frame { screen: Screen::Image(TextureHandle { id: 1 }), repaint: false });
    assert_eq!(window.current_image_index(), 1);
    let frame = window.update(BACK);
    assert_eq!(frame, Frame { screen: Screen::Image(TextureHandle { id: 1 }), repaint: true });
    assert_eq!(window.current_image_index(), 0);
}

#[test]
fn update_with_both_keys_steps_forward_then_back() {
    let mut window = window_of(&["s1", "s2", "s3"]);
    let frame = window.update(BOTH);
    assert!(frame.repaint);
    assert_eq!(window.current_image_index(), 0);
    window.require("s1".to_string(), "key".to_string());
    let frame = window.update(BOTH);
    assert!(frame.repaint);
    assert_eq!(window.current_image_index(), 2);
}

#[test]
fn update_on_a_gated_image_asks_for_no_repaint() {
    let mut window = window_of(&["s1", "s2"]);
    window.require("s1".to_string(), "key".to_string());
    let frame = window.update(FORWARD);
    assert_eq!(frame, Frame { screen: Screen::Image(TextureHandle { id: 0 }), repaint: false });
    assert_eq!(window.current_image_index(), 0);
}

#[test]
fn output_text_is_kept() {
    let mut window = window_of(&["s1"]);
    window.set_output_text("hello".to_string());
    assert_eq!(window.output_text(), "hello");
    window.advance();
    assert_eq!(window.output_text(), "hello");
}
