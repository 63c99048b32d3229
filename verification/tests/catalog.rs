use mixer::catalog::{build_catalog, str_lt, CatalogError, Entry};
use mixer::engine::Command;
use mixer::engine::Track;

fn entry(name: &str, samples: Vec<i16>) -> Entry {
    Entry { name: name.to_string(), track: Track { data: samples } }
}

#[test]
fn name_order_is_lexicographic() {
    assert!(str_lt("a.mp3", "b.mp3"));
    assert!(!str_lt("b.mp3", "a.mp3"));
    assert!(!str_lt("a.mp3", "a.mp3"));
    assert!(str_lt("a", "a.mp3"));
    assert!(!str_lt("a.mp3", "a"));
    assert!(str_lt("", "a"));
    assert!(str_lt("Song", "song"));
}

#[test]
fn catalog_orders_alphabetically() {
    let entries = vec![
        entry("c.mp3", vec![3]),
        entry("a.mp3", vec![1]),
        entry("b.mp3", vec![2]),
    ];
    let (cat, tracks) = build_catalog(entries).unwrap();
    let names: Vec<&str> = cat.song_list().iter().map(|s| s.as_str()).collect();
    assert_eq!(names, vec!["a.mp3", "b.mp3", "c.mp3"]);
    assert_eq!(tracks[0].data, vec![1]);
    assert_eq!(tracks[1].data, vec![2]);
    assert_eq!(tracks[2].data, vec![3]);
}

#[test]
fn catalog_is_deterministic_whatever_the_decode_order() {
    // The same two files, arriving in either order, give the same listing
    // and the same track at each index.
    let one = vec![entry("a.mp3", vec![1, 2]), entry("b.mp3", vec![3, 4])];
    let other = vec![entry("b.mp3", vec![3, 4]), entry("a.mp3", vec![1, 2])];

    let (cat1, tracks1) = build_catalog(one).unwrap();
    let (cat2, tracks2) = build_catalog(other).unwrap();

    let names1: Vec<&str> = cat1.song_list().iter().map(|s| s.as_str()).collect();
    let names2: Vec<&str> = cat2.song_list().iter().map(|s| s.as_str()).collect();
    assert_eq!(names1, names2);
    assert_eq!(names1, vec!["a.mp3", "b.mp3"]);
    assert_eq!(tracks1.len(), tracks2.len());
    for (t1, t2) in tracks1.iter().zip(tracks2.iter()) {
        assert_eq!(t1.data, t2.data);
    }
}

#[test]
fn empty_directory_gives_empty_catalog() {
    let (cat, tracks) = build_catalog(vec![]).unwrap();
    assert!(cat.song_list().is_empty());
    assert!(tracks.is_empty());
}

#[test]
fn non_ascii_name_is_a_fatal_load_error() {
    let entries = vec![entry("a.mp3", vec![1]), entry("chanson\u{e9}.mp3", vec![2])];
    match build_catalog(entries) {
        Err(e) => assert_eq!(e, CatalogError::NonAsciiName),
        Ok(_) => panic!("a non-ASCII name must abort the load"),
    }
}

#[test]
fn lookup_finds_each_name_and_refuses_strangers() {
    let entries = vec![entry("b.mp3", vec![2]), entry("a.mp3", vec![1])];
    let (cat, tracks) = build_catalog(entries).unwrap();
    assert_eq!(cat.lookup(&"a.mp3".to_string()), Some(0));
    assert_eq!(cat.lookup(&"b.mp3".to_string()), Some(1));
    assert_eq!(cat.lookup(&"c.mp3".to_string()), None);
    assert_eq!(tracks[cat.lookup(&"b.mp3".to_string()).unwrap()].data, vec![2]);
}

#[test]
fn load_song_yields_the_load_command() {
    let entries = vec![entry("b.mp3", vec![2]), entry("a.mp3", vec![1])];
    let (cat, _tracks) = build_catalog(entries).unwrap();
    assert_eq!(cat.load_song(&"b.mp3".to_string()), Some(Command::LoadTrack(1)));
    assert_eq!(cat.load_song(&"missing.mp3".to_string()), None);
}
