use zetsubou::collect;
use zetsubou::stat::{look_through, Stat, StatError};
use zetsubou::tree::Entry;

fn stat(size: u64, num_files: u64, num_images: u64, num_mp4s: u64, num_galleries: u64) -> Stat {
    Stat { size, num_files, num_images, num_mp4s, num_galleries }
}

/// `a.txt` of 10 bytes, and `sub/` that holds `b.mp4` of 20 bytes.
fn small_tree() -> Option<Entry> {
    Some(Entry::dir(vec![
        Entry::file("a.txt", 10),
        Entry::dir(vec![Entry::file("b.mp4", 20)]),
    ]))
}

/// Three levels: files and directories at depths 0, 1 and 2.
fn deep_tree() -> Option<Entry> {
    Some(Entry::dir(vec![
        Entry::file("top.png", 1),
        Entry::file("top.MP4", 2),
        Entry::dir(vec![
            Entry::file("mid.jpg", 4),
            Entry::file("mid.txt", 8),
            Entry::dir(vec![
                Entry::file("low.gif", 16),
                Entry::file("low.mp4", 32),
                Entry::dir(vec![]),
            ]),
            Entry::dir(vec![Entry::file("other.webp", 64)]),
        ]),
        Entry::dir(vec![]),
        Entry::file("noext", 128),
    ]))
}

#[test]
fn threshold_one_counts_below_the_subdirectory() {
    assert_eq!(collect(&small_tree(), 1), Ok(stat(30, 1, 0, 1, 0)));
}

#[test]
fn threshold_zero_counts_the_top_level() {
    assert_eq!(collect(&small_tree(), 0), Ok(stat(30, 2, 0, 1, 1)));
}

#[test]
fn an_empty_root_gives_zero_at_any_threshold() {
    let root = Some(Entry::dir(vec![]));
    for depth in [i64::MIN, -1, 0, 1, 7, i64::MAX] {
        assert_eq!(collect(&root, depth), Ok(stat(0, 0, 0, 0, 0)));
    }
}

#[test]
fn an_image_at_the_threshold_is_a_file_and_an_image() {
    let root = Some(Entry::dir(vec![Entry::file("photo.PNG", 5)]));
    assert_eq!(collect(&root, 0), Ok(stat(5, 1, 1, 0, 0)));
}

#[test]
fn a_missing_root_gives_zero() {
    for depth in [-3, 0, 2] {
        assert_eq!(collect(&None, depth), Ok(stat(0, 0, 0, 0, 0)));
    }
}

#[test]
fn a_root_that_is_a_file_gives_zero() {
    let root = Some(Entry::file("clip.mp4", 99));
    for depth in [-3, 0, 2] {
        assert_eq!(collect(&root, depth), Ok(stat(0, 0, 0, 0, 0)));
    }
}

#[test]
fn size_and_videos_do_not_depend_on_the_threshold() {
    for depth in [i64::MIN, -2, 0, 1, 2, 3, 50, i64::MAX] {
        let found = collect(&deep_tree(), depth).unwrap();
        assert_eq!(found.size, 255);
        assert_eq!(found.num_mp4s, 2);
    }
}

#[test]
fn files_are_counted_at_the_threshold_and_deeper() {
    let expected = [(-1, 8), (0, 8), (1, 5), (2, 3), (3, 0), (4, 0)];
    for (depth, num_files) in expected {
        assert_eq!(collect(&deep_tree(), depth).unwrap().num_files, num_files, "depth {}", depth);
    }
}

#[test]
fn images_are_counted_at_the_threshold_only() {
    let expected = [(-1, 0), (0, 1), (1, 1), (2, 2), (3, 0)];
    for (depth, num_images) in expected {
        assert_eq!(collect(&deep_tree(), depth).unwrap().num_images, num_images, "depth {}", depth);
    }
}

#[test]
fn galleries_are_the_directories_at_the_threshold() {
    let expected = [(-1, 0), (0, 2), (1, 2), (2, 1), (3, 0)];
    for (depth, num_galleries) in expected {
        assert_eq!(
            collect(&deep_tree(), depth).unwrap().num_galleries,
            num_galleries,
            "depth {}",
            depth
        );
    }
}

#[test]
fn every_counter_of_the_deep_tree() {
    assert_eq!(collect(&deep_tree(), 0), Ok(stat(255, 8, 1, 2, 2)));
    assert_eq!(collect(&deep_tree(), 1), Ok(stat(255, 5, 1, 2, 2)));
    assert_eq!(collect(&deep_tree(), 2), Ok(stat(255, 3, 2, 2, 1)));
    assert_eq!(collect(&deep_tree(), 3), Ok(stat(255, 0, 0, 2, 0)));
    assert_eq!(collect(&deep_tree(), -5), Ok(stat(255, 8, 0, 2, 0)));
}

#[test]
fn a_file_above_the_threshold_counts_for_size_and_video_only() {
    let root = Some(Entry::dir(vec![Entry::file("clip.mp4", 7), Entry::file("pic.png", 3)]));
    assert_eq!(collect(&root, 1), Ok(stat(10, 0, 0, 1, 0)));
}

#[test]
fn a_file_below_the_threshold_is_no_image() {
    let root = Some(Entry::dir(vec![Entry::dir(vec![Entry::file("pic.png", 3)])]));
    assert_eq!(collect(&root, 0), Ok(stat(3, 1, 0, 0, 1)));
}

#[test]
fn a_gallery_counts_once_whatever_it_holds() {
    let root = Some(Entry::dir(vec![
        Entry::dir(vec![]),
        Entry::dir(vec![Entry::dir(vec![]), Entry::file("a.png", 1), Entry::file("b.png", 1)]),
    ]));
    assert_eq!(collect(&root, 0), Ok(stat(2, 2, 0, 0, 2)));
    assert_eq!(collect(&root, 1), Ok(stat(2, 2, 2, 0, 1)));
}

#[test]
fn the_order_of_the_entries_does_not_change_the_counters() {
    let forward = Some(Entry::dir(vec![
        Entry::file("a.png", 1),
        Entry::dir(vec![Entry::file("b.mp4", 2)]),
        Entry::file("c.txt", 4),
    ]));
    let backward = Some(Entry::dir(vec![
        Entry::file("c.txt", 4),
        Entry::dir(vec![Entry::file("b.mp4", 2)]),
        Entry::file("a.png", 1),
    ]));
    for depth in [-1, 0, 1, 2] {
        assert_eq!(collect(&forward, depth), collect(&backward, depth));
    }
}

#[test]
fn look_through_adds_to_what_was_counted_before() {
    let mut seen = stat(100, 10, 5, 3, 1);
    let tree = small_tree().unwrap();
    assert_eq!(look_through(&tree, 0, 0, &mut seen), Ok(()));
    assert_eq!(seen, stat(130, 12, 5, 4, 2));
}

#[test]
fn look_through_starts_at_the_depth_it_is_given() {
    let tree = small_tree().unwrap();
    let mut seen = Stat::new();
    assert_eq!(look_through(&tree, 4, 5, &mut seen), Ok(()));
    assert_eq!(seen, stat(30, 1, 0, 1, 0));
    let mut seen = Stat::new();
    assert_eq!(look_through(&tree, 4, 4, &mut seen), Ok(()));
    assert_eq!(seen, stat(30, 2, 0, 1, 1));
    let mut seen = Stat::new();
    assert_eq!(look_through(&tree, -2, -1, &mut seen), Ok(()));
    assert_eq!(seen, stat(30, 1, 0, 1, 0));
}

#[test]
fn the_size_added_is_the_same_at_every_depth_and_threshold() {
    let tree = deep_tree().unwrap();
    for current_depth in [i64::MIN, -7, 0, 3, i64::MAX - 3] {
        for depth in [i64::MIN, -1, 0, 1, 2, 5, i64::MAX] {
            let mut seen = stat(1000, 0, 0, 10, 0);
            assert_eq!(look_through(&tree, current_depth, depth, &mut seen), Ok(()));
            assert_eq!(seen.size, 1255);
            assert_eq!(seen.num_mp4s, 12);
        }
    }
}

#[test]
fn look_through_leaves_a_file_alone() {
    let mut seen = stat(1, 2, 3, 4, 5);
    assert_eq!(look_through(&Entry::file("a.png", 9), 0, 0, &mut seen), Ok(()));
    assert_eq!(seen, stat(1, 2, 3, 4, 5));
}

#[test]
fn a_new_stat_is_all_zero() {
    assert_eq!(Stat::new(), stat(0, 0, 0, 0, 0));
}

#[test]
fn count_file_follows_the_depth() {
    let mut seen = Stat::new();
    assert_eq!(seen.count_file(b"a.PNG", 5, 0, 0), Ok(()));
    assert_eq!(seen, stat(5, 1, 1, 0, 0));
    assert_eq!(seen.count_file(b"a.png", 5, 1, 0), Ok(()));
    assert_eq!(seen, stat(10, 2, 1, 0, 0));
    assert_eq!(seen.count_file(b"a.png", 5, 0, 1), Ok(()));
    assert_eq!(seen, stat(15, 2, 1, 0, 0));
    assert_eq!(seen.count_file(b"a.mp4", 1, 0, 1), Ok(()));
    assert_eq!(seen, stat(16, 2, 1, 1, 0));
    assert_eq!(seen.count_file(b"a.mp4", 1, 2, 2), Ok(()));
    assert_eq!(seen, stat(17, 3, 1, 2, 0));
}

#[test]
fn count_dir_counts_at_the_threshold_only() {
    let mut seen = Stat::new();
    assert_eq!(seen.count_dir(0, 0), Ok(()));
    assert_eq!(seen, stat(0, 0, 0, 0, 1));
    assert_eq!(seen.count_dir(1, 0), Ok(()));
    assert_eq!(seen.count_dir(0, 1), Ok(()));
    assert_eq!(seen, stat(0, 0, 0, 0, 1));
    assert_eq!(seen.count_dir(-3, -3), Ok(()));
    assert_eq!(seen, stat(0, 0, 0, 0, 2));
}

#[test]
fn a_size_that_passes_64_bits_is_an_overflow() {
    let root = Some(Entry::dir(vec![
        Entry::file("a.bin", u64::MAX),
        Entry::dir(vec![Entry::file("b.bin", 1)]),
    ]));
    assert_eq!(collect(&root, 0), Err(StatError::Overflow));
    let fits = Some(Entry::dir(vec![
        Entry::file("a.bin", u64::MAX - 1),
        Entry::dir(vec![Entry::file("b.bin", 1)]),
    ]));
    assert_eq!(collect(&fits, 0), Ok(stat(u64::MAX, 2, 0, 0, 1)));
}

#[test]
fn an_overflow_leaves_the_counters_as_they_were() {
    let tree = Entry::dir(vec![
        Entry::file("a.mp4", 1),
        Entry::dir(vec![Entry::file("b.png", 2), Entry::file("c.bin", u64::MAX)]),
    ]);
    let mut seen = stat(7, 6, 5, 4, 3);
    assert_eq!(look_through(&tree, 0, 1, &mut seen), Err(StatError::Overflow));
    assert_eq!(seen, stat(7, 6, 5, 4, 3));
}

#[test]
fn a_full_counter_is_an_overflow() {
    let mut seen = stat(0, u64::MAX, 0, 0, 0);
    assert_eq!(seen.count_file(b"a", 1, 0, 0), Err(StatError::Overflow));
    assert_eq!(seen, stat(0, u64::MAX, 0, 0, 0));
    assert_eq!(seen.count_file(b"a", 1, 0, 1), Ok(()));
    let mut seen = stat(0, 0, 0, 0, u64::MAX);
    assert_eq!(seen.count_dir(2, 2), Err(StatError::Overflow));
    assert_eq!(seen.count_dir(2, 3), Ok(()));
    assert_eq!(seen, stat(0, 0, 0, 0, u64::MAX));
}

#[test]
fn a_directory_at_the_last_depth_is_an_overflow() {
    let tree = Entry::dir(vec![Entry::file("a.png", 1), Entry::dir(vec![])]);
    let mut seen = Stat::new();
    assert_eq!(look_through(&tree, i64::MAX, 0, &mut seen), Err(StatError::Overflow));
    assert_eq!(seen, stat(0, 0, 0, 0, 0));
    let flat = Entry::dir(vec![Entry::file("a.png", 1)]);
    assert_eq!(look_through(&flat, i64::MAX, i64::MAX, &mut seen), Ok(()));
    assert_eq!(seen, stat(1, 1, 1, 0, 0));
}

#[test]
fn entries_know_their_kind() {
    assert!(Entry::dir(vec![]).is_dir());
    assert!(!Entry::file("a", 0).is_dir());
    match Entry::file("a.txt", 10) {
        Entry::File { name, size } => {
            assert_eq!(name, b"a.txt".to_vec());
            assert_eq!(size, 10);
        }
        Entry::Dir { .. } => panic!("a file was made"),
    }
}
