use vgstats::entry::{classify, is_excluded_path, needs_parts, Entry, EntryKind, Node};
use vgstats::scan::{scan_category, ScanResult};

fn file(path: &str, len: u64) -> Entry {
    Entry::file(path.to_string(), len)
}

fn dir(path: &str, parts: Vec<Node>) -> Entry {
    Entry::directory(path.to_string(), parts)
}

fn part(path: &str, len: u64) -> Node {
    Node::file(path.to_string(), len)
}

fn tally(item_count: u32, total_bytes: u64) -> Option<ScanResult> {
    Some(ScanResult { item_count, total_bytes })
}

#[test]
fn marker_is_found_anywhere_in_the_path() {
    assert!(is_excluded_path("/archive/gba/!bios/gba_bios.bin"));
    assert!(is_excluded_path("!bios"));
    assert!(is_excluded_path("/archive/ps1/scph1001!bios.bin"));
    assert!(!is_excluded_path("/archive/gba/bios/gba_bios.bin"));
    assert!(!is_excluded_path("/archive/gba/!bio"));
    assert!(!is_excluded_path(""));
    assert!(!is_excluded_path("/archive/gba/!BIOS"));
}

#[test]
fn single_file_category_counts_each_file() {
    let entries = vec![
        file("/a/snes/one.sfc", 1_048_576),
        file("/a/snes/two.sfc", 2_097_152),
        file("/a/snes/three.sfc", 524_288),
    ];
    assert_eq!(scan_category(&entries, false), tally(3, 3_670_016));
}

#[test]
fn directory_category_counts_each_directory() {
    let entries = vec![
        dir("/a/ps1/game_a", vec![part("/a/ps1/game_a/a.cue", 100), part("/a/ps1/game_a/a.bin", 5_000)]),
        dir(
            "/a/ps1/game_b",
            vec![
                part("/a/ps1/game_b/b.cue", 200),
                part("/a/ps1/game_b/b1.bin", 7_000),
                part("/a/ps1/game_b/b2.bin", 8_000),
            ],
        ),
    ];
    assert_eq!(scan_category(&entries, true), tally(2, 20_300));
}

#[test]
fn stray_file_in_directory_category_adds_bytes_only() {
    let entries = vec![
        dir("/a/ps1/game_a", vec![part("/a/ps1/game_a/a.bin", 5_000)]),
        file("/a/ps1/readme.txt", 42),
    ];
    assert_eq!(scan_category(&entries, true), tally(1, 5_042));
}

#[test]
fn directory_in_single_file_category_is_ignored() {
    let entries = vec![
        file("/a/gb/tetris.gb", 32_768),
        dir("/a/gb/saves", vec![part("/a/gb/saves/tetris.sav", 8_192)]),
    ];
    assert_eq!(scan_category(&entries, false), tally(1, 32_768));
}

#[test]
fn nested_directories_inside_items_are_not_read() {
    let entries = vec![dir(
        "/a/wbfs/game",
        vec![part("/a/wbfs/game/game.wbfs", 4_000), Node::directory("/a/wbfs/game/extra".to_string())],
    )];
    assert_eq!(scan_category(&entries, true), tally(1, 4_000));
}

#[test]
fn empty_category_is_zero() {
    let entries: Vec<Entry> = Vec::new();
    assert_eq!(scan_category(&entries, false), tally(0, 0));
    assert_eq!(scan_category(&entries, true), tally(0, 0));
}

#[test]
fn bios_entries_are_neither_counted_nor_sized() {
    let single = vec![
        file("/a/gba/zelda.gba", 1_000),
        file("/a/gba/!bios.gba", 16_384),
        file("/a/gba/!bios/gba_bios.bin", 16_384),
    ];
    assert_eq!(scan_category(&single, false), tally(1, 1_000));

    let dirs = vec![
        dir("/a/ps1/game", vec![part("/a/ps1/game/g.bin", 700)]),
        dir("/a/ps1/!bios", vec![part("/a/ps1/!bios/scph1001.bin", 524_288)]),
        file("/a/ps1/!bios.bin", 524_288),
        dir("/a/ps1/other", vec![part("/a/ps1/other/!bios.bin", 9), part("/a/ps1/other/o.bin", 300)]),
    ];
    assert_eq!(scan_category(&dirs, true), tally(2, 1_000));
}

#[test]
fn listing_order_does_not_change_the_tally() {
    let mut entries = vec![
        file("/a/nes/a.nes", 40_976),
        file("/a/nes/b.nes", 262_160),
        file("/a/nes/!bios.nes", 8_192),
        file("/a/nes/c.nes", 131_088),
    ];
    let forward = scan_category(&entries, false);
    entries.reverse();
    let backward = scan_category(&entries, false);
    entries.swap(0, 2);
    let shuffled = scan_category(&entries, false);
    assert_eq!(forward, tally(3, 434_224));
    assert_eq!(forward, backward);
    assert_eq!(forward, shuffled);
}

#[test]
fn byte_overflow_gives_none() {
    let entries = vec![file("/a/ps2/big.iso", u64::MAX), file("/a/ps2/more.iso", 1)];
    assert_eq!(scan_category(&entries, false), None);
    let parts = vec![dir("/a/ps1/g", vec![part("/a/ps1/g/1.bin", u64::MAX), part("/a/ps1/g/2.bin", 1)])];
    assert_eq!(scan_category(&parts, true), None);
    let exact = vec![file("/a/ps2/big.iso", u64::MAX - 1), file("/a/ps2/more.iso", 1)];
    assert_eq!(scan_category(&exact, false), tally(2, u64::MAX));
}

#[test]
fn classify_single_entries() {
    assert_eq!(classify(&file("/a/gb/x.gb", 10), false), tally(1, 10));
    assert_eq!(classify(&file("/a/ps1/x.txt", 10), true), tally(0, 10));
    assert_eq!(
        classify(&dir("/a/ps1/g", vec![part("/a/ps1/g/1.bin", 3), part("/a/ps1/g/2.bin", 4)]), true),
        tally(1, 7)
    );
    assert_eq!(classify(&dir("/a/gb/g", vec![part("/a/gb/g/1.gb", 3)]), false), tally(0, 0));
    assert_eq!(classify(&file("/a/gb/!bios.gb", 10), false), tally(0, 0));
    let other = Entry { node: Node { path: "/a/gb/link".to_string(), kind: EntryKind::Other, len: 5 }, parts: Vec::new() };
    assert_eq!(classify(&other, false), tally(0, 0));
}

#[test]
fn parts_are_read_only_for_item_directories() {
    let d = Node::directory("/a/ps1/game".to_string());
    let f = Node::file("/a/ps1/game.bin".to_string(), 1);
    assert!(needs_parts(&d, true));
    assert!(!needs_parts(&d, false));
    assert!(!needs_parts(&f, true));
    assert!(!needs_parts(&Node::directory("/a/ps1/!bios".to_string()), true));
}

#[test]
fn directory_metadata_size_is_never_counted() {
    let item = Entry {
        node: Node { path: "/a/games/metroid".to_string(), kind: EntryKind::Directory, len: 4_096 },
        parts: vec![part("/a/games/metroid/game.iso", 1_459_978_240)],
    };
    assert_eq!(scan_category(&vec![item], true), tally(1, 1_459_978_240));
    let stray = Entry {
        node: Node { path: "/a/gb/folder".to_string(), kind: EntryKind::Directory, len: 4_096 },
        parts: Vec::new(),
    };
    assert_eq!(scan_category(&vec![stray], false), tally(0, 0));
}
