use vgstats::aggregate::{Aggregator, Report};
use vgstats::category::{generate_systems, select_systems, System};
use vgstats::config::{split_labels, Config};
use vgstats::entry::Entry;
use vgstats::scan::{scan_category, ScanResult};

fn registry() -> Vec<System> {
    generate_systems().to_vec()
}

fn find(reg: &[System], label: &str) -> System {
    reg.iter().find(|s| s.label == label).unwrap().clone()
}

fn result(item_count: u32, total_bytes: u64) -> ScanResult {
    ScanResult { item_count, total_bytes }
}

fn labels(report: &Report) -> Vec<String> {
    report.rows.iter().map(|r| r.system.label.clone()).collect()
}

#[test]
fn builtin_registry_order_and_shapes() {
    let reg = registry();
    let got: Vec<(&str, &str, bool)> =
        reg.iter().map(|s| (s.label.as_str(), s.directory.as_str(), s.games_are_directories)).collect();
    assert_eq!(
        got,
        vec![
            ("3ds", "3ds", false),
            ("ds", "ds", false),
            ("gb", "gb", false),
            ("gba", "gba", false),
            ("gcn", "games", true),
            ("gen", "gen", false),
            ("n64", "n64", false),
            ("nes", "nes", false),
            ("ps1", "ps1", true),
            ("ps2", "ps2", false),
            ("psp", "psp", false),
            ("snes", "snes", false),
            ("wii", "wbfs", true),
        ]
    );
    assert_eq!(reg[0].display_name, "3DS");
    assert_eq!(reg[0].rgb, [215, 0, 0]);
}

#[test]
fn identity_ignores_cosmetic_fields() {
    let a = System::new("snes", "SNES", [95, 0, 255], "snes", false);
    let b = System::new("sfc", "Super Famicom", [1, 2, 3], "snes", false);
    let c = System::new("snes", "SNES", [95, 0, 255], "snes", true);
    let d = System::new("snes", "SNES", [95, 0, 255], "sfc", false);
    assert!(a == b);
    assert!(a != c);
    assert!(a != d);
}

#[test]
fn filter_selects_exactly_the_named_systems() {
    let reg = registry();
    let chosen = select_systems(&reg, &Some(vec!["snes".to_string(), "nes".to_string()]));
    let got: Vec<&str> = chosen.iter().map(|s| s.label.as_str()).collect();
    assert_eq!(got, vec!["nes", "snes"]);
}

#[test]
fn no_filter_selects_everything() {
    let reg = registry();
    let chosen = select_systems(&reg, &None);
    assert_eq!(chosen.len(), 13);
    assert!(chosen.iter().zip(reg.iter()).all(|(a, b)| a.label == b.label && a == b));
}

#[test]
fn unknown_label_selects_nothing_and_reports_nothing() {
    let reg = registry();
    let chosen = select_systems(&reg, &Some(vec!["dreamcast".to_string()]));
    assert!(chosen.is_empty());
    let upper = select_systems(&reg, &Some(vec!["SNES".to_string()]));
    assert!(upper.is_empty());
    let agg = Aggregator::new();
    let report = agg.snapshot(&chosen).unwrap();
    assert!(report.rows.is_empty());
    assert!(report.failed.is_empty());
    assert_eq!(report.total, result(0, 0));
}

#[test]
fn rows_follow_registry_order_not_completion_order() {
    let reg = registry();
    let chosen = select_systems(
        &reg,
        &Some(vec!["gba".to_string(), "snes".to_string(), "3ds".to_string()]),
    );
    let mut agg = Aggregator::new();
    // The first system of the registry finishes last.
    assert!(agg.record(&find(&reg, "snes"), result(5, 500)));
    assert!(agg.record(&find(&reg, "gba"), result(3, 300)));
    assert!(agg.record(&find(&reg, "3ds"), result(1, 100)));
    let report = agg.snapshot(&chosen).unwrap();
    assert_eq!(labels(&report), vec!["3ds", "gba", "snes"]);
    assert_eq!(report.rows[0].result, result(1, 100));
    assert_eq!(report.rows[1].result, result(3, 300));
    assert_eq!(report.rows[2].result, result(5, 500));
}

#[test]
fn record_order_does_not_change_the_report() {
    let reg = registry();
    let (gb, ps1, wii) = (find(&reg, "gb"), find(&reg, "ps1"), find(&reg, "wii"));
    let mut first = Aggregator::new();
    assert!(first.record(&gb, result(2, 20)));
    assert!(first.record(&ps1, result(4, 40)));
    assert!(first.record(&gb, result(1, 5)));
    assert!(first.record(&wii, result(7, 70)));
    let mut second = Aggregator::new();
    assert!(second.record(&wii, result(7, 70)));
    assert!(second.record(&gb, result(1, 5)));
    assert!(second.record(&ps1, result(4, 40)));
    assert!(second.record(&gb, result(2, 20)));
    let a = first.snapshot(&reg).unwrap();
    let b = second.snapshot(&reg).unwrap();
    assert_eq!(labels(&a), vec!["gb", "ps1", "wii"]);
    assert_eq!(labels(&a), labels(&b));
    let ra: Vec<ScanResult> = a.rows.iter().map(|r| r.result).collect();
    let rb: Vec<ScanResult> = b.rows.iter().map(|r| r.result).collect();
    assert_eq!(ra, vec![result(3, 25), result(4, 40), result(7, 70)]);
    assert_eq!(ra, rb);
    assert_eq!(a.total, b.total);
}

#[test]
fn grand_total_is_the_sum_of_the_rows() {
    let reg = registry();
    let mut agg = Aggregator::new();
    assert!(agg.record(&find(&reg, "n64"), result(12, 1_200_000)));
    assert!(agg.record(&find(&reg, "psp"), result(7, 9_000_000_000)));
    assert!(agg.record(&find(&reg, "gen"), result(31, 45_000)));
    let report = agg.snapshot(&reg).unwrap();
    assert_eq!(labels(&report), vec!["gen", "n64", "psp"]);
    assert_eq!(report.total, result(50, 9_001_245_000));
}

#[test]
fn category_with_no_items_still_gets_a_row() {
    let reg = registry();
    let mut agg = Aggregator::new();
    let empty: Vec<Entry> = Vec::new();
    agg.absorb(&find(&reg, "ds"), scan_category(&empty, false));
    let report = agg.snapshot(&reg).unwrap();
    assert_eq!(labels(&report), vec!["ds"]);
    assert_eq!(report.rows[0].result, result(0, 0));
    assert_eq!(report.total, result(0, 0));
}

#[test]
fn failed_category_is_named_and_others_are_kept() {
    let reg = registry();
    let mut agg = Aggregator::new();
    agg.absorb(&find(&reg, "gba"), Some(result(3, 30)));
    agg.absorb(&find(&reg, "ps2"), None);
    agg.absorb(&find(&reg, "3ds"), Some(result(2, 20)));
    let report = agg.snapshot(&reg).unwrap();
    assert_eq!(labels(&report), vec!["3ds", "gba"]);
    let failed: Vec<&str> = report.failed.iter().map(|s| s.label.as_str()).collect();
    assert_eq!(failed, vec!["ps2"]);
    assert_eq!(report.total, result(5, 50));
}

#[test]
fn record_that_would_overflow_changes_nothing() {
    let reg = registry();
    let nes = find(&reg, "nes");
    let mut agg = Aggregator::new();
    assert!(agg.record(&nes, result(u32::MAX, 10)));
    assert!(!agg.record(&nes, result(1, 0)));
    assert!(!agg.record(&nes, result(0, u64::MAX)));
    let report = agg.snapshot(&reg).unwrap();
    assert_eq!(report.rows[0].result, result(u32::MAX, 10));
    agg.absorb(&nes, Some(result(1, 1)));
    let report = agg.snapshot(&reg).unwrap();
    assert_eq!(report.rows[0].result, result(u32::MAX, 10));
    assert_eq!(report.failed.len(), 1);
}

#[test]
fn grand_total_overflow_gives_none() {
    let reg = registry();
    let mut agg = Aggregator::new();
    assert!(agg.record(&find(&reg, "nes"), result(u32::MAX, 1)));
    assert!(agg.record(&find(&reg, "snes"), result(1, 1)));
    assert!(agg.snapshot(&reg).is_none());
    let mut bytes = Aggregator::new();
    assert!(bytes.record(&find(&reg, "nes"), result(1, u64::MAX)));
    assert!(bytes.record(&find(&reg, "snes"), result(1, 1)));
    assert!(bytes.snapshot(&reg).is_none());
}

#[test]
fn labels_split_at_commas_and_spaces() {
    assert_eq!(split_labels("snes,nes"), vec!["snes", "nes"]);
    assert_eq!(split_labels("snes nes,gb"), vec!["snes", "nes", "gb"]);
    assert_eq!(split_labels("snes, nes"), vec!["snes", "", "nes"]);
    assert_eq!(split_labels("gba"), vec!["gba"]);
    assert_eq!(split_labels(""), vec![""]);
    assert_eq!(split_labels(",ps1,"), vec!["", "ps1", ""]);
}

#[test]
fn config_prefers_the_argument_to_the_environment() {
    let c = Config::generate(Some("/arg".to_string()), Some("/env".to_string()), None).unwrap();
    assert_eq!(c.archive_root, "/arg");
    assert_eq!(c.desired_systems, None);
    let c = Config::generate(None, Some("/env".to_string()), Some("snes,nes".to_string())).unwrap();
    assert_eq!(c.archive_root, "/env");
    assert_eq!(c.desired_systems, Some(vec!["snes".to_string(), "nes".to_string()]));
    assert!(Config::generate(None, None, Some("gb".to_string())).is_none());
}

#[test]
fn filter_from_config_reaches_the_report() {
    let reg = registry();
    let c = Config::generate(Some("/archive".to_string()), None, Some("snes nes".to_string())).unwrap();
    let chosen = select_systems(&reg, &c.desired_systems);
    let mut agg = Aggregator::new();
    for s in reg.iter() {
        agg.absorb(s, Some(result(1, 1)));
    }
    let report = agg.snapshot(&chosen).unwrap();
    assert_eq!(labels(&report), vec!["nes", "snes"]);
    assert_eq!(report.total, result(2, 2));
}
