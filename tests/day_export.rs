use rustdx_cmd::day::{
    adjust_mode, AdjustMode,
    day_stem, latest_factor_rows, previous_source, report, select_files, stem_code, DirReport,
    PreviousSource,
};

fn names(v: &[&str]) -> Vec<String> {
    v.iter().map(|s| s.to_string()).collect()
}

#[test]
fn capped_selection_with_allow_list() {
    let n = names(&["sz000001.day", "sz000002.day", "sz000003.day"]);
    let allow = Some(names(&["sz000001", "sz000002"]));
    let sel = select_files(&n, &allow, Some(1));
    assert_eq!(sel.matched, 3);
    assert_eq!(sel.take, 1);
    assert_eq!(sel.picked, vec![(0usize, 1u32)]);
    assert_eq!(report(sel.picked.len(), sel.take), DirReport::Completed(1));
}

#[test]
fn allow_list_in_other_order() {
    let n = names(&["sz000003.day", "sz000002.day", "sz000001.day"]);
    let allow = Some(names(&["sz000001", "sz000002"]));
    let sel = select_files(&n, &allow, Some(1));
    assert_eq!(sel.picked, vec![(1usize, 2u32)]);
}

#[test]
fn zero_cap_selects_nothing() {
    let n = names(&["sz000001.day", "sz000002.day"]);
    let sel = select_files(&n, &None, Some(0));
    assert!(sel.picked.is_empty());
    assert_eq!(report(sel.picked.len(), sel.take), DirReport::ZeroCap);
}

#[test]
fn default_cap_takes_all_bar_files() {
    let n = names(&["sh600000.day", "notes.txt", "sz000001.day", ".day", "bad.day"]);
    let sel = select_files(&n, &None, None);
    assert_eq!(sel.matched, 3);
    assert_eq!(sel.take, 3);
    assert_eq!(sel.picked, vec![(0usize, 600000u32), (2usize, 1u32)]);
}

#[test]
fn empty_directory_warns() {
    let sel = select_files(&Vec::new(), &None, None);
    assert_eq!(sel.matched, 0);
    assert!(sel.picked.is_empty());
    assert_eq!(report(0, 5), DirReport::NothingMatched);
    assert_eq!(report(0, 0), DirReport::ZeroCap);
    assert_eq!(report(7, 9), DirReport::Completed(7));
}

#[test]
fn stems_and_codes() {
    assert_eq!(day_stem("sz000001.day"), Some("sz000001".to_string()));
    assert_eq!(day_stem(".day"), None);
    assert_eq!(day_stem("a.txt"), None);
    assert_eq!(stem_code("sz000001"), Some(1));
    assert_eq!(stem_code("600000"), Some(600000));
    assert_eq!(stem_code("sz00001"), None);
    assert_eq!(stem_code("sz00000a"), None);
}

#[test]
fn latest_factor_row_per_code() {
    let codes = names(&["000001", "000002", "000001"]);
    let m = latest_factor_rows(&codes).unwrap();
    assert_eq!(m.len(), 2);
    assert_eq!(m[&1], 2);
    assert_eq!(m[&2], 1);
    assert!(latest_factor_rows(&names(&["000001", "x"])).is_none());
    assert!(latest_factor_rows(&Vec::new()).unwrap().is_empty());
}

#[test]
fn previous_factor_source() {
    assert!(previous_source(&None).is_none());
    assert!(matches!(previous_source(&Some("clickhouse".to_string())), Some(PreviousSource::Warehouse)));
    match previous_source(&Some("factor.csv".to_string())) {
        Some(PreviousSource::File(p)) => assert_eq!(p, "factor.csv"),
        _ => panic!("expected a file source"),
    }
}

#[test]
fn adjustment_modes() {
    assert_eq!(adjust_mode(false, false), AdjustMode::Unadjusted);
    assert_eq!(adjust_mode(false, true), AdjustMode::Unadjusted);
    assert_eq!(adjust_mode(true, false), AdjustMode::Full);
    assert_eq!(adjust_mode(true, true), AdjustMode::Incremental);
}
