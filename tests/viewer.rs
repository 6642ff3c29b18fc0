use wican_log_viewer::record::parse_line;
use wican_log_viewer::viewer::Viewer;

#[test]
fn tick_drains_in_arrival_order() {
    let (tx, rx) = crossbeam_channel::unbounded();
    let mut v = Viewer::new(rx, 100, 10);
    tx.send(parse_line("[1][E][a][b] one")).unwrap();
    tx.send(parse_line("[2][I][a][b] two")).unwrap();
    v.tick();
    assert_eq!(v.total(), 2);
    assert_eq!(v.history_lines()[0].ts_ms, 1);
    assert_eq!(v.history_lines()[1].ts_ms, 2);
}

#[test]
fn tick_takes_at_most_one_batch() {
    let (tx, rx) = crossbeam_channel::unbounded();
    let mut v = Viewer::new(rx, 10000, 2000);
    for i in 0..700 {
        tx.send(parse_line(&format!("[{}][I][a][b] m", i))).unwrap();
    }
    v.tick();
    assert_eq!(v.total(), 500);
    v.tick();
    assert_eq!(v.total(), 700);
}

#[test]
fn paused_leaves_records_waiting() {
    let (tx, rx) = crossbeam_channel::unbounded();
    let mut v = Viewer::new(rx, 100, 10);
    v.pause();
    assert!(v.is_paused());
    tx.send(parse_line("[1][E][a][b] one")).unwrap();
    v.tick();
    assert_eq!(v.total(), 0);
    v.resume();
    v.tick();
    assert_eq!(v.total(), 1);
    v.clear_history();
    assert_eq!(v.total(), 0);
}

#[test]
fn viewer_export_uses_filters() {
    let (tx, rx) = crossbeam_channel::unbounded();
    let mut v = Viewer::new(rx, 100, 10);
    tx.send(parse_line("[1][I][a][b] alpha")).unwrap();
    tx.send(parse_line("[2][E][a][b] beta")).unwrap();
    tx.send(parse_line("[3][W][a][b] gamma")).unwrap();
    v.tick();
    v.set_min_level('W');
    assert_eq!(v.filter().min_level(), 'W');
    assert_eq!(
        v.export_lines(),
        vec!["[2][E][a][b] beta".to_string(), "[3][W][a][b] gamma".to_string()]
    );
    v.set_search("GAM");
    assert_eq!(v.visible_indices(), vec![2]);
    v.set_pattern("zzz");
    assert_eq!(v.visible_indices(), Vec::<usize>::new());
}
