use wican_log_viewer::history::History;
use wican_log_viewer::record::parse_line;

fn record(i: usize) -> wican_log_viewer::record::LogLine {
    parse_line(&format!("[{}][I][t][g] n", i))
}

#[test]
fn evicts_a_batch_past_the_cap() {
    let mut h = History::new(10000, 2000);
    for i in 0..10001 {
        h.push(record(i));
    }
    assert_eq!(h.len(), 8001);
    assert_eq!(h.lines()[0].ts_ms, 2000);
    assert_eq!(h.lines()[8000].ts_ms, 10000);
}

#[test]
fn fills_up_to_the_cap() {
    let mut h = History::new(5, 2);
    for i in 0..5 {
        h.push(record(i));
    }
    assert_eq!(h.len(), 5);
    h.push(record(5));
    assert_eq!(h.len(), 4);
    let ts: Vec<u64> = h.lines().iter().map(|l| l.ts_ms).collect();
    assert_eq!(ts, vec![2, 3, 4, 5]);
}

#[test]
fn length_stays_in_range_and_keeps_newest() {
    let (m, b) = (7usize, 3usize);
    let mut h = History::new(m, b);
    for i in 0..100usize {
        h.push(record(i));
        if i + 1 > m {
            assert!(h.len() >= m - b + 1 && h.len() <= m);
        }
        let n = h.len();
        for (k, l) in h.lines().iter().enumerate() {
            assert_eq!(l.ts_ms as usize, i + 1 - n + k);
        }
    }
}

#[test]
fn batch_equal_to_cap_empties_to_one() {
    let mut h = History::new(3, 3);
    for i in 0..4 {
        h.push(record(i));
    }
    assert_eq!(h.len(), 1);
    assert_eq!(h.lines()[0].ts_ms, 3);
}

#[test]
fn clear_empties() {
    let mut h = History::new(3, 1);
    h.push(record(1));
    h.clear();
    assert_eq!(h.len(), 0);
    assert_eq!(h.max_lines(), 3);
    assert_eq!(h.prune_batch(), 1);
}
