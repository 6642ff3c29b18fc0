use wican_log_viewer::filter::{
    compile_pattern, level_passes, pattern_passes, search_passes, search_passes_folded,
    FilterConfig,
};
use wican_log_viewer::level::{color_for, level_order};
use wican_log_viewer::record::{parse_line, LogLine};

fn line(level: char, raw: &str) -> LogLine {
    LogLine {
        raw: raw.to_string(),
        level,
        ts_ms: 0,
        task: String::new(),
        tag: String::new(),
        msg: String::new(),
        complete: false,
    }
}

#[test]
fn level_ranks() {
    let got: Vec<u8> = ['E', 'W', 'I', 'D', 'V', '?', 'x'].iter().map(|c| level_order(*c)).collect();
    assert_eq!(got, vec![0, 1, 2, 3, 4, 5, 5]);
    assert!(level_passes('E', 'W'));
    assert!(level_passes('W', 'W'));
    assert!(!level_passes('I', 'W'));
    assert!(level_passes('?', 'x'));
}

#[test]
fn colors() {
    assert_eq!(color_for('E'), (255, 100, 100));
    assert_eq!(color_for('V'), (170, 170, 170));
    assert_eq!(color_for('z'), (255, 255, 255));
}

#[test]
fn export_keeps_warnings_and_errors_in_order() {
    let lines = vec![line('I', "a"), line('E', "b"), line('W', "c")];
    let mut f = FilterConfig::new();
    f.set_min_level('W');
    assert_eq!(f.export_lines(&lines), vec!["b".to_string(), "c".to_string()]);
    assert_eq!(f.visible_indices(&lines), vec![1, 2]);
}

#[test]
fn search_ignores_case() {
    assert!(search_passes("[1][I][main][NET] Started", "net] started"));
    assert!(!search_passes("[1][I][main][net] started", "stopped"));
    assert!(search_passes("anything", ""));
    assert!(search_passes_folded("abc", "", "zzz"));
    assert!(!search_passes_folded("abc", "Z", "z"));
}

#[test]
fn pattern_matches_tag_or_task() {
    let p = compile_pattern("^ne").unwrap();
    let some = Some(p);
    assert!(pattern_passes(&some, "main", "net"));
    assert!(pattern_passes(&some, "network", "x"));
    assert!(!pattern_passes(&some, "main", "wifi"));
    assert!(pattern_passes(&None, "main", "wifi"));
}

#[test]
fn invalid_pattern_is_inactive() {
    assert!(compile_pattern("(").is_none());
    assert!(compile_pattern("").is_none());
    let mut f = FilterConfig::new();
    f.set_pattern("(unclosed");
    assert_eq!(f.pattern_text(), "(unclosed");
    let lines = vec![parse_line("[1][I][a][b] x"), parse_line("[2][E][c][d] y")];
    assert_eq!(f.visible_indices(&lines), vec![0, 1]);
}

#[test]
fn filters_combine_in_any_order() {
    let lines = vec![
        parse_line("[1][E][main][net] link down"),
        parse_line("[2][I][main][net] link up"),
        parse_line("[3][E][wifi][sta] LINK lost"),
        parse_line("[4][D][main][net] link probe"),
        parse_line("[5][W][net][x] other"),
    ];
    let mut f = FilterConfig::new();
    f.set_min_level('I');
    f.set_pattern("net");
    f.set_search("LINK");
    let all = f.visible_indices(&lines);
    assert_eq!(all, vec![0, 1]);
    let lv = |i: &usize| level_passes(lines[*i].level, 'I');
    let pt = |i: &usize| {
        pattern_passes(&compile_pattern("net"), &lines[*i].task, &lines[*i].tag)
    };
    let sr = |i: &usize| search_passes(&lines[*i].raw, "LINK");
    let idx: Vec<usize> = (0..lines.len()).collect();
    let a: Vec<usize> = idx.iter().copied().filter(|i| lv(i)).filter(|i| pt(i)).filter(|i| sr(i)).collect();
    let b: Vec<usize> = idx.iter().copied().filter(|i| sr(i)).filter(|i| pt(i)).filter(|i| lv(i)).collect();
    let c: Vec<usize> = idx.iter().copied().filter(|i| pt(i)).filter(|i| sr(i)).filter(|i| lv(i)).collect();
    assert_eq!(a, all);
    assert_eq!(b, all);
    assert_eq!(c, all);
}
