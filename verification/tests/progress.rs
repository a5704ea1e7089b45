use clipforge::progress::ProgressParser;

#[test]
fn parses_blocks() {
    let mut p = ProgressParser::new();
    let text = "frame=10\nfps=0.0\nout_time_us=333333\nout_time_ms=333333\nout_time=00:00:00.333333\ntotal_size=1024\nspeed=2.5x\nprogress=continue\nframe=30\nout_time_us=1000000\nprogress=end\n";
    let blocks: Vec<_> = text.lines().filter_map(|l| p.feed(l)).collect();
    assert_eq!(blocks.len(), 2);
    assert_eq!(blocks[0].frame, Some(10));
    assert_eq!(blocks[0].out_time_us, Some(333_333));
    assert_eq!(blocks[0].total_size, Some(1024));
    assert_eq!(blocks[0].speed.as_deref(), Some("2.5x"));
    assert!(!blocks[0].ended);
    assert_eq!(blocks[1].frame, Some(30));
    assert!(blocks[1].ended);
    assert_eq!(blocks[1].total_size, None, "blocks do not leak into each other");
}

#[test]
fn ignores_garbage() {
    let mut p = ProgressParser::new();
    assert_eq!(p.feed("no equals sign"), None);
    assert_eq!(p.feed("frame=notanumber"), None);
    let b = p.feed("progress=continue").unwrap();
    assert_eq!(b.frame, None);
}

#[test]
fn negative_times_and_spaces_are_read() {
    let mut p = ProgressParser::new();
    assert_eq!(p.feed(" out_time_us = -5 "), None);
    let b = p.feed("progress=end").unwrap();
    assert_eq!(b.out_time_us, Some(-5));
    assert!(b.ended);
}
