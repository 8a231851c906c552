use lisa::counter::CommandCounter;

#[test]
fn empty_report() {
    let c = CommandCounter::new();
    assert_eq!(c.report(), "Commands used:\n");
    assert_eq!(c.count("ping"), 0);
}

#[test]
fn record_raises_only_that_count() {
    let mut c = CommandCounter::new();
    c.record("ping");
    c.record("help");
    c.record("ping");
    assert_eq!(c.count("ping"), 2);
    assert_eq!(c.count("help"), 1);
    assert_eq!(c.count("about"), 0);
    assert_eq!(c.report(), "Commands used:\n   >ping: 2\n   >help: 1\n");
}

#[test]
fn many_uses_are_counted() {
    let mut c = CommandCounter::new();
    for _ in 0..1234 {
        c.record("palette");
    }
    assert_eq!(c.report(), "Commands used:\n   >palette: 1234\n");
}
