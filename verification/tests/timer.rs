use gs_rust::timer::Timer;

#[test]
fn timer_reports_its_end_once() {
    let mut t = Timer::new("loading");
    assert_eq!(t.name, "loading");
    assert!(!t.has_ended);
    assert!(t.end());
    assert!(t.has_ended);
    assert!(!t.end());
    assert_eq!(t.name, "loading");
}
