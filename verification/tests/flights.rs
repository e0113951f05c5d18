use platypus::flights::Flights;

#[test]
fn a_fetch_begins_once_for_a_key() {
    let mut flights = Flights::new();
    assert_eq!(flights.len(), 0);
    assert!(!flights.contains("a"));
    assert!(flights.begin("a"));
    assert!(flights.contains("a"));
    assert!(!flights.begin("a"));
    assert!(flights.begin("b"));
    assert!(flights.begin("c"));
    assert!(!flights.begin("b"));
    assert_eq!(flights.len(), 3);
    flights.end("a");
    assert!(!flights.contains("a"));
    assert!(flights.contains("b"));
    assert!(flights.contains("c"));
    assert_eq!(flights.len(), 2);
    assert!(flights.begin("a"));
    assert!(!flights.begin("a"));
}

#[test]
fn ending_what_is_not_under_way_changes_nothing() {
    let mut flights = Flights::new();
    flights.end("a");
    assert_eq!(flights.len(), 0);
    assert!(flights.begin("a"));
    flights.end("b");
    assert!(flights.contains("a"));
    assert_eq!(flights.len(), 1);
    flights.end("a");
    flights.end("a");
    assert_eq!(flights.len(), 0);
    assert!(flights.begin(""));
    assert!(!flights.begin(""));
}

#[test]
fn running_fetches_never_exceed_one_for_a_key() {
    let mut flights = Flights::new();
    let mut running = 0i32;
    let script = [true, true, false, true, false, false, true, true, true, false, true];
    for begin in script {
        if begin {
            if flights.begin("k") {
                running += 1;
            }
        } else if flights.contains("k") {
            flights.end("k");
            running -= 1;
        }
        assert!(running == 0 || running == 1);
        assert_eq!(running == 1, flights.contains("k"));
    }
}
