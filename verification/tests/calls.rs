use callnotes::calls::Call;

fn is_stamp(s: &str) -> bool {
    let b = s.as_bytes();
    b.len() == 19
        && b.iter().enumerate().all(|(i, c)| match i {
            4 | 7 => *c == b'-',
            10 => *c == b' ',
            13 | 16 => *c == b':',
            _ => c.is_ascii_digit(),
        })
}

#[test]
fn new_call_is_blank_and_stamped() {
    let call = Call::new();
    assert_eq!(call.id, None);
    assert!(call.phone.is_empty() && call.inc.is_empty() && call.call_type.is_empty());
    assert!(call.notes.is_empty());
    assert_eq!(call.finished_at, None);
    assert!(is_stamp(&call.started_at), "{}", call.started_at);
}

#[test]
fn starting_uses_given_stamp() {
    let call = Call::starting("2024-01-02 03:04:05".to_string());
    assert_eq!(call.started_at, "2024-01-02 03:04:05");
    assert_eq!(call.finished_at, None);
}

#[test]
fn finish_stamps_once() {
    let mut call = Call::starting("2024-01-02 03:04:05".to_string());
    call.finish();
    let first = call.finished_at.clone().expect("finished");
    assert!(is_stamp(&first), "{}", first);
    call.finish_at("2099-12-31 23:59:59".to_string());
    assert_eq!(call.finished_at, Some(first));
}

#[test]
fn finish_at_sets_stamp() {
    let mut call = Call::starting(String::new());
    call.finish_at("2024-05-06 07:08:09".to_string());
    assert_eq!(call.finished_at.as_deref(), Some("2024-05-06 07:08:09"));
}

#[test]
fn title_of_new_call() {
    let call = Call::starting(String::new());
    assert_eq!(call.title(), " New call | active ");
}

#[test]
fn title_with_incident_and_finished() {
    let mut call = Call::starting(String::new());
    call.inc = "INC-42".to_string();
    assert_eq!(call.title(), " INC-42 | active ");
    call.finish_at("x".to_string());
    assert_eq!(call.title(), " INC-42 | finished ");
}

#[test]
fn finished_label_shows_dash_until_finished() {
    let mut call = Call::starting(String::new());
    assert_eq!(call.finished_label(), "-");
    call.finish_at("2024-05-06 07:08:09".to_string());
    assert_eq!(call.finished_label(), "2024-05-06 07:08:09");
}
