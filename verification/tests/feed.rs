use jr::{Feed, InputBuffers, JError};

#[test]
fn lines_are_evaluated_after_waiting_definitions() {
    let mut b: InputBuffers<u32> = InputBuffers::new();
    match b.feed("1 + 2") {
        Feed::Evaluate(t) => assert_eq!(t, "1 + 2"),
        _ => panic!("expected a sentence"),
    }
    b.defer("if. 1 do.");
    match b.feed("2 end.") {
        Feed::Evaluate(t) => assert_eq!(t, "if. 1 do.\n2 end."),
        _ => panic!("expected a sentence"),
    }
    b.clear_deferred();
    match b.feed("3") {
        Feed::Evaluate(t) => assert_eq!(t, "3"),
        _ => panic!("expected a sentence"),
    }
}

#[test]
fn a_suspended_sentence_gathers_its_body() {
    let mut b: InputBuffers<u32> = InputBuffers::new();
    assert!(!b.is_suspended());
    assert_eq!(b.input_push("x"), Err(JError::DomainError));
    assert_eq!(b.suspend(7), Ok(()));
    assert!(b.is_suspended());
    assert_eq!(b.suspend(8), Err(JError::ControlError));
    assert!(matches!(b.feed("y + 1"), Feed::Suspension));
    assert!(matches!(b.feed("z"), Feed::Suspension));
    match b.feed(")") {
        Feed::Resume(s, body) => {
            assert_eq!(s, 7);
            assert_eq!(body, "y + 1\nz\n");
        }
        _ => panic!("expected the body"),
    }
    assert!(!b.is_suspended());
    assert!(b.take_suspension().is_none());
}
