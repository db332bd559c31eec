use book_examples::tracker::LimitTracker;
use book_examples::tracker::Messenger;
use std::cell::RefCell;

struct MockMessenger {
    sent_messages: RefCell<Vec<String>>,
}

impl MockMessenger {
    fn new() -> MockMessenger {
        MockMessenger { sent_messages: RefCell::new(vec![]) }
    }
}

impl Messenger for MockMessenger {
    fn send(&self, message: &str) {
        self.sent_messages.borrow_mut().push(String::from(message));
    }
}

#[test]
fn it_sends_an_over_75_percent_warning_message() {
    let mock_messenger = MockMessenger::new();
    let mut limit_tracker = LimitTracker::new(&mock_messenger, 100);

    limit_tracker.set_value(80);

    assert_eq!(mock_messenger.sent_messages.borrow().len(), 1);
}

#[test]
fn warning_message_text() {
    let mock_messenger = MockMessenger::new();
    let mut limit_tracker = LimitTracker::new(&mock_messenger, 100);

    limit_tracker.set_value(80);

    assert_eq!(
        mock_messenger.sent_messages.borrow()[0],
        "Warning: You've used up over 75% of your quota!"
    );
}

#[test]
fn urgent_warning_at_ninety_percent() {
    let mock_messenger = MockMessenger::new();
    let mut limit_tracker = LimitTracker::new(&mock_messenger, 100);

    limit_tracker.set_value(90);

    assert_eq!(
        mock_messenger.sent_messages.borrow()[0],
        "Urgent warning: You've used up over 90% of your quota!"
    );
}

#[test]
fn error_at_full_quota() {
    let mock_messenger = MockMessenger::new();
    let mut limit_tracker = LimitTracker::new(&mock_messenger, 100);

    limit_tracker.set_value(100);

    assert_eq!(
        mock_messenger.sent_messages.borrow()[0],
        "Error: You are over your quota!"
    );
}

#[test]
fn quiet_below_three_quarters() {
    let mock_messenger = MockMessenger::new();
    let mut limit_tracker = LimitTracker::new(&mock_messenger, 100);

    limit_tracker.set_value(74);

    assert_eq!(mock_messenger.sent_messages.borrow().len(), 0);
}
