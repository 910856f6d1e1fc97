use codex_core::completion::{BrokerAction, CodeCellCompletionBroker, CodeCellCompletionRegistration};

fn cell(name: &str) -> String {
    name.to_string()
}

fn enqueued(action: Option<BrokerAction>) -> (u64, String) {
    match action {
        Some(BrokerAction::Enqueue {
            registration_id,
            cell_id,
        }) => (registration_id, cell_id),
        other => panic!("expected an enqueue, got {other:?}"),
    }
}

#[test]
fn arm_then_complete_enqueues_once() {
    let mut broker = CodeCellCompletionBroker::new();
    broker.register(cell("a"));
    assert!(broker.arm(&cell("a")).is_none());
    assert!(broker.has_pending_delivery());
    let (id, cell_id) = enqueued(broker.completed(&cell("a")));
    assert_eq!((id, cell_id.as_str()), (0, "a"));
    assert!(broker.completed(&cell("a")).is_none());
    assert!(broker.arm(&cell("a")).is_none());
}

#[test]
fn complete_then_arm_enqueues_once() {
    let mut broker = CodeCellCompletionBroker::new();
    broker.register(cell("a"));
    assert!(broker.completed(&cell("a")).is_none());
    assert!(!broker.has_pending_delivery());
    let (id, _) = enqueued(broker.arm(&cell("a")));
    assert_eq!(id, 0);
    assert!(broker.arm(&cell("a")).is_none());
}

#[test]
fn completion_before_registration_is_carried_over() {
    let mut broker = CodeCellCompletionBroker::new();
    assert!(broker.completed(&cell("early")).is_none());
    broker.register(cell("other"));
    broker.register(cell("early"));
    let (id, cell_id) = enqueued(broker.arm(&cell("early")));
    assert_eq!((id, cell_id.as_str()), (1, "early"));
}

#[test]
fn arming_an_unregistered_cell_does_nothing() {
    let mut broker = CodeCellCompletionBroker::new();
    assert!(broker.arm(&cell("missing")).is_none());
    assert!(!broker.has_pending_delivery());
}

#[test]
fn direct_observation_retracts_and_stops_delivery() {
    let mut broker = CodeCellCompletionBroker::new();
    broker.register(cell("a"));
    broker.arm(&cell("a"));
    let (id, _) = enqueued(broker.completed(&cell("a")));
    match broker.begin_direct_observation(&cell("a")) {
        Some(BrokerAction::RemoveQueuedWakeup { cell_id }) => assert_eq!(cell_id, "a"),
        other => panic!("expected a retraction, got {other:?}"),
    }
    assert!(!broker.has_pending_delivery());
    assert!(broker.enqueued_wakeup_observed(id));
    assert!(!broker.enqueued_wakeup_observed(id));
    assert!(broker.begin_direct_observation(&cell("a")).is_none());
}

#[test]
fn enqueue_of_a_current_registration_is_not_retracted() {
    let mut broker = CodeCellCompletionBroker::new();
    broker.register(cell("a"));
    broker.arm(&cell("a"));
    let (id, _) = enqueued(broker.completed(&cell("a")));
    assert!(!broker.enqueued_wakeup_observed(id));
    assert!(broker.has_pending_delivery());
}

#[test]
fn delivered_wakeup_is_not_retracted_from_the_queue_but_settles_observed() {
    let mut broker = CodeCellCompletionBroker::new();
    broker.register(cell("a"));
    broker.arm(&cell("a"));
    let (id, _) = enqueued(broker.completed(&cell("a")));
    broker.mark_delivered(&cell("a"));
    assert!(!broker.has_pending_delivery());
    assert!(broker.enqueued_wakeup_observed(id));
}

#[test]
fn finish_forgets_an_early_completion() {
    let mut broker = CodeCellCompletionBroker::new();
    broker.completed(&cell("a"));
    assert!(broker.finish(&cell("a")).is_none());
    broker.register(cell("a"));
    assert!(broker.arm(&cell("a")).is_none());
}

#[test]
fn finish_retires_the_registration() {
    let mut broker = CodeCellCompletionBroker::new();
    broker.register(cell("a"));
    broker.arm(&cell("a"));
    match broker.finish(&cell("a")) {
        Some(BrokerAction::RemoveQueuedWakeup { cell_id }) => assert_eq!(cell_id, "a"),
        other => panic!("expected a retraction, got {other:?}"),
    }
    assert!(!broker.has_pending_delivery());
    assert!(broker.completed(&cell("a")).is_none());
}

#[test]
fn reregistering_replaces_the_registration() {
    let mut broker = CodeCellCompletionBroker::new();
    broker.register(cell("a"));
    broker.arm(&cell("a"));
    let (first, _) = enqueued(broker.completed(&cell("a")));
    broker.register(cell("a"));
    assert!(!broker.has_pending_delivery());
    assert!(broker.completed(&cell("a")).is_none());
    let (second, _) = enqueued(broker.arm(&cell("a")));
    assert_ne!(first, second);
    assert!(!broker.enqueued_wakeup_observed(first));
}

#[test]
fn registration_state_machine() {
    let mut registration = CodeCellCompletionRegistration::new(9);
    assert!(!registration.complete());
    assert!(registration.arm());
    assert!(registration.enqueued && registration.delivery_pending);
    registration.observed();
    assert!(registration.observed && !registration.delivery_pending);
    let mut other = CodeCellCompletionRegistration::new(3);
    other.delivered();
    assert!(!other.arm());
    assert!(!other.complete());
    assert!(!other.enqueued);
}

#[test]
fn default_broker_is_empty() {
    let mut broker = CodeCellCompletionBroker::default();
    assert!(!broker.has_pending_delivery());
    assert!(broker.can_register());
    assert!(!broker.enqueued_wakeup_observed(0));
}
