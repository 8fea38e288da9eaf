use h_analyzer_web::dataset::{
    ChunkResult, DatasetRegistry, LoadDescriptor, LoadState, ModalWindowAction, SourceType,
};
use h_analyzer_web::error::RemoteError;
use h_analyzer_web::series::{ElementKind, SeriesFeed, SeriesMeta};

fn descriptor(path: &str) -> LoadDescriptor {
    LoadDescriptor {
        path: path.to_string(),
        source_type: SourceType::Csv,
        delimiter: ",".to_string(),
        has_header: true,
        skip_rows_before_header: 0,
        skip_rows_after_header: 0,
    }
}

fn table_chunks(rows: u64) -> Vec<Vec<u8>> {
    let cols = vec![("v".to_string(), (0..rows).collect::<Vec<u64>>())];
    let bytes = bincode::serialize(&cols).unwrap();
    let mid = bytes.len() / 2;
    vec![bytes[..mid].to_vec(), bytes[mid..].to_vec()]
}

/// One pass: start the next load, note its path, then finish with `outcome`.
fn pass(reg: &mut DatasetRegistry, started: &mut Vec<String>, outcome: Option<ChunkResult>) {
    if let Some(i) = reg.start_next() {
        started.push(reg.descriptor_at(i).path.clone());
    }
    reg.finish_pass(outcome);
}

fn loading_count(reg: &DatasetRegistry, ids: &[u64]) -> usize {
    ids.iter().filter(|id| reg.dataset_state(**id) == Some(LoadState::Loading)).count()
}

#[test]
fn enqueue_confirm_cancel_transitions() {
    let mut reg = DatasetRegistry::new();
    let a = reg.enqueue(descriptor("a.csv"), false).unwrap();
    let b = reg.enqueue(descriptor("b.csv"), true).unwrap();
    assert_eq!(a, 0);
    assert_eq!(b, 1);
    assert_eq!(reg.dataset_state(a), Some(LoadState::AwaitingConfirmation));
    assert_eq!(reg.dataset_state(b), Some(LoadState::Queued));
    assert!(reg.confirm(a));
    assert_eq!(reg.dataset_state(a), Some(LoadState::Queued));
    assert!(!reg.confirm(a));
    assert!(reg.cancel(b));
    assert_eq!(reg.dataset_state(b), Some(LoadState::Canceled));
    assert!(!reg.cancel(b));
    assert!(!reg.cancel(99));
    assert_eq!(reg.dataset_state(99), None);
}

#[test]
fn awaiting_confirmation_is_never_started() {
    let mut reg = DatasetRegistry::new();
    let a = reg.enqueue(descriptor("a.csv"), false).unwrap();
    let mut started = Vec::new();
    pass(&mut reg, &mut started, None);
    assert!(started.is_empty());
    assert_eq!(reg.dataset_state(a), Some(LoadState::AwaitingConfirmation));
    assert_eq!(reg.loading(), None);
}

#[test]
fn successful_load_materialises_payload() {
    let mut reg = DatasetRegistry::new();
    let a = reg.enqueue(descriptor("a.csv"), true).unwrap();
    let mut started = Vec::new();
    pass(&mut reg, &mut started, None);
    assert_eq!(started, vec!["a.csv".to_string()]);
    assert_eq!(reg.loading(), Some(a));
    pass(&mut reg, &mut started, Some(Ok(table_chunks(4))));
    assert_eq!(reg.dataset_state(a), Some(LoadState::Loaded));
    assert_eq!(reg.dataset_payload(a).unwrap().height(), 4);
    assert_eq!(reg.loading(), None);
}

#[test]
fn transport_failure_marks_failed() {
    let mut reg = DatasetRegistry::new();
    let a = reg.enqueue(descriptor("a.csv"), true).unwrap();
    let mut started = Vec::new();
    pass(&mut reg, &mut started, Some(Err(RemoteError::Transport)));
    assert_eq!(reg.dataset_state(a), Some(LoadState::Failed));
    assert!(reg.dataset_payload(a).is_none());
}

#[test]
fn corrupt_stream_marks_failed_without_payload() {
    let mut reg = DatasetRegistry::new();
    let a = reg.enqueue(descriptor("a.csv"), true).unwrap();
    let mut chunks = table_chunks(4);
    chunks[1].truncate(1);
    let mut started = Vec::new();
    pass(&mut reg, &mut started, Some(Ok(chunks)));
    assert_eq!(reg.dataset_state(a), Some(LoadState::Failed));
    assert!(reg.dataset_payload(a).is_none());
}

#[test]
fn garbage_stream_marks_failed_without_payload() {
    let mut reg = DatasetRegistry::new();
    let a = reg.enqueue(descriptor("a.csv"), true).unwrap();
    let mut started = Vec::new();
    pass(&mut reg, &mut started, Some(Ok(vec![vec![0xff; 3]])));
    assert_eq!(reg.dataset_state(a), Some(LoadState::Failed));
    assert!(reg.dataset_payload(a).is_none());
}

#[test]
fn decode_payload_joins_chunks() {
    let t = DatasetRegistry::decode_payload(Ok(table_chunks(3))).unwrap();
    assert_eq!(t.height(), 3);
    assert_eq!(DatasetRegistry::decode_payload(Err(RemoteError::NotFound)).unwrap_err(), RemoteError::NotFound);
    assert_eq!(DatasetRegistry::decode_payload(Ok(vec![vec![1]])).unwrap_err(), RemoteError::Decode);
}

#[test]
fn at_most_one_load_in_flight() {
    let mut reg = DatasetRegistry::new();
    let ids: Vec<u64> = (0..4).map(|i| reg.enqueue(descriptor(&format!("{}.csv", i)), true).unwrap()).collect();
    let mut started = Vec::new();
    for _ in 0..6 {
        pass(&mut reg, &mut started, None);
        assert!(loading_count(&reg, &ids) <= 1);
    }
    assert_eq!(started.len(), 1);
    assert_eq!(loading_count(&reg, &ids), 1);
    pass(&mut reg, &mut started, Some(Ok(table_chunks(1))));
    assert_eq!(reg.dataset_state(ids[0]), Some(LoadState::Loaded));
    assert!(loading_count(&reg, &ids) <= 1);
    pass(&mut reg, &mut started, None);
    assert_eq!(started.len(), 2);
    assert_eq!(loading_count(&reg, &ids), 1);
}

#[test]
fn pending_polls_leave_state_unchanged() {
    let mut reg = DatasetRegistry::new();
    let a = reg.enqueue(descriptor("a.csv"), true).unwrap();
    let b = reg.enqueue(descriptor("b.csv"), true).unwrap();
    let mut started = Vec::new();
    pass(&mut reg, &mut started, None);
    let after_one = (reg.dataset_state(a), reg.dataset_state(b), reg.loading());
    for _ in 0..10 {
        pass(&mut reg, &mut started, None);
        assert_eq!((reg.dataset_state(a), reg.dataset_state(b), reg.loading()), after_one);
    }
    assert_eq!(after_one, (Some(LoadState::Loading), Some(LoadState::Queued), Some(a)));
    assert_eq!(started.len(), 1);
}

#[test]
fn canceled_loading_record_drops_late_result() {
    let mut reg = DatasetRegistry::new();
    let a = reg.enqueue(descriptor("a.csv"), true).unwrap();
    let mut started = Vec::new();
    pass(&mut reg, &mut started, None);
    assert_eq!(reg.dataset_state(a), Some(LoadState::Loading));
    assert!(reg.cancel(a));
    pass(&mut reg, &mut started, None);
    assert_eq!(reg.dataset_state(a), None);
    pass(&mut reg, &mut started, Some(Ok(table_chunks(2))));
    assert_eq!(reg.dataset_state(a), None);
    assert!(reg.dataset_payload(a).is_none());
    assert_eq!(reg.len(), 0);
    assert_eq!(reg.loading(), None);
    assert_eq!(started.len(), 1);
}

#[test]
fn loads_start_in_enqueue_order() {
    let mut reg = DatasetRegistry::new();
    let mut feed = SeriesFeed::new();
    let a = reg.enqueue(descriptor("A"), true).unwrap();
    let b = reg.enqueue(descriptor("B"), true).unwrap();
    let c = reg.enqueue(descriptor("C"), true).unwrap();
    assert!(a < b && b < c);
    let mut started = Vec::new();
    for round in 0..6 {
        // Unrelated traffic between the passes of the registry.
        if feed.list_due() {
            feed.on_list(Ok(vec![SeriesMeta { id: format!("s{}", round), kind: ElementKind::Point }]));
        }
        let _ = feed.polls_due();
        pass(&mut reg, &mut started, None);
        pass(&mut reg, &mut started, Some(Ok(table_chunks(1))));
    }
    assert_eq!(started, vec!["A".to_string(), "B".to_string(), "C".to_string()]);
    for id in [a, b, c] {
        assert_eq!(reg.dataset_state(id), Some(LoadState::Loaded));
    }
}

#[test]
fn modal_actions_confirm_or_cancel() {
    let mut reg = DatasetRegistry::new();
    let a = reg.enqueue(descriptor("a.csv"), false).unwrap();
    let b = reg.enqueue(descriptor("b.csv"), false).unwrap();
    assert!(!reg.apply_modal_action(a, ModalWindowAction::Preview));
    assert_eq!(reg.dataset_state(a), Some(LoadState::AwaitingConfirmation));
    assert!(reg.apply_modal_action(a, ModalWindowAction::Load));
    assert_eq!(reg.dataset_state(a), Some(LoadState::Queued));
    assert!(reg.apply_modal_action(b, ModalWindowAction::Cancel));
    assert_eq!(reg.dataset_state(b), Some(LoadState::Canceled));
    let mut started = Vec::new();
    pass(&mut reg, &mut started, Some(Ok(table_chunks(2))));
    assert_eq!(reg.dataset_state(b), None);
    assert_eq!(reg.dataset_state(a), Some(LoadState::Loaded));
}
