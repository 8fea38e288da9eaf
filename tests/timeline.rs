use h_analyzer_web::codec::Frame;
use h_analyzer_web::dataset::ChunkResult;
use h_analyzer_web::error::RemoteError;
use h_analyzer_web::replay::{FetchEvent, ReplayController, ReplayTimeline, LATENCY_WINDOW};
use h_analyzer_web::world::{frame_total, WorldMeta, WorldPlayer};

fn frame(index: u64) -> Frame {
    Frame { frame_index: index, timestamp_bits: 0, snapshot: vec![index as u8] }
}

fn frame_chunks(index: u64) -> ChunkResult {
    Ok(vec![bincode::serialize(&(index, 2.0f64.to_bits(), vec![7u8])).unwrap()])
}

fn indices(t: &ReplayTimeline) -> Vec<u64> {
    t.history().iter().map(|f| f.frame_index).collect()
}

#[test]
fn looping_frames_reset_history() {
    let mut t = ReplayTimeline::new("slam".to_string());
    let mut sizes = Vec::new();
    for i in [0u64, 1, 2] {
        t.accept_frame(frame(i));
        sizes.push(t.history().len());
    }
    assert_eq!(indices(&t), vec![0, 1, 2]);
    t.accept_frame(frame(0));
    assert_eq!(indices(&t), vec![0]);
    t.accept_frame(frame(1));
    assert_eq!(indices(&t), vec![0, 1]);
    assert_eq!(sizes, vec![1, 2, 3]);
}

#[test]
fn repeated_index_counts_as_loop() {
    let mut t = ReplayTimeline::new("slam".to_string());
    t.accept_frame(frame(4));
    t.accept_frame(frame(4));
    assert_eq!(indices(&t), vec![4]);
}

#[test]
fn latency_window_keeps_newest_ten() {
    let mut t = ReplayTimeline::new("slam".to_string());
    for x in 0..12u64 {
        t.record_latency(x);
    }
    assert_eq!(LATENCY_WINDOW, 10);
    assert_eq!(t.latencies(), (2..12).collect::<Vec<u64>>());
}

#[test]
fn session_switch_clears_history() {
    let mut t = ReplayTimeline::new("a".to_string());
    t.accept_frame(frame(0));
    t.select_session("a".to_string());
    assert_eq!(t.history().len(), 1);
    t.select_session("b".to_string());
    assert_eq!(t.history().len(), 0);
    assert_eq!(t.session_name(), "b");
}

#[test]
fn cursor_moves_within_history() {
    let mut t = ReplayTimeline::new("a".to_string());
    t.step();
    assert_eq!(t.cursor(), 0);
    for i in 0..3 {
        t.accept_frame(frame(i));
    }
    t.step();
    t.step();
    t.step();
    assert_eq!(t.cursor(), 2);
    assert_eq!(t.current_frame().unwrap().frame_index, 2);
    t.previous();
    assert_eq!(t.cursor(), 1);
    t.pause();
    assert!(!t.is_playing());
    t.play();
    assert!(t.is_playing());
    assert_eq!(t.next_fetch_index(5), Some(3));
    assert_eq!(t.next_fetch_index(3), None);
}

#[test]
fn controller_fetches_sequential_frames() {
    let mut c = ReplayController::new("slam".to_string());
    let mut requested = Vec::new();
    for _ in 0..5 {
        if let Some(index) = c.begin_pass(3) {
            requested.push(index);
            assert_eq!(c.on_frame(frame_chunks(index)), FetchEvent::Accepted);
        }
    }
    assert_eq!(requested, vec![0, 1, 2]);
    assert_eq!(indices(c.timeline()), vec![0, 1, 2]);
    assert_eq!(c.timeline().latencies().len(), 3);
}

#[test]
fn nothing_is_requested_while_a_fetch_is_in_flight() {
    let mut c = ReplayController::new("slam".to_string());
    assert_eq!(c.begin_pass(5), Some(0));
    for _ in 0..4 {
        assert_eq!(c.begin_pass(5), None);
    }
    assert_eq!(c.settle_fetch(frame_chunks(0), 1000), FetchEvent::Accepted);
    assert_eq!(c.timeline().latencies(), vec![1000]);
    assert_eq!(c.begin_pass(5), Some(1));
}

#[test]
fn controller_detects_loop_from_backend() {
    let mut c = ReplayController::new("slam".to_string());
    let served = [0u64, 1, 2, 0, 1];
    for (k, index) in served.iter().enumerate() {
        assert!(c.begin_pass(10).is_some());
        c.settle_fetch(frame_chunks(*index), 5);
        if k == 3 {
            assert_eq!(indices(c.timeline()), vec![0]);
        }
    }
    assert_eq!(indices(c.timeline()), vec![0, 1]);
}

#[test]
fn failed_fetch_is_retried_later() {
    let mut c = ReplayController::new("slam".to_string());
    assert_eq!(c.begin_pass(2), Some(0));
    assert_eq!(c.on_frame(Err(RemoteError::Transport)), FetchEvent::Dropped(RemoteError::Transport));
    assert_eq!(c.begin_pass(2), Some(0));
    assert_eq!(c.on_frame(Ok(vec![vec![1, 2]])), FetchEvent::Dropped(RemoteError::Decode));
    assert_eq!(c.timeline().history().len(), 0);
    assert_eq!(c.begin_pass(2), Some(0));
    assert_eq!(c.on_frame(frame_chunks(0)), FetchEvent::Accepted);
}

#[test]
fn frame_for_superseded_session_is_dropped() {
    let mut c = ReplayController::new("a".to_string());
    assert_eq!(c.begin_pass(5), Some(0));
    c.select_session("b".to_string());
    assert_eq!(c.begin_pass(5), None);
    assert_eq!(c.settle_fetch(frame_chunks(0), 1), FetchEvent::Dropped(RemoteError::Stale));
    assert_eq!(c.timeline().history().len(), 0);
    assert_eq!(c.begin_pass(5), Some(0));
}

#[test]
fn frame_total_takes_last_matching_entry() {
    let worlds = vec![
        WorldMeta { id: "a".to_string(), total_frame_num: 3 },
        WorldMeta { id: "b".to_string(), total_frame_num: 5 },
        WorldMeta { id: "a".to_string(), total_frame_num: 7 },
    ];
    assert_eq!(frame_total(&worlds, &"a".to_string()), 7);
    assert_eq!(frame_total(&worlds, &"b".to_string()), 5);
    assert_eq!(frame_total(&worlds, &"c".to_string()), 0);
    let mut p = WorldPlayer::default();
    assert_eq!(p.session_name(), "slam");
    assert_eq!(p.history_len(&worlds), 0);
    p.select("b".to_string());
    assert_eq!(p.session_name(), "b");
    assert_eq!(p.history_len(&worlds), 5);
}

#[test]
fn controller_follows_player_session() {
    let worlds = vec![WorldMeta { id: "slam".to_string(), total_frame_num: 1 }];
    let player = WorldPlayer::default();
    let mut c = ReplayController::new(String::new());
    assert_eq!(c.follow(&player, &worlds), Some(0));
    assert_eq!(c.timeline().session_name(), "slam");
    assert_eq!(c.on_frame(frame_chunks(0)), FetchEvent::Accepted);
    assert_eq!(c.follow(&player, &worlds), None);
}
