use std::collections::HashSet;

use panels_wallpapers::naming::download_file_name;
use panels_wallpapers::{distribute, App, Lane, LaneAction, LaneEvent, Manifest, ManifestData};

fn hd(url: &str) -> ManifestData {
    ManifestData { dhd: Some(String::from(url)), ..ManifestData::default() }
}

#[test]
fn five_entries_over_two_lanes() {
    let lanes = distribute(vec![0usize, 1, 2, 3, 4], 2);
    assert_eq!(lanes, vec![vec![0, 2, 4], vec![1, 3]]);
}

#[test]
fn distribution_places_position_i_in_lane_i_mod_w() {
    let n = 23usize;
    for w in 1..=7usize {
        let lanes = distribute((0..n).collect::<Vec<usize>>(), w);
        assert_eq!(lanes.len(), w);
        let total: usize = lanes.iter().map(|l| l.len()).sum();
        assert_eq!(total, n);
        for i in 0..n {
            assert_eq!(lanes[i % w][i / w], i);
        }
    }
}

#[test]
fn distribution_with_more_lanes_than_items() {
    let lanes = distribute(vec!['a', 'b'], 4);
    assert_eq!(lanes, vec![vec!['a'], vec!['b'], vec![], vec![]]);
    let none: Vec<Vec<u8>> = distribute(Vec::new(), 3);
    assert_eq!(none, vec![Vec::<u8>::new(), Vec::new(), Vec::new()]);
}

#[test]
fn single_lane_gets_everything_in_order() {
    let lanes = distribute(vec![5u8, 4, 3], 1);
    assert_eq!(lanes, vec![vec![5, 4, 3]]);
}

#[test]
fn file_names_follow_lane_and_sequence() {
    assert_eq!(download_file_name(0, 0), "0_0.jpg");
    assert_eq!(download_file_name(3, 7), "3_7.jpg");
    assert_eq!(download_file_name(12, 305), "12_305.jpg");
    assert_eq!(download_file_name(10, 0), "10_0.jpg");
    assert_eq!(
        download_file_name(usize::MAX, 1),
        format!("{}_1.jpg", usize::MAX)
    );
}

#[test]
fn file_names_are_unique_over_lanes_and_sequences() {
    let mut seen = HashSet::new();
    for lane in 0..30usize {
        for seq in 0..120usize {
            assert!(seen.insert(download_file_name(lane, seq)));
        }
    }
}

fn drain(lane: usize, items: Vec<ManifestData>) -> (Lane, Vec<LaneAction>) {
    let mut state = Lane::new(lane);
    let mut actions = Vec::new();
    for item in items {
        actions.push(state.step(LaneEvent::Item(item)));
    }
    actions.push(state.step(LaneEvent::Closed));
    (state, actions)
}

#[test]
fn lane_finishes_once_queue_is_closed() {
    let (state, actions) = drain(2, vec![hd("u0"), hd("u1"), hd("u2")]);
    assert!(state.done);
    assert_eq!(state.next_seq, 3);
    assert_eq!(actions.len(), 4);
    assert!(matches!(actions[3], LaneAction::Finish));
    let (empty, only) = drain(0, Vec::new());
    assert!(empty.done);
    assert_eq!(only.len(), 1);
    assert!(matches!(only[0], LaneAction::Finish));
}

#[test]
fn lane_asks_for_each_download_with_its_own_file() {
    let (_, actions) = drain(1, vec![hd("u0"), hd("u1")]);
    match &actions[0] {
        LaneAction::Download { url, file_name } => {
            assert_eq!(url, "u0");
            assert_eq!(file_name, "1_0.jpg");
        }
        _ => panic!("expected a download"),
    }
    match &actions[1] {
        LaneAction::Download { url, file_name } => {
            assert_eq!(url, "u1");
            assert_eq!(file_name, "1_1.jpg");
        }
        _ => panic!("expected a download"),
    }
}

#[test]
fn lane_goes_on_after_an_entry_it_cannot_download() {
    // The first entry names no image; the lane skips it, still spends its
    // number, and handles the next entries.
    let (state, actions) = drain(0, vec![ManifestData::default(), hd("u1"), hd("u2")]);
    assert!(matches!(actions[0], LaneAction::Skip));
    match &actions[2] {
        LaneAction::Download { url, file_name } => {
            assert_eq!(url, "u2");
            assert_eq!(file_name, "0_2.jpg");
        }
        _ => panic!("expected a download"),
    }
    assert_eq!(state.next_seq, 3);
}

#[test]
fn closed_lane_stays_finished() {
    let mut state = Lane::new(4);
    assert!(matches!(state.step(LaneEvent::Closed), LaneAction::Finish));
    assert!(matches!(state.step(LaneEvent::Item(hd("late"))), LaneAction::Finish));
    assert!(state.done);
    assert_eq!(state.next_seq, 0);
}

#[test]
fn zero_workers_is_clamped_to_one() {
    let app = App::new("http://localhost:8080", "wallpapers", 0);
    assert_eq!(app.workers(), 1);
}

#[test]
fn app_keeps_its_configuration() {
    let app = App::new("http://localhost:8080", "wallpapers", 10);
    assert_eq!(app.workers(), 10);
    assert_eq!(app.panels_domain(), "http://localhost:8080");
    assert_eq!(app.download_directory(), "wallpapers");
    assert_eq!(
        app.manifest_url(),
        "http://localhost:8080/panels-api/data/20240916/media-1a-i-p~s"
    );
}

#[test]
fn app_lanes_deal_wallpapers_round_robin() {
    let manifest = Manifest {
        version: 1,
        data: vec![
            (String::from("a"), hd("u0")),
            (String::from("b"), ManifestData::default()),
            (String::from("c"), hd("u1")),
            (String::from("d"), hd("u2")),
            (String::from("e"), hd("u3")),
            (String::from("f"), hd("u4")),
        ],
    };
    let app = App::new("d", "w", 2);
    let lanes = app.lanes(&manifest);
    let urls: Vec<Vec<&str>> = lanes
        .iter()
        .map(|l| l.iter().map(|e| e.wallpaper_url().unwrap()).collect())
        .collect();
    assert_eq!(urls, vec![vec!["u0", "u2", "u4"], vec!["u1", "u3"]]);
}
