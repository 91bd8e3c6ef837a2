use deezco::json::Json;
use deezco::models::GwTrack;
use deezco::queue::{
    avoid_recent_repeat, avoid_recent_repeat_paths, local_title, LocalFile, LocalFileQueue, Next,
    NextTrackError, TrackQueue,
};
use std::collections::VecDeque;

fn track(id: &str) -> GwTrack {
    GwTrack::new(Json::Text(id.to_string()))
}

fn recent(ids: &[&str]) -> VecDeque<String> {
    ids.iter().map(|s| s.to_string()).collect()
}

#[test]
fn no_repeat_guard_swaps_a_recent_front_track_out() {
    let mut tracks = vec![track("1"), track("2"), track("3")];
    avoid_recent_repeat(&mut tracks, &recent(&["1", "9"]));
    assert_ne!(tracks[0].id_str(), "1", "front must not be recently served");
    assert!(tracks.iter().any(|t| t.id_str() == "1"));
}

#[test]
fn no_repeat_guard_leaves_a_fresh_front_untouched() {
    let mut tracks = vec![track("7"), track("1"), track("2")];
    avoid_recent_repeat(&mut tracks, &recent(&["1", "2"]));
    assert_eq!(tracks[0].id_str(), "7");
}

#[test]
fn no_repeat_guard_handles_a_playlist_smaller_than_the_window() {
    // Everything is recent: nothing to swap with, play as shuffled.
    let mut tracks = vec![track("1")];
    avoid_recent_repeat(&mut tracks, &recent(&["1"]));
    assert_eq!(tracks[0].id_str(), "1");
}

#[test]
fn no_repeat_guard_works_on_paths() {
    let file = |p: &str| LocalFile { path: p.to_string() };
    let mut files = vec![file("a"), file("b")];
    avoid_recent_repeat_paths(&mut files, &recent(&["a"]));
    assert_eq!(files[0].path, "b");
}

fn playlist() -> Vec<GwTrack> {
    (1..=5).map(|i| track(&i.to_string())).collect()
}

fn play(queue: &mut TrackQueue, now: u128) -> String {
    let next = match queue.next_track("p", None, now) {
        Next::Fetch => queue.next_track("p", Some(Ok(playlist())), now),
        other => other,
    };
    match next {
        Next::Play(track, _) => track.id_str(),
        Next::Fetch => panic!("fetched twice"),
        Next::Fail(err) => panic!("{err:?}"),
    }
}

#[test]
fn a_playlist_plays_through_before_it_is_shuffled_again() {
    let mut queue = TrackQueue::new(u128::MAX);
    let mut played: Vec<String> = (0..5).map(|_| play(&mut queue, 0)).collect();
    played.sort();
    assert_eq!(played, vec!["1", "2", "3", "4", "5"]);
    for _ in 0..50 {
        let one = play(&mut queue, 0);
        assert_ne!(one, play(&mut queue, 0));
    }
}

#[test]
fn shuffling_changes_the_order() {
    let ids: Vec<String> = (0..200).map(|i| i.to_string()).collect();
    let tracks: Vec<GwTrack> = ids.iter().map(|id| track(id)).collect();
    let mut queue = TrackQueue::new(u128::MAX);
    assert_eq!(queue.next_track("p", None, 0), Next::Fetch);
    let mut order = Vec::new();
    let mut fetched = Some(Ok(tracks));
    while order.len() < 200 {
        match queue.next_track("p", fetched.take(), 0) {
            Next::Play(track, _) => order.push(track.id_str()),
            _ => panic!("nothing to play"),
        }
    }
    assert_ne!(order, ids);
}

#[test]
fn failed_fetches_keep_the_cache() {
    let mut queue = TrackQueue::new(10);
    assert_eq!(queue.next_track("p", None, 0), Next::Fetch);
    assert!(matches!(queue.next_track("p", Some(Ok(playlist())), 0), Next::Play(_, None)));
    // Stale: the list is asked for again, and a failure leaves the old one.
    assert_eq!(queue.next_track("p", None, 11), Next::Fetch);
    match queue.next_track("p", Some(Err("offline".to_string())), 11) {
        Next::Play(_, warning) => assert!(warning.unwrap().contains("offline")),
        other => panic!("{other:?}"),
    }
    // Nothing cached: the failure is reported.
    assert_eq!(
        queue.next_track("q", Some(Err("offline".to_string())), 0),
        Next::Fail(NextTrackError::Fetch("offline".to_string()))
    );
    assert_eq!(
        queue.next_track("r", Some(Ok(Vec::new())), 0),
        Next::Fail(NextTrackError::Empty)
    );
}

#[test]
fn local_files_play_in_turn() {
    let mut queue = LocalFileQueue::new("/music".to_string(), u128::MAX);
    assert_eq!(queue.music_dir(), "/music");
    assert_eq!(queue.next_file(None, 0), Next::Fetch);
    let files = vec!["/music/a.mp3".to_string(), "/music/b.mp3".to_string()];
    let first = queue.next_file(Some(Ok(files)), 0);
    let second = queue.next_file(None, 0);
    assert!(matches!(first, Next::Play(_, None)));
    assert!(matches!(second, Next::Play(_, None)));
    assert_ne!(first, second);
}

#[test]
fn local_titles_come_from_the_file_name() {
    assert_eq!(local_title("/music/Band - Song.mp3"), "Band - Song");
    assert_eq!(local_title("/"), "Unknown Track");
}
