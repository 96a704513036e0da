use dashcam_hud::pipeline::{
    frame_count, history_window, job_slot, last_visible_frame, output_kind, thread_count, JobSlot,
    OutputKind,
};

#[test]
fn frame_count_is_samples_minus_one_times_fps() {
    assert_eq!(frame_count(5, 30), 4 * 30);
    assert_eq!(frame_count(2, 30), 1 * 30);
    assert_eq!(frame_count(10, 60), 9 * 60);
    assert_eq!(frame_count(2, 25), 25);
}

#[test]
fn first_frame_uses_the_first_pair() {
    assert_eq!(job_slot(0, 0, 5), JobSlot { global: 0, tele_a: 0, tele_b: 1, g_hist_idx: 0 });
}

#[test]
fn each_whole_second_picks_its_pair() {
    for k in 1..4usize {
        let s = job_slot(k * 30, k, 5);
        assert_eq!(s.tele_a, k);
        assert_eq!(s.tele_b, k + 1);
        assert_eq!(s.global, k * 30);
    }
}

#[test]
fn positions_past_the_end_hold_the_last_pair() {
    let s = job_slot(7, 999, 3);
    assert_eq!((s.tele_a, s.tele_b), (1, 2));
    let t = job_slot(7, 4, 5);
    assert_eq!((t.tele_a, t.tele_b), (3, 4));
}

#[test]
fn two_samples_always_give_the_single_pair() {
    for whole in [0usize, 1, 2, 50] {
        let s = job_slot(whole, whole, 2);
        assert_eq!((s.tele_a, s.tele_b), (0, 1));
    }
}

#[test]
fn slots_stay_in_bounds_and_never_go_back() {
    let n = 7usize;
    let mut prev = 0usize;
    for whole in 0..20usize {
        let s = job_slot(whole, whole, n);
        assert!(s.tele_a < n - 1);
        assert!(s.tele_b < n);
        assert_eq!(s.g_hist_idx, s.tele_a);
        assert!(s.tele_a >= prev);
        prev = s.tele_a;
    }
}

#[test]
fn history_keeps_the_last_forty_readings_oldest_first() {
    let has = vec![true; 100];
    let w = history_window(&has, 99);
    assert_eq!(w, (60..100).collect::<Vec<usize>>());
    let early = history_window(&has, 3);
    assert_eq!(early, vec![0, 1, 2, 3]);
}

#[test]
fn history_skips_samples_without_readings() {
    let has = vec![true, false, true, false, true];
    assert_eq!(history_window(&has, 4), vec![0, 2, 4]);
    assert_eq!(history_window(&has, 1), vec![0]);
    let none = vec![false; 3];
    assert!(history_window(&none, 2).is_empty());
}

#[test]
fn map_shows_up_to_the_later_sample() {
    assert_eq!(last_visible_frame(0, 5), 1);
    assert_eq!(last_visible_frame(3, 5), 4);
    assert_eq!(last_visible_frame(4, 5), 4);
    assert_eq!(last_visible_frame(0, 1), 0);
}

#[test]
fn thread_count_defaults() {
    assert_eq!(thread_count(3, Some(16)), 3);
    assert_eq!(thread_count(0, Some(16)), 16);
    assert_eq!(thread_count(0, None), 4);
}

#[test]
fn output_kind_by_extension() {
    assert_eq!(output_kind("mov", false), OutputKind::Pipe);
    assert_eq!(output_kind("mp4", false), OutputKind::Pipe);
    assert_eq!(output_kind("webm", true), OutputKind::Both);
    assert_eq!(output_kind("mkv", true), OutputKind::Both);
    assert_eq!(output_kind("", false), OutputKind::Frames);
    assert_eq!(output_kind("", true), OutputKind::Frames);
    assert_eq!(output_kind("png", true), OutputKind::Frames);
    assert_eq!(output_kind("MOV", false), OutputKind::Frames);
}
