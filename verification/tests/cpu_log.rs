use perch::cpu_log::{
    active, hwdec_name, log_path, note_dropped, note_frame, note_hwdec, note_render_size,
    page_name, render_size, rotates, start, thread_name, Activity, Page, HEADER, MAX_BYTES, TICKS,
};
use perch::sampler::{descendants, peak_of, row, Process, Reading, Sampler, Surroundings};

fn process(pid: u32, parent: u32) -> Process {
    Process { pid, parent }
}

#[test]
fn nothing_is_active_until_it_is_switched_on() {
    let mut activity = Activity::default();
    assert!(!active(&activity));
    activity.active = true;
    assert!(active(&activity));
}

#[test]
fn the_log_is_opt_in() {
    let on = |word: &str| start(true, &Some(word.into()), "/home/me/.cache/perch/perch.log");
    assert_eq!(on("1").as_deref(), Some("/home/me/.cache/perch/perch.cpu.csv"));
    assert!(on("on").is_some() && on("true").is_some());
    assert!(on("0").is_none() && on("").is_none());
    assert!(start(true, &None, "x.log").is_none());
    assert!(start(false, &Some("1".into()), "x.log").is_none());
    assert_eq!(log_path("/a.b/log"), "/a.b/log.cpu.csv");
    assert_eq!(log_path(".log"), ".log.cpu.csv");
}

#[test]
fn decoding_is_named_for_what_was_seen() {
    let mut activity = Activity::default();
    assert_eq!(hwdec_name(&activity), "-");
    note_hwdec(&mut activity, "no");
    let software = hwdec_name(&activity);
    note_hwdec(&mut activity, "vaapi");
    let both = hwdec_name(&activity);
    assert_ne!(software, both);
    let mut gpu = Activity::default();
    note_hwdec(&mut gpu, "vaapi");
    assert_ne!(hwdec_name(&gpu), software);
}

#[test]
fn the_largest_render_size_is_told_once() {
    let mut activity = Activity::default();
    activity.active = true;
    note_render_size(&mut activity, 640, 360);
    note_render_size(&mut activity, 1280, 720);
    note_render_size(&mut activity, 320, 180);
    assert_eq!(render_size(&mut activity), "1280x720");
    assert_eq!(render_size(&mut activity), "-");
}

#[test]
fn a_frame_publishes_what_is_on_screen() {
    let mut activity = Activity::default();
    activity.active = true;
    note_frame(&mut activity, Page::Watch, 3, 2, 10, 1);
    note_dropped(&mut activity, 4);
    note_dropped(&mut activity, 5);
    assert_eq!(page_name(&activity), "watch");
    assert_eq!((activity.panes, activity.playing), (3, 2));
    assert_eq!(activity.dropped, 9);
    assert_eq!(activity.renders, 1);
}

#[test]
fn a_full_or_foreign_log_is_put_aside() {
    assert!(!rotates(false, &None, 0));
    assert!(!rotates(true, &Some(format!("{HEADER}\r\n")), 10));
    assert!(rotates(true, &Some("time,other".into()), 10));
    assert!(rotates(true, &None, 10));
    assert!(rotates(true, &Some(HEADER.to_string()), MAX_BYTES + 1));
    assert!(!rotates(false, &None, 10), "one that does not open is left");
    assert!(rotates(false, &None, MAX_BYTES + 1));
}

#[test]
fn a_thread_name_needs_no_quoting() {
    assert_eq!(thread_name(""), "(unnamed)");
    assert_eq!(thread_name("image-cache-7"), "image-cache");
    assert_eq!(thread_name("a/b\\c,d\"e"), "a-b-c-d-e");
}

#[test]
fn descendants_are_found_at_any_depth_and_once() {
    let list = vec![
        process(1, 0),
        process(10, 1),
        process(11, 10),
        process(12, 11),
        process(20, 2),
        process(11, 10),
        // A loop that nothing of ours is in, and one that comes back to us.
        process(30, 31),
        process(31, 30),
        process(1, 12),
    ];
    let mut found = descendants(&list, 1);
    found.sort_unstable();
    assert_eq!(found, vec![10, 11, 12]);
    assert!(descendants(&list, 99).is_empty());
}

#[test]
fn every_tick_is_charged_to_the_thread_that_used_it() {
    let mut sampler = Sampler::new(1_000, 5, 0);
    assert!(sampler.rescan_due());
    sampler.meet_thread(1, "main".into(), 100);
    sampler.meet_thread(2, "worker".into(), 50);
    sampler.meet_thread(3, "worker".into(), 0);
    sampler.meet_thread(1, "again".into(), 7);
    assert_eq!(sampler.threads.len(), 3);
    sampler.meet_child(77, 10);

    let reading = Reading {
        elapsed: TICKS,
        process: Some(1_000 + TICKS / 2),
        renders: 65,
        dropped: 3,
        threads: vec![Some(100 + TICKS / 10), Some(50 + TICKS / 5), Some(TICKS / 5)],
        kids: vec![Some(10 + TICKS / 4)],
    };
    let sample = sampler.sample(&reading);
    assert_eq!(sample.cpu, TICKS / 2);
    assert_eq!(sample.children, TICKS as u128 / 4);
    assert_eq!(sample.renders, 60);
    assert_eq!(sample.drops, 3);
    let names: Vec<&str> = sample.ranked.iter().map(|bucket| bucket.name.as_str()).collect();
    assert_eq!(names, ["worker", "main"]);
    let charged: u128 = sample.ranked.iter().map(|bucket| bucket.ticks).sum();
    assert_eq!(charged, TICKS as u128 / 2);
    assert!(!sampler.unaccounted);

    // The same reading again: nothing is charged twice, and what is gone is
    // forgotten.
    let again = Reading {
        threads: vec![Some(100 + TICKS / 10), None, Some(TICKS / 5)],
        kids: vec![None],
        ..reading
    };
    let sample = sampler.sample(&again);
    assert_eq!(sample.cpu, 0);
    assert_eq!(sampler.threads.len(), 2);
    assert!(sampler.kids.is_empty());
}

#[test]
fn a_row_has_a_cell_for_every_column() {
    let mut sampler = Sampler::new(0, 0, 0);
    sampler.meet_thread(1, "main".into(), 0);
    let reading = Reading {
        elapsed: 5 * TICKS,
        process: Some(TICKS),
        renders: 300,
        dropped: 0,
        threads: vec![Some(TICKS)],
        kids: Vec::new(),
    };
    let sample = sampler.sample(&reading);
    let mut activity = Activity::default();
    activity.active = true;
    note_frame(&mut activity, Page::Browse, 0, 0, 2, 1);
    note_render_size(&mut activity, 640, 360);
    let around = Surroundings {
        time: "2026-09-08 12:00:00".into(),
        uptime: 12 * TICKS,
        cores: 8,
        peak: 251,
        focused: true,
        visible: false,
        private_bytes: 3 << 20,
        working_set_bytes: 5 << 20,
        handles: 40,
    };
    let line = row(&sample, &mut activity, &around, 1);
    assert_eq!(line.split(',').count(), HEADER.split(',').count());
    assert_eq!(
        line,
        "2026-09-08 12:00:00,12,8,20.0,25.1,0.0,60.0,0,browse,0,0,-,640x360,true,false,3,5,1,40,2,1,\"main=20.0\""
    );
}

#[test]
fn the_worst_look_is_kept() {
    assert_eq!(peak_of(0, TICKS / 4, TICKS), 250);
    assert_eq!(peak_of(500, TICKS / 4, TICKS), 500);
    assert_eq!(peak_of(7, 1, 0), 7);
}

#[test]
fn a_round_without_time_counts_and_clears_the_mark() {
    let mut sampler = Sampler::new(3, 4, 5);
    assert!(sampler.rescan_due());
    sampler.unaccounted = true;
    sampler.pass();
    assert_eq!(sampler.tick, 1);
    assert!(!sampler.unaccounted);
    assert!(!sampler.rescan_due());
    assert_eq!((sampler.last_process, sampler.last_renders, sampler.last_dropped), (3, 4, 5));
    sampler.tick = u32::MAX;
    sampler.pass();
    assert_eq!(sampler.tick, 0);
}
