use perch::playlist::parse;
use perch::video::{
    hwdec_requested, pack_size, set_volume, source_size, unpack_size, RenderState, Report,
    SizeHandle,
};
use perch::span::Span;
use perch::vod::{Extent, Recording};

const BASE: &str = "https://cdn.test/v/x.m3u8";
const GROWING: &str = "#EXTM3U\n#EXT-X-TARGETDURATION:12\n#EXTINF:10.000,\n0.ts\n#EXTINF:10.000,\n1.ts\n";

#[test]
fn a_size_survives_packing() {
    for size in [(0, 0), (1, 2), (2560, 1440), (u32::MAX, u32::MAX), (u32::MAX, 0)] {
        assert_eq!(unpack_size(pack_size(size.0, size.1)), size);
    }
    assert_eq!(pack_size(1, 2), (1 << 32) | 2);
    assert_eq!(source_size(pack_size(640, 480)), Some((640, 480)));
    assert_eq!(source_size(0), None);
}

#[test]
fn a_requested_size_is_held_to_its_bounds() {
    let mut handle = SizeHandle { packed: 0 };
    handle.request(1, 1);
    assert_eq!(unpack_size(handle.packed), (160, 90));
    handle.request(9999, 9999);
    assert_eq!(unpack_size(handle.packed), (2560, 1440));
    handle.request(800, 600);
    assert_eq!(unpack_size(handle.packed), (800, 600));
}

#[test]
fn decoding_in_hardware_is_opt_out() {
    assert!(hwdec_requested(&None));
    assert!(!hwdec_requested(&Some("0".into())));
    assert_eq!(set_volume(30), 30);
    assert_eq!(set_volume(130), 100);
}

#[test]
fn nothing_is_scaled_up() {
    let mut state = RenderState::new(1920, 1080, 50);
    assert!(matches!(state.on_property("width", &Some("640".into())), Report::Nothing));
    assert!(matches!(state.on_property("height", &Some("360".into())), Report::Nothing));
    let turn = state.turn(pack_size(1920, 1080), false, 50);
    assert_eq!(turn.learned, Some((640, 360)));
    assert!(turn.size.0 <= 640 && turn.size.1 <= 360);
    assert_eq!(turn.volume, None);
    let again = state.turn(pack_size(1920, 1080), true, 40);
    assert_eq!(again.learned, None);
    assert_eq!(again.pause, Some(true));
    assert_eq!(again.volume, Some(40));
    let resumed = state.turn(pack_size(1920, 1080), false, 40);
    assert!(resumed.to_live, "going on starts from the live edge");
}

#[test]
fn dropped_frames_are_counted_from_the_last_report() {
    let mut state = RenderState::new(640, 360, 50);
    let count = |n: &str| Some(n.to_string());
    assert!(matches!(
        state.on_property("decoder-frame-drop-count", &count("7")),
        Report::Dropped(7)
    ));
    assert!(matches!(
        state.on_property("decoder-frame-drop-count", &count("9")),
        Report::Dropped(2)
    ));
    assert!(matches!(
        state.on_property("decoder-frame-drop-count", &count("1")),
        Report::Dropped(0)
    ));
    assert!(matches!(
        state.on_property("hwdec-current", &count("vaapi")),
        Report::Hwdec(name) if name == "vaapi"
    ));
}

fn span(thousandths: u128) -> Span {
    Span { negative: false, thousandths }
}

#[test]
fn a_recording_opens_in_the_segment_it_starts_in() {
    let list = parse(BASE, GROWING).unwrap();
    let extent = Extent::new(&list);
    assert_eq!((extent.length_ms, extent.growing), (20_000, true));
    let (mut recording, chunk) = Recording::open(list, "pane", 12_500);
    assert_eq!(chunk.within, 2_500);
    assert_eq!(recording.base, span(10_000));
    assert!(chunk.contents.contains("1.ts") && !chunk.contents.contains("/0.ts"));
    assert_eq!(recording.position(500), Some(span(10_500)));
    assert_eq!(recording.position(-500), Some(span(9_500)));

    let next = recording.reposition(0);
    assert_ne!(next.name, chunk.name, "no file name is used twice");
    recording.loads();
    assert_eq!(recording.position(500), None, "the old file's positions are not the new one's");
    assert!(!recording.now_playing(&chunk.name));
    assert!(recording.now_playing(&next.name));
    assert_eq!(recording.position(500), Some(span(500)));
}

#[test]
fn a_growing_recording_is_kept_up_with_until_it_ends() {
    let (mut recording, _) = Recording::open(parse(BASE, GROWING).unwrap(), "pane", 0);
    assert_eq!(recording.keeper_wait(), Some(12));
    assert_eq!(recording.grow(parse(BASE, GROWING).unwrap()), None);
    let more = format!("{GROWING}#EXTINF:8.000,\n2.ts\n#EXT-X-ENDLIST\n");
    let tail = recording.grow(parse(BASE, &more).unwrap()).unwrap();
    assert_eq!(tail, "#EXTINF:8.000,\nhttps://cdn.test/v/2.ts\n#EXT-X-ENDLIST\n");
    recording.grown();
    assert_eq!(recording.grow(parse(BASE, &more).unwrap()), None);
    assert_eq!(recording.keeper_wait(), None);
    assert!(!Extent::new(&recording.playlist).timeline().growing);
}

#[test]
fn the_player_is_told_how_to_read_a_playlist() {
    let options = Recording::mpv_options();
    assert_eq!(options[0], ("demuxer".to_string(), "lavf".to_string()));
    assert_eq!(
        options[1].1,
        "live_start_index=0,protocol_whitelist=%35%file,http,https,tcp,tls,crypto,data"
    );
}
