//! A record of where the CPU went, so that an intermittent spike can be read
//! afterwards instead of caught live.
//!
//! The numbers of threads and processes are the system's; what a sample makes
//! of them, and the row it writes, stand here. Times are in ticks of a hundred
//! nanoseconds.

use crate::text;
use crate::video;
use vstd::prelude::*;
use vstd::string::*;

verus! {

/// How many samples between two rescans for threads and children.
pub const RESCAN_EVERY: u32 = 12;

/// Rotate the file once past this many bytes.
pub const MAX_BYTES: u64 = 33_554_432;

/// Ticks in a second.
pub const TICKS: u64 = 10_000_000;

/// The columns.
pub const HEADER: &'static str =
    "time,uptime_s,cores,cpu_pct_1core,cpu_peak_pct_1core,child_pct,renders_per_s,drops,page,panes,playing,hwdec,render,focused,visible,priv_mb,ws_mb,threads,handles,cache_ready,cache_inflight,by_thread";

/// Which page is on screen.
#[derive(Debug, Clone, Copy, PartialEq, Eq, Structural)]
pub enum Page {
    Browse,
    Watch,
}

/// What the application was doing, published for the sampler.
#[derive(Debug, Clone, Copy, PartialEq, Eq)]
pub struct Activity {
    /// Whether the log is on.
    pub active: bool,
    pub page: Page,
    pub panes: u8,
    pub playing: u8,
    pub renders: u64,
    pub cache_ready: u64,
    pub cache_inflight: u64,
    /// Some stream decoded in software.
    pub software: bool,
    /// Some stream used the GPU.
    pub hardware: bool,
    /// The largest size that was rendered at, packed.
    pub render_size: u64,
    /// Frames dropped, over all streams.
    pub dropped: u64,
}

impl Default for Activity {
    fn default() -> (r: Activity)
        ensures
            r == (Activity {
                active: false,
                page: Page::Browse,
                panes: 0,
                playing: 0,
                renders: 0,
                cache_ready: 0,
                cache_inflight: 0,
                software: false,
                hardware: false,
                render_size: 0,
                dropped: 0,
            }),
    {
        Activity {
            active: false,
            page: Page::Browse,
            panes: 0,
            playing: 0,
            renders: 0,
            cache_ready: 0,
            cache_inflight: 0,
            software: false,
            hardware: false,
            render_size: 0,
            dropped: 0,
        }
    }
}

/// Whether the log is on.
pub fn active(activity: &Activity) -> (r: bool)
    ensures
        r == activity.active,
{
    activity.active
}

/// A count in one byte.
pub open spec fn in_a_byte(n: usize) -> u8 {
    if n <= 255 {
        n as u8
    } else {
        255
    }
}

fn byte_of(n: usize) -> (r: u8)
    ensures
        r == in_a_byte(n),
{
    if n <= 255 {
        n as u8
    } else {
        255
    }
}

/// A sum that wraps around, as a counter of 64 bits does.
pub open spec fn wrapped(a: u64, b: u64) -> u64 {
    ((a + b) % 0x1_0000_0000_0000_0000) as u64
}

fn wrap(a: u64, b: u64) -> (r: u64)
    ensures
        r == wrapped(a, b),
{
    let sum: u128 = (a as u128 + b as u128) % 0x1_0000_0000_0000_0000;
    sum as u64
}

/// A frame was drawn.
pub fn note_frame(
    activity: &mut Activity,
    page: Page,
    panes: usize,
    playing: usize,
    ready: usize,
    inflight: usize,
)
    ensures
        *final(activity) == (Activity {
            page,
            panes: in_a_byte(panes),
            playing: in_a_byte(playing),
            renders: wrapped(old(activity).renders, 1),
            cache_ready: ready as u64,
            cache_inflight: inflight as u64,
            ..*old(activity)
        }),
{
    activity.page = page;
    activity.panes = byte_of(panes);
    activity.playing = byte_of(playing);
    activity.renders = wrap(activity.renders, 1);
    activity.cache_ready = ready as u64;
    activity.cache_inflight = inflight as u64;
}

/// A stream's player says which decoder it settled on: none, where it names
/// nothing or says `no`. What one stream said is not forgotten when another
/// says something else.
pub fn note_hwdec(activity: &mut Activity, active: &str)
    ensures
        *final(activity) == (if active@.len() == 0 || active@ == "no"@ {
            Activity { software: true, ..*old(activity) }
        } else {
            Activity { hardware: true, ..*old(activity) }
        }),
{
    if active.is_empty() || text::same(active, "no") {
        activity.software = true;
    } else {
        activity.hardware = true;
    }
}

/// A stream rendered a frame at this size. The largest wins.
pub fn note_render_size(activity: &mut Activity, width: u32, height: u32)
    ensures
        *final(activity) == (Activity {
            render_size: if video::packed(width, height) > old(activity).render_size {
                video::packed(width, height)
            } else {
                old(activity).render_size
            },
            ..*old(activity)
        }),
{
    let packed: u64 = video::pack_size(width, height);
    if packed > activity.render_size {
        activity.render_size = packed;
    }
}

/// A stream dropped so many more frames. Added, since each stream counts for
/// itself.
pub fn note_dropped(activity: &mut Activity, since_last: u64)
    ensures
        *final(activity) == (Activity {
            dropped: wrapped(old(activity).dropped, since_last),
            ..*old(activity)
        }),
{
    activity.dropped = wrap(activity.dropped, since_last);
}

/// How the streams were decoded.
pub open spec fn decoded(software: bool, hardware: bool) -> Seq<char> {
    if software && hardware {
        "mixed"@
    } else if software {
        "software"@
    } else if hardware {
        "hardware"@
    } else {
        "-"@
    }
}

pub fn hwdec_name(activity: &Activity) -> (r: &'static str)
    ensures
        r@ == decoded(activity.software, activity.hardware),
{
    if activity.software && activity.hardware {
        "mixed"
    } else if activity.software {
        "software"
    } else if activity.hardware {
        "hardware"
    } else {
        "-"
    }
}

/// A packed size as it is written, or a dash where nothing was rendered.
pub open spec fn size_text(packed: u64) -> Seq<char> {
    if packed == 0 {
        "-"@
    } else {
        text::decimal((packed / 0x1_0000_0000) as nat) + "x"@ + text::decimal(
            (packed % 0x1_0000_0000) as nat,
        )
    }
}

/// The largest size that was rendered at since this was last asked.
pub fn render_size(activity: &mut Activity) -> (r: String)
    ensures
        r@ == size_text(old(activity).render_size),
        *final(activity) == (Activity { render_size: 0, ..*old(activity) }),
{
    let packed: u64 = activity.render_size;
    activity.render_size = 0;
    if packed == 0 {
        return "-".to_owned();
    }
    let (width, height) = video::unpack_size(packed);
    let mut out = String::new();
    text::push_decimal(&mut out, width as u64);
    out.append("x");
    text::push_decimal(&mut out, height as u64);
    assert(out@ =~= size_text(packed));
    out
}

pub open spec fn page_text(page: Page) -> Seq<char> {
    match page {
        Page::Watch => "watch"@,
        Page::Browse => "browse"@,
    }
}

pub fn page_name(activity: &Activity) -> (r: &'static str)
    ensures
        r@ == page_text(activity.page),
{
    match activity.page {
        Page::Watch => "watch",
        Page::Browse => "browse",
    }
}

// ── The file ─────────────────────────────────────────────────────────

/// Where the last part of a path begins.
pub open spec fn name_start(path: Seq<char>) -> int
    decreases path.len(),
{
    if path.len() == 0 {
        0
    } else if path.last() == '/' || path.last() == '\\' {
        path.len() as int
    } else {
        name_start(path.drop_last())
    }
}

/// Where the extension of a path begins, with its dot, or the end of a path
/// that has none: a name that only begins with a dot has none.
pub open spec fn stem_end(path: Seq<char>) -> int {
    let dot = text::last_place(path, '.');
    if dot > name_start(path) {
        dot
    } else {
        path.len() as int
    }
}

/// The rows go beside the application's own log, under its name with another
/// extension.
pub fn log_path(log: &str) -> (r: String)
    ensures
        r@ == log@.take(stem_end(log@)) + ".cpu.csv"@,
{
    let chars = text::chars_of(log);
    let n: usize = chars.len();
    let mut start: usize = n;
    assert(chars@.take(n as int) =~= chars@);
    while start > 0 && chars[start - 1] != '/' && chars[start - 1] != '\\'
        invariant
            start <= n,
            n == chars@.len(),
            name_start(chars@.take(start as int)) == name_start(chars@),
        decreases start,
    {
        assert(chars@.take(start as int).drop_last() =~= chars@.take(start - 1));
        start -= 1;
    }
    assert(name_start(chars@) == start) by {
        let t = chars@.take(start as int);
        if start > 0 {
            assert(t.last() == chars@[start - 1]);
        }
    }
    let end: usize = match text::last_place_of(chars.as_slice(), '.') {
        Some(dot) => if dot > start {
            dot
        } else {
            n
        },
        None => n,
    };
    let stem = vstd::slice::slice_subrange(chars.as_slice(), 0, end);
    assert(stem@ =~= log@.take(end as int));
    let mut out = text::string_of(stem);
    out.append(".cpu.csv");
    out
}

/// Whether the environment asks for the log.
pub open spec fn asked_for(value: Option<String>) -> bool {
    match value {
        Some(word) => word@ == "1"@ || word@ == "on"@ || word@ == "true"@,
        None => false,
    }
}

/// Where the rows go, if there are to be any: only where the platform has a
/// sampler, and where the environment asks for it.
pub fn start(sampler: bool, value: &Option<String>, log: &str) -> (r: Option<String>)
    ensures
        r is Some <==> sampler && asked_for(*value),
        r matches Some(path) ==> path@ == log@.take(stem_end(log@)) + ".cpu.csv"@,
{
    if !sampler {
        return None;
    }
    match value {
        Some(word) => if text::same(word.as_str(), "1") || text::same(word.as_str(), "on")
            || text::same(word.as_str(), "true") {
            Some(log_path(log))
        } else {
            None
        },
        None => None,
    }
}

/// Whether an existing file is set aside before rows are written: it opened and
/// its columns are not these or could not be read, or it has grown too large.
/// One that does not open is left, as is one that is not there; the length of
/// that is zero. `first` is the first line, where it could be read.
pub fn rotates(opened: bool, first: &Option<String>, bytes: u64) -> (r: bool)
    ensures
        r == (bytes > MAX_BYTES || (opened && match first {
            Some(line) => text::trim_end(line@) != HEADER@,
            None => true,
        })),
{
    if bytes > MAX_BYTES {
        return true;
    }
    if !opened {
        return false;
    }
    match first {
        Some(line) => {
            let chars = text::chars_of(line.as_str());
            !text::spells(text::without_trailing_space(chars.as_slice()), HEADER)
        },
        None => true,
    }
}

/// A thread's name, folded to a subsystem: pools are one, and what would need
/// quoting is a dash.
pub open spec fn folded(name: Seq<char>) -> Seq<char> {
    if name.len() == 0 {
        "(unnamed)"@
    } else if text::begins(name, "image-cache-"@) {
        "image-cache"@
    } else {
        Seq::new(
            name.len(),
            |i: int|
                if name[i] == '/' || name[i] == '\\' || name[i] == ',' || name[i] == '"' {
                    '-'
                } else {
                    name[i]
                },
        )
    }
}

pub fn thread_name(name: &str) -> (r: String)
    ensures
        r@ == folded(name@),
{
    let chars = text::chars_of(name);
    if chars.len() == 0 {
        return "(unnamed)".to_owned();
    }
    let pool = text::chars_of("image-cache-");
    if text::begins_with(chars.as_slice(), pool.as_slice()) {
        return "image-cache".to_owned();
    }
    let mut out = String::new();
    let mut i: usize = 0;
    while i < chars.len()
        invariant
            i <= chars@.len(),
            chars@ == name@,
            name@.len() > 0,
            !text::begins(name@, "image-cache-"@),
            out@ == folded(name@).take(i as int),
        decreases chars.len() - i,
    {
        let c = chars[i];
        if c == '/' || c == '\\' || c == ',' || c == '"' {
            out.push('-');
        } else {
            out.push(c);
        }
        i += 1;
        assert(out@ =~= folded(name@).take(i as int));
    }
    assert(out@ =~= folded(name@));
    out
}

/// No thread's name breaks the row it is written into: none holds a comma or a
/// quote.
pub proof fn law_a_name_needs_no_quoting(name: Seq<char>)
    ensures
        !folded(name).contains(','),
        !folded(name).contains('"'),
{
    reveal_strlit("(unnamed)");
    reveal_strlit("image-cache");
}

/// The rows go beside the log: the same folder and the same name, with another
/// extension.
pub proof fn law_the_rows_go_beside_the_log(folder: Seq<char>, stem: Seq<char>, extension: Seq<char>)
    requires
        stem.len() > 0,
        !stem.contains('/') && !stem.contains('\\'),
        !extension.contains('/') && !extension.contains('\\') && !extension.contains('.'),
    ensures
        ({
            let log = folder + seq!['/'] + stem + seq!['.'] + extension;
            log.take(stem_end(log)) == folder + seq!['/'] + stem
        }),
{
    let log = folder + seq!['/'] + stem + seq!['.'] + extension;
    let front = folder + seq!['/'] + stem;
    let dot = front.len() as int;
    assert(log[dot] == '.');
    text::lemma_last_place(log, '.');
    let last = text::last_place(log, '.');
    if last > dot {
        assert(extension[last - dot - 1] == '.');
        assert(extension.contains('.'));
    }
    assert(last == dot);
    lemma_name_start(log, folder.len() as int);
    assert(log.take(dot) =~= front);
}

proof fn lemma_name_start(path: Seq<char>, slash: int)
    requires
        0 <= slash < path.len(),
        path[slash] == '/',
        forall|k: int| slash < k < path.len() ==> path[k] != '/' && path[k] != '\\',
    ensures
        name_start(path) == slash + 1,
    decreases path.len(),
{
    if slash < path.len() - 1 {
        lemma_name_start(path.drop_last(), slash);
    }
}

/// How streams were decoded is told by what any of them said, and a size by its
/// two sides.
pub proof fn law_a_row_tells_how_and_how_large(software: bool, hardware: bool, width: u32, height: u32)
    ensures
        decoded(software, hardware) == "-"@ <==> !software && !hardware,
        decoded(software, hardware) == "mixed"@ <==> software && hardware,
        decoded(software, hardware) == "software"@ <==> software && !hardware,
        decoded(software, hardware) == "hardware"@ <==> !software && hardware,
        width > 0 || height > 0 ==> size_text(video::packed(width, height)) == text::decimal(
            width as nat,
        ) + "x"@ + text::decimal(height as nat),
        size_text(0) == "-"@,
{
    reveal_strlit("-");
    reveal_strlit("mixed");
    reveal_strlit("software");
    reveal_strlit("hardware");
    assert("software"@[0] == 's' && "hardware"@[0] == 'h');
    assert("-"@.len() == 1 && "mixed"@.len() == 5 && "software"@.len() == 8 && "hardware"@.len()
        == 8);
}

/// A counter goes on until it has to wrap, and a byte holds as much as it can.
pub proof fn law_counters_go_on(a: u64, b: u64, n: usize)
    ensures
        a + b <= u64::MAX ==> wrapped(a, b) == a + b,
        a + b > u64::MAX ==> wrapped(a, b) == a + b - 0x1_0000_0000_0000_0000,
        n <= 255 ==> in_a_byte(n) == n,
        n > 255 ==> in_a_byte(n) == 255,
{
}

/// The threads of the image cache are one, and any other keeps its name but for
/// what a row cannot hold.
pub proof fn law_a_thread_keeps_its_name(name: Seq<char>, number: Seq<char>, i: int)
    requires
        0 <= i < name.len(),
    ensures
        folded("image-cache-"@ + number) == "image-cache"@,
        !text::begins(name, "image-cache-"@) ==> folded(name).len() == name.len() && (name[i] != '/'
            && name[i] != '\\' && name[i] != ',' && name[i] != '"' ==> folded(name)[i] == name[i]),
        folded(Seq::empty()) == "(unnamed)"@,
{
    reveal_strlit("image-cache-");
    let pool = "image-cache-"@ + number;
    assert(pool.take("image-cache-"@.len() as int) =~= "image-cache-"@);
}

/// The log is kept only where one of three words asks for it.
pub proof fn law_only_a_word_for_yes_asks_for_the_log(value: Option<String>)
    ensures
        asked_for(value) ==> value is Some,
        value matches Some(word) ==> (asked_for(value) <==> seq!["1"@, "on"@, "true"@].contains(
            word@,
        )),
{
    let all = seq!["1"@, "on"@, "true"@];
    assert(all[0] == "1"@ && all[1] == "on"@ && all[2] == "true"@);
}

/// The two pages are told apart by their own names.
pub proof fn law_a_page_goes_by_its_name(page: Page)
    ensures
        page is Watch ==> page_text(page) == "watch"@,
        page is Browse ==> page_text(page) == "browse"@,
{
}

} // verus!
