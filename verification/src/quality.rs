//! Choosing which quality to pull for a given pane size.
//!
//! The cost of one rendered frame depends far more on the ratio between source
//! and pane than on the number of pixels: an arbitrary downscale costs more
//! than rendering at native size, and scaling up costs the most. So the rule
//! is to prefer clean ratios and never to scale up.

use crate::text;
use vstd::prelude::*;
use vstd::slice::*;

verus! {

/// One entry from streamlink's quality list.
#[derive(Debug, Clone, PartialEq, Eq)]
pub struct Quality {
    /// The name to hand back to streamlink, e.g. `"720p60"`.
    pub name: String,
    /// Vertical resolution, e.g. 720.
    pub height: u32,
    /// Frames per second where the name says so, else 30.
    pub fps: u32,
}

/// A [`Quality`] with its name as a sequence.
pub struct QualityView {
    pub name: Seq<char>,
    pub height: u32,
    pub fps: u32,
}

impl View for Quality {
    type V = QualityView;

    open spec fn view(&self) -> QualityView {
        QualityView { name: self.name@, height: self.height, fps: self.fps }
    }
}

/// The quality that a name writes: a height, a `p`, and a frame rate or
/// nothing.
pub open spec fn named(name: Seq<char>) -> Option<QualityView> {
    let rest = text::tail(name, 'p');
    if !name.contains('p') {
        None
    } else {
        match (
            text::unsigned(text::head(name, 'p'), u32::MAX as nat),
            if rest.len() == 0 {
                Some(30nat)
            } else {
                text::unsigned(rest, u32::MAX as nat)
            },
        ) {
            (Some(height), Some(fps)) => Some(
                QualityView { name, height: height as u32, fps: fps as u32 },
            ),
            _ => None,
        }
    }
}

/// What a result says, with its name as a sequence.
pub open spec fn seen(q: Option<Quality>) -> Option<QualityView> {
    match q {
        Some(q) => Some(q@),
        None => None,
    }
}

/// Parse a streamlink quality name. `None` for `audio_only`, `best`, `worst`
/// and anything else without a resolution.
pub fn parse_quality(name: &str) -> (r: Option<Quality>)
    ensures
        seen(r) == named(name@),
{
    let chars = text::chars_of(name);
    let s = chars.as_slice();
    if !text::holds(s, 'p') {
        return None;
    }
    let rest = text::behind(s, 'p');
    let height: u64 = match text::unsigned_of(text::before(s, 'p'), 0xFFFF_FFFF) {
        Some(height) => height,
        None => {
            return None;
        },
    };
    let fps: u64 = if rest.len() == 0 {
        30
    } else {
        match text::unsigned_of(rest, 0xFFFF_FFFF) {
            Some(fps) => fps,
            None => {
                return None;
            },
        }
    };
    Some(Quality { name: name.to_owned(), height: height as u32, fps: fps as u32 })
}

/// What scaling up costs before it is asked by how much: more than any height
/// that a source can have.
pub const UPSCALE: u64 = 0x1_0000_0000;

/// What showing a source in a pane costs; lower is better. To scale up costs
/// more than to scale down ever can. A pane with no height has no ratio to
/// prefer, and the smallest source wins there.
pub open spec fn cost_of(source: int, pane: int) -> int {
    if pane == 0 {
        1000 + source
    } else if source < pane {
        UPSCALE + (pane - source)
    } else if source == pane {
        1
    } else if source % pane == 0 {
        2
    } else {
        100 + (source - pane) / 100
    }
}

/// Lower is better. Counted wide, so that no height is too tall for it.
pub fn cost(source_height: u32, pane_height: u32) -> (r: u64)
    ensures
        r == cost_of(source_height as int, pane_height as int),
{
    let source: u64 = source_height as u64;
    let pane: u64 = pane_height as u64;
    if pane == 0 {
        return 1000 + source;
    }
    if source < pane {
        return UPSCALE + (pane - source);
    }
    if source == pane {
        return 1;
    }
    if source % pane == 0 {
        return 2;
    }
    100 + (source - pane) / 100
}

/// Whether `q` is one of the qualities that the names in `available` write.
pub open spec fn offers(available: Seq<Seq<char>>, q: QualityView) -> bool {
    exists|i: int| 0 <= i < available.len() && named(#[trigger] available[i]) == Some(q)
}

/// Whether any name in `available` writes a resolution.
pub open spec fn offers_any(available: Seq<Seq<char>>) -> bool {
    exists|i: int| 0 <= i < available.len() && named(#[trigger] available[i]) is Some
}

/// Whether `a` comes before `b` for a pane: by cost, then by the higher frame
/// rate, then by name.
pub open spec fn better(a: QualityView, b: QualityView, pane: int) -> bool {
    let x = cost_of(a.height as int, pane);
    let y = cost_of(b.height as int, pane);
    x < y || (x == y && (a.fps > b.fps || (a.fps == b.fps && text::precedes(a.name, b.name))))
}

/// Whether `q` is the best quality on offer for a pane.
pub open spec fn best_for(available: Seq<Seq<char>>, pane: int, q: QualityView) -> bool {
    &&& offers(available, q)
    &&& forall|c: QualityView| #[trigger] offers(available, c) ==> !better(c, q, pane)
}

/// What [`select`] answers.
pub open spec fn selected(available: Seq<Seq<char>>, pane: int, r: Option<QualityView>) -> bool {
    match r {
        Some(q) => best_for(available, pane, q),
        None => !offers_any(available),
    }
}

fn is_better(a: &Quality, b: &Quality, pane_height: u32) -> (r: bool)
    ensures
        r == better(a@, b@, pane_height as int),
{
    let x: u64 = cost(a.height, pane_height);
    let y: u64 = cost(b.height, pane_height);
    x < y || (x == y && (a.fps > b.fps || (a.fps == b.fps && text::text_precedes(
        a.name.as_str(),
        b.name.as_str(),
    ))))
}

/// `better` compares three numbers and names in turn, so it chains.
proof fn lemma_better_chains(a: QualityView, b: QualityView, c: QualityView, pane: int)
    requires
        better(a, b, pane),
        !better(c, b, pane),
    ensures
        !better(c, a, pane),
{
    if better(c, a, pane) && a.fps == b.fps && a.fps == c.fps {
        if cost_of(a.height as int, pane) == cost_of(b.height as int, pane) && cost_of(
            c.height as int,
            pane,
        ) == cost_of(a.height as int, pane) {
            lemma_precedes_chains(c.name, a.name, b.name);
        }
    }
}

proof fn lemma_precedes_chains(a: Seq<char>, b: Seq<char>, c: Seq<char>)
    requires
        text::precedes(a, b),
        text::precedes(b, c),
    ensures
        text::precedes(a, c),
    decreases a.len(),
{
    if a.len() > 0 && b.len() > 0 && c.len() > 0 && a[0] == b[0] && b[0] == c[0] {
        lemma_precedes_chains(a.drop_first(), b.drop_first(), c.drop_first());
    }
}

proof fn lemma_precedes_not_itself(a: Seq<char>)
    ensures
        !text::precedes(a, a),
    decreases a.len(),
{
    if a.len() > 0 {
        lemma_precedes_not_itself(a.drop_first());
    }
}

proof fn lemma_codes_differ(a: char, b: char)
    requires
        a != b,
    ensures
        a as u32 != b as u32,
{
}

proof fn lemma_precedes_decides(a: Seq<char>, b: Seq<char>)
    requires
        !text::precedes(a, b),
        !text::precedes(b, a),
    ensures
        a == b,
    decreases a.len(),
{
    if a.len() == 0 || b.len() == 0 {
        assert(a =~= b);
    } else {
        if a[0] != b[0] {
            lemma_codes_differ(a[0], b[0]);
        }
        lemma_precedes_decides(a.drop_first(), b.drop_first());
        assert(a =~= seq![a[0]] + a.drop_first());
        assert(b =~= seq![b[0]] + b.drop_first());
    }
}

/// Pick the quality to request for a pane `pane_height` pixels tall. `None`
/// only when the list holds no resolution at all.
pub fn select(available: &[String], pane_height: u32) -> (r: Option<Quality>)
    ensures
        selected(text::texts(available@), pane_height as int, seen(r)),
{
    let ghost all = text::texts(available@);
    let mut best: Option<Quality> = None;
    let mut i: usize = 0;
    while i < available.len()
        invariant
            all == text::texts(available@),
            i <= available@.len(),
            selected(all.take(i as int), pane_height as int, seen(best)),
        decreases available.len() - i,
    {
        let candidate = parse_quality(available[i].as_str());
        let ghost before = all.take(i as int);
        let ghost now = all.take(i + 1);
        let ghost held = seen(best);
        proof {
            assert(now[i as int] == available@[i as int]@);
            assert forall|c: QualityView| #[trigger] offers(now, c) implies offers(before, c)
                || named(now[i as int]) == Some(c) by {
                let k = choose|k: int| 0 <= k < now.len() && named(#[trigger] now[k]) == Some(c);
                if k < i {
                    assert(before[k] == now[k]);
                }
            }
            assert forall|c: QualityView| #[trigger] offers(before, c) implies offers(now, c) by {
                let k = choose|k: int|
                    0 <= k < before.len() && named(#[trigger] before[k]) == Some(c);
                assert(now[k] == before[k]);
            }
            if offers_any(now) && !offers_any(before) {
                let k = choose|k: int| 0 <= k < now.len() && named(#[trigger] now[k]) is Some;
                if k < i {
                    assert(before[k] == now[k]);
                }
            }
        }
        match candidate {
            Some(q) => {
                let take = match &best {
                    Some(b) => is_better(&q, b, pane_height),
                    None => true,
                };
                proof {
                    lemma_precedes_not_itself(q.name@);
                    assert(offers(now, q@));
                }
                if take {
                    proof {
                        if held is Some {
                            assert forall|c: QualityView| #[trigger]
                                offers(now, c) implies !better(c, q@, pane_height as int) by {
                                if offers(before, c) {
                                    lemma_better_chains(
                                        q@,
                                        held->Some_0,
                                        c,
                                        pane_height as int,
                                    );
                                }
                            }
                        } else {
                            assert forall|c: QualityView| #[trigger]
                                offers(now, c) implies !better(c, q@, pane_height as int) by {
                                if offers(before, c) {
                                    let k = choose|k: int|
                                        0 <= k < before.len() && named(#[trigger] before[k])
                                            == Some(c);
                                    assert(offers_any(before));
                                }
                            }
                        }
                    }
                    best = Some(q);
                }
            },
            None => {},
        }
        i += 1;
    }
    assert(all.take(i as int) =~= all);
    best
}

// ── Preferences ──────────────────────────────────────────────────────

/// Which of two qualities is the taller, or the smoother at one height.
pub open spec fn taller(a: QualityView, b: QualityView) -> bool {
    a.height > b.height || (a.height == b.height && a.fps > b.fps)
}

/// Whether `i` is the last of the tallest and smoothest qualities on offer.
pub open spec fn tallest_at(available: Seq<Seq<char>>, i: int) -> bool {
    &&& 0 <= i < available.len()
    &&& named(available[i]) is Some
    &&& forall|j: int|
        0 <= j < available.len() && named(#[trigger] available[j]) is Some ==> {
            &&& !taller(named(available[j])->Some_0, named(available[i])->Some_0)
            &&& j > i ==> taller(named(available[i])->Some_0, named(available[j])->Some_0)
        }
}

/// Whether `q` is the last of the tallest and smoothest qualities on offer.
pub open spec fn tallest(available: Seq<Seq<char>>, q: QualityView) -> bool {
    exists|i: int| #[trigger] tallest_at(available, i) && named(available[i]) == Some(q)
}

/// Whether a quality of this height is on offer.
pub open spec fn offers_height(available: Seq<Seq<char>>, height: u32) -> bool {
    exists|i: int|
        0 <= i < available.len() && named(#[trigger] available[i]) is Some && named(
            available[i],
        )->Some_0.height == height
}

/// Whether `i` is the last of the smoothest qualities of a height.
pub open spec fn smoothest_at(available: Seq<Seq<char>>, height: u32, i: int) -> bool {
    &&& 0 <= i < available.len()
    &&& named(available[i]) is Some
    &&& named(available[i])->Some_0.height == height
    &&& forall|j: int|
        0 <= j < available.len() && named(#[trigger] available[j]) is Some && named(
            available[j],
        )->Some_0.height == height ==> {
            &&& named(available[j])->Some_0.fps <= named(available[i])->Some_0.fps
            &&& j > i ==> named(available[j])->Some_0.fps < named(available[i])->Some_0.fps
        }
}

/// Whether `q` is the last of the smoothest qualities of a height.
pub open spec fn smoothest(available: Seq<Seq<char>>, height: u32, q: QualityView) -> bool {
    exists|i: int|
        #[trigger] smoothest_at(available, height, i) && named(available[i]) == Some(q)
}

/// What [`select_named`] answers. `auto` and nothing at all leave the choice to
/// the pane; `best` and `source` take the tallest; a name that does not end in
/// `p` is taken literally where it is offered; and otherwise the preference is
/// a height, at its best frame rate. A height that is not offered today falls
/// back to the choice for the pane.
pub open spec fn preferred(
    available: Seq<Seq<char>>,
    preference: Seq<char>,
    pane: int,
    r: Option<QualityView>,
) -> bool {
    let p = text::trim(preference);
    let word = text::lower_text(p);
    if word == "auto"@ || p.len() == 0 {
        selected(available, pane, r)
    } else if !offers_any(available) {
        r is None
    } else if word == "best"@ || word == "source"@ {
        r is Some && tallest(available, r->Some_0)
    } else if p.last() != 'p' && available.contains(p) && named(p) is Some {
        r == named(p)
    } else if named(p) is Some && offers_height(available, named(p)->Some_0.height) {
        r is Some && smoothest(available, named(p)->Some_0.height, r->Some_0)
    } else {
        selected(available, pane, r)
    }
}

fn any_offered(available: &[String]) -> (r: bool)
    ensures
        r == offers_any(text::texts(available@)),
{
    let ghost all = text::texts(available@);
    let mut i: usize = 0;
    while i < available.len()
        invariant
            all == text::texts(available@),
            i <= available@.len(),
            forall|k: int| 0 <= k < i ==> named(#[trigger] all[k]) is None,
        decreases available.len() - i,
    {
        let candidate = parse_quality(available[i].as_str());
        assert(all[i as int] == available@[i as int]@);
        if candidate.is_some() {
            assert(named(all[i as int]) is Some);
            return true;
        }
        i += 1;
    }
    false
}

fn is_taller(a: &Quality, b: &Quality) -> (r: bool)
    ensures
        r == taller(a@, b@),
{
    a.height > b.height || (a.height == b.height && a.fps > b.fps)
}

fn take_tallest(available: &[String]) -> (r: Option<Quality>)
    ensures
        (match seen(r) {
            Some(q) => tallest(text::texts(available@), q),
            None => !offers_any(text::texts(available@)),
        }),
{
    let ghost all = text::texts(available@);
    let mut best: Option<Quality> = None;
    let mut i: usize = 0;
    let ghost mut at: int = 0;
    while i < available.len()
        invariant
            all == text::texts(available@),
            i <= available@.len(),
            (match seen(best) {
                Some(q) => tallest_at(all.take(i as int), at) && named(all[at]) == Some(q),
                None => forall|k: int| 0 <= k < i ==> named(#[trigger] all[k]) is None,
            }),
        decreases available.len() - i,
    {
        let candidate = parse_quality(available[i].as_str());
        let ghost now = all.take(i + 1);
        let ghost before = all.take(i as int);
        proof {
            assert(all[i as int] == available@[i as int]@);
            assert forall|k: int| 0 <= k < i implies #[trigger] now[k] == before[k] by {}
        }
        match candidate {
            Some(q) => {
                let keep = match &best {
                    Some(b) => is_taller(b, &q),
                    None => false,
                };
                if !keep {
                    best = Some(q);
                    proof {
                        assert(now[i as int] == all[i as int]);
                        assert(tallest_at(now, i as int)) by {
                            assert forall|j: int|
                                0 <= j < now.len() && named(#[trigger] now[j]) is Some implies !taller(
                                named(now[j])->Some_0,
                                named(now[i as int])->Some_0,
                            ) by {
                                if j < i {
                                    assert(named(before[j]) is Some);
                                }
                            }
                        }
                        at = i as int;
                    }
                } else {
                    proof {
                        assert(tallest_at(now, at)) by {
                            assert(now[at] == before[at]);
                            assert forall|j: int|
                                0 <= j < now.len() && named(#[trigger] now[j]) is Some implies {
                                &&& !taller(named(now[j])->Some_0, named(now[at])->Some_0)
                                &&& j > at ==> taller(
                                    named(now[at])->Some_0,
                                    named(now[j])->Some_0,
                                )
                            } by {
                                if j < i {
                                    assert(named(before[j]) is Some);
                                }
                            }
                        }
                    }
                }
            },
            None => {
                proof {
                    if best is Some {
                        assert(tallest_at(now, at)) by {
                            assert(now[at] == before[at]);
                            assert forall|j: int|
                                0 <= j < now.len() && named(#[trigger] now[j]) is Some implies {
                                &&& !taller(named(now[j])->Some_0, named(now[at])->Some_0)
                                &&& j > at ==> taller(
                                    named(now[at])->Some_0,
                                    named(now[j])->Some_0,
                                )
                            } by {
                                if j < i {
                                    assert(named(before[j]) is Some);
                                }
                            }
                        }
                    }
                }
            },
        }
        i += 1;
    }
    assert(all.take(i as int) =~= all);
    best
}

fn take_smoothest(available: &[String], height: u32) -> (r: Option<Quality>)
    ensures
        (match seen(r) {
            Some(q) => smoothest(text::texts(available@), height, q),
            None => !offers_height(text::texts(available@), height),
        }),
{
    let ghost all = text::texts(available@);
    let mut best: Option<Quality> = None;
    let mut i: usize = 0;
    let ghost mut at: int = 0;
    while i < available.len()
        invariant
            all == text::texts(available@),
            i <= available@.len(),
            (match seen(best) {
                Some(q) => smoothest_at(all.take(i as int), height, at) && named(all[at]) == Some(
                    q,
                ),
                None => forall|k: int|
                    0 <= k < i && named(#[trigger] all[k]) is Some ==> named(all[k])->Some_0.height
                        != height,
            }),
        decreases available.len() - i,
    {
        let candidate = parse_quality(available[i].as_str());
        let ghost now = all.take(i + 1);
        let ghost before = all.take(i as int);
        let ghost held = best;
        proof {
            assert(all[i as int] == available@[i as int]@);
            assert(now[i as int] == all[i as int]);
            assert forall|k: int| 0 <= k < i implies #[trigger] now[k] == before[k] by {}
        }
        match candidate {
            Some(q) => {
                let keep = match &best {
                    Some(b) => b.fps > q.fps,
                    None => false,
                };
                if q.height == height && !keep {
                    best = Some(q);
                    proof {
                        assert(smoothest_at(now, height, i as int)) by {
                            assert forall|j: int|
                                0 <= j < now.len() && named(#[trigger] now[j]) is Some && named(
                                    now[j],
                                )->Some_0.height == height implies named(now[j])->Some_0.fps
                                <= named(now[i as int])->Some_0.fps by {
                                if j < i {
                                    assert(named(before[j]) is Some);
                                }
                            }
                        }
                        at = i as int;
                    }
                }
            },
            None => {},
        }
        proof {
            if best is Some && at < i {
                assert(smoothest_at(now, height, at)) by {
                    assert(now[at] == before[at]);
                    assert forall|j: int|
                        0 <= j < now.len() && named(#[trigger] now[j]) is Some && named(
                            now[j],
                        )->Some_0.height == height implies {
                        &&& named(now[j])->Some_0.fps <= named(now[at])->Some_0.fps
                        &&& j > at ==> named(now[j])->Some_0.fps < named(now[at])->Some_0.fps
                    } by {
                        if j < i {
                            assert(named(before[j]) is Some);
                        }
                    }
                }
            }
        }
        i += 1;
    }
    assert(all.take(i as int) =~= all);
    best
}

/// A saved quality preference, resolved against what a channel actually
/// offers. Preferences are heights rather than exact names, because names vary
/// per channel and per encoder.
pub fn select_named(available: &[String], preference: &str, pane_height: u32) -> (r: Option<Quality>)
    ensures
        preferred(text::texts(available@), preference@, pane_height as int, seen(r)),
{
    let chars = text::chars_of(preference);
    let p = text::trimmed(chars.as_slice());
    let word = text::lowered_chars(p);
    if text::spells(word.as_slice(), "auto") || p.len() == 0 {
        return select(available, pane_height);
    }
    if !any_offered(available) {
        return None;
    }
    if text::spells(word.as_slice(), "best") || text::spells(word.as_slice(), "source") {
        return take_tallest(available);
    }
    let literal = text::string_of(p);
    let wanted = parse_quality(literal.as_str());
    if p[p.len() - 1] != 'p' && text::listed(available, literal.as_str()) && wanted.is_some() {
        return wanted;
    }
    match wanted {
        Some(wanted) => match take_smoothest(available, wanted.height) {
            Some(best) => Some(best),
            None => select(available, pane_height),
        },
        None => select(available, pane_height),
    }
}

// ── Laws ─────────────────────────────────────────────────────────────

/// The choice for a pane is one: two qualities that are both the best on offer
/// are the same quality.
pub proof fn law_the_best_is_one(
    available: Seq<Seq<char>>,
    pane: int,
    a: QualityView,
    b: QualityView,
)
    requires
        best_for(available, pane, a),
        best_for(available, pane, b),
    ensures
        a == b,
{
    assert(!better(a, b, pane) && !better(b, a, pane));
    lemma_precedes_decides(a.name, b.name);
    let i = choose|i: int| 0 <= i < available.len() && named(#[trigger] available[i]) == Some(a);
    let j = choose|j: int| 0 <= j < available.len() && named(#[trigger] available[j]) == Some(b);
    assert(available[i] == a.name && available[j] == b.name);
}

/// A source of the pane's own height is taken where there is one, and else an
/// exact multiple of it; and no source is scaled up while one that would not
/// have to be is on offer.
pub proof fn law_clean_ratios_come_first(
    available: Seq<Seq<char>>,
    pane: int,
    q: QualityView,
    other: QualityView,
)
    requires
        pane > 0,
        best_for(available, pane, q),
        offers(available, other),
    ensures
        other.height == pane ==> q.height == pane,
        other.height > pane && other.height as int % pane == 0 ==> q.height >= pane
            && q.height as int % pane == 0,
        other.height >= pane ==> q.height >= pane,
{
    assert(!better(other, q, pane));
    if q.height >= pane && q.height as int % pane != 0 {
        assert(q.height != pane) by {
            assert(pane % pane == 0) by (nonlinear_arith)
                requires
                    pane > 0,
            ;
        }
        assert(cost_of(q.height as int, pane) >= 100);
    }
    if other.height == pane && q.height != pane {
        assert(cost_of(other.height as int, pane) == 1);
        assert(cost_of(q.height as int, pane) >= 2);
    }
}

/// Where every source is shorter than the pane, the tallest is taken.
pub proof fn law_the_tallest_fills_a_taller_pane(
    available: Seq<Seq<char>>,
    pane: int,
    q: QualityView,
    other: QualityView,
)
    requires
        best_for(available, pane, q),
        offers(available, other),
        forall|c: QualityView| #[trigger] offers(available, c) ==> c.height < pane,
    ensures
        other.height <= q.height,
{
    assert(!better(other, q, pane));
    assert(q.height < pane && other.height < pane);
}

/// A pane with no height yet gets the shortest source.
pub proof fn law_no_pane_gets_the_shortest(
    available: Seq<Seq<char>>,
    q: QualityView,
    other: QualityView,
)
    requires
        best_for(available, 0, q),
        offers(available, other),
    ensures
        q.height <= other.height,
{
    assert(!better(other, q, 0));
}

/// A preference is answered whenever any resolution is on offer, and with one
/// that is on offer.
pub proof fn law_a_preference_never_fails(
    available: Seq<Seq<char>>,
    preference: Seq<char>,
    pane: int,
    r: Option<QualityView>,
)
    requires
        preferred(available, preference, pane, r),
    ensures
        r is Some <==> offers_any(available),
        r is Some ==> offers(available, r->Some_0),
{
    let p = text::trim(preference);
    let word = text::lower_text(p);
    if let Some(q) = r {
        if word == "auto"@ || p.len() == 0 {
        } else if word == "best"@ || word == "source"@ {
        } else if p.last() != 'p' && available.contains(p) && named(p) is Some {
            let i = choose|i: int| 0 <= i < available.len() && available[i] == p;
            assert(named(available[i]) == Some(q));
        }
        assert(offers(available, q));
        let i = choose|i: int|
            0 <= i < available.len() && named(#[trigger] available[i]) == Some(q);
        assert(named(available[i]) is Some);
    }
}

/// Where no source has the pane's height or an exact multiple of it, the one
/// that is scaled down the least is taken, to within a step of a hundred
/// pixels.
pub proof fn law_the_least_scaled_down_is_taken(
    available: Seq<Seq<char>>,
    pane: int,
    q: QualityView,
    other: QualityView,
)
    requires
        pane > 0,
        best_for(available, pane, q),
        q.height > pane,
        q.height as int % pane != 0,
        offers(available, other),
        other.height > pane,
    ensures
        (q.height - pane) / 100 <= (other.height - pane) / 100,
        other.height as int % pane != 0,
{
    assert(!better(other, q, pane));
}

/// Of two sources of one height the smoother is taken, and of two that are as
/// smooth the one whose name comes first.
pub proof fn law_the_smoother_is_taken(
    available: Seq<Seq<char>>,
    pane: int,
    q: QualityView,
    other: QualityView,
)
    requires
        best_for(available, pane, q),
        offers(available, other),
        other.height == q.height,
    ensures
        other.fps <= q.fps,
        other.fps == q.fps ==> other.name == q.name || text::precedes(q.name, other.name),
{
    assert(!better(other, q, pane));
    if other.fps == q.fps && other.name != q.name && !text::precedes(q.name, other.name) {
        lemma_precedes_decides(q.name, other.name);
    }
}

/// A choice is always one of the names on offer, and there is one exactly where
/// some name writes a resolution.
pub proof fn law_a_choice_is_on_offer(
    available: Seq<Seq<char>>,
    pane: int,
    r: Option<QualityView>,
)
    requires
        selected(available, pane, r),
    ensures
        r is Some <==> exists|i: int|
            0 <= i < available.len() && named(#[trigger] available[i]) is Some,
        r is Some ==> available.contains(r->0.name) && named(r->0.name) == r,
{
    if r is Some {
        let i = choose|i: int| 0 <= i < available.len() && named(#[trigger] available[i]) == r;
        assert(available[i] == r->0.name);
    }
}

/// A name says its height and its frame rate, which is thirty where it says
/// none; and what has no `p` in it is no resolution.
pub proof fn law_a_name_says_its_height(height: u32, fps: u32, word: Seq<char>)
    ensures
        ({
            let name = text::decimal(height as nat) + "p"@;
            named(name) == Some(QualityView { name, height, fps: 30 })
        }),
        ({
            let name = text::decimal(height as nat) + "p"@ + text::decimal(fps as nat);
            named(name) == Some(QualityView { name, height, fps })
        }),
        !word.contains('p') ==> named(word) is None,
{
    reveal_strlit("p");
    let h = text::decimal(height as nat);
    let f = text::decimal(fps as nat);
    crate::rewritten::lemma_decimal(height as nat);
    crate::rewritten::lemma_decimal(fps as nat);
    assert(text::is_digit(h[0]) && text::is_digit(f[0]));
    let plain = h + "p"@;
    let full = h + "p"@ + f;
    assert forall|k: int| 0 <= k < h.len() implies plain[k] != 'p' && full[k] != 'p' by {
        assert(text::is_digit(h[k]));
    }
    assert(plain[h.len() as int] == 'p' && full[h.len() as int] == 'p');
    text::lemma_first_is(plain, 'p', h.len() as int);
    text::lemma_first_is(full, 'p', h.len() as int);
    assert(text::head(plain, 'p') =~= h);
    assert(text::head(full, 'p') =~= h);
    assert(text::tail(plain, 'p') =~= Seq::<char>::empty());
    assert(text::tail(full, 'p') =~= f);
    assert(plain.contains('p') && full.contains('p'));
}

/// Whoever wants the best gets the tallest there is, and of those the
/// smoothest, whatever the pane.
pub proof fn law_the_best_is_the_tallest(
    available: Seq<Seq<char>>,
    preference: Seq<char>,
    pane: int,
    r: Option<QualityView>,
    other: QualityView,
)
    requires
        preferred(available, preference, pane, r),
        text::lower_text(text::trim(preference)) == "best"@ || text::lower_text(
            text::trim(preference),
        ) == "source"@,
        offers(available, other),
    ensures
        r is Some,
        offers(available, r->0),
        other.height <= r->0.height,
        other.height == r->0.height ==> other.fps <= r->0.fps,
{
    reveal_strlit("auto");
    reveal_strlit("best");
    reveal_strlit("source");
    let word = text::lower_text(text::trim(preference));
    assert(word.len() == text::trim(preference).len());
    assert(word[0] == 'b' || word[0] == 's');
    let k = choose|k: int| 0 <= k < available.len() && named(#[trigger] available[k]) == Some(
        other,
    );
    assert(offers_any(available));
    let i = choose|i: int| #[trigger]
        tallest_at(available, i) && named(available[i]) == Some(r->0);
    assert(!taller(named(available[k])->Some_0, named(available[i])->Some_0));
}

/// A quality that is wanted by its full name is the one that is taken where it
/// is on offer; one that is wanted by its height is taken at that height, the
/// smoothest there is; and where neither is on offer, or the choice is left
/// open, it is what suits the pane.
pub proof fn law_a_preference_is_kept_to(
    available: Seq<Seq<char>>,
    preference: Seq<char>,
    pane: int,
    r: Option<QualityView>,
    wanted: QualityView,
    other: QualityView,
)
    requires
        preferred(available, preference, pane, r),
        named(text::trim(preference)) == Some(wanted),
        offers(available, other),
    ensures
        r is Some,
        offers(available, r->0),
        text::trim(preference).last() != 'p' && available.contains(text::trim(preference)) ==> r
            == Some(wanted),
        other.height == wanted.height ==> r->0.height == wanted.height,
        other.height == wanted.height && (text::trim(preference).last() == 'p'
            || !available.contains(text::trim(preference))) ==> other.fps <= r->0.fps,
        (forall|c: QualityView| #[trigger] offers(available, c) ==> c.height != wanted.height)
            ==> best_for(available, pane, r->0),
{
    reveal_strlit("auto");
    reveal_strlit("best");
    reveal_strlit("source");
    law_a_preference_never_fails(available, preference, pane, r);
    let k = choose|k: int| 0 <= k < available.len() && named(#[trigger] available[k]) == Some(
        other,
    );
    assert(offers_any(available));
    let p = text::trim(preference);
    let word = text::lower_text(p);
    assert(p.len() > 0) by {
        if p.len() == 0 {
            assert(!p.contains('p'));
        }
    }
    // A resolution has a `p` in it, and none of the words has.
    let at = choose|at: int| 0 <= at < p.len() && p[at] == 'p';
    assert(word[at] == 'p' && at < word.len());
    assert(word != "auto"@) by {
        if word == "auto"@ {
            assert(at == 0 || at == 1 || at == 2 || at == 3);
        }
    }
    assert(word != "best"@) by {
        if word == "best"@ {
            assert(at == 0 || at == 1 || at == 2 || at == 3);
        }
    }
    assert(word != "source"@) by {
        if word == "source"@ {
            assert(at == 0 || at == 1 || at == 2 || at == 3 || at == 4 || at == 5);
        }
    }
    if available.contains(p) {
        let j = choose|j: int| 0 <= j < available.len() && available[j] == p;
        assert(named(available[j]) == Some(wanted));
        assert(offers_height(available, wanted.height));
    }
    if other.height == wanted.height {
        assert(offers_height(available, wanted.height));
    }
    if !(p.last() != 'p' && available.contains(p)) {
        if offers_height(available, wanted.height) {
            let i = choose|i: int| #[trigger]
                smoothest_at(available, wanted.height, i) && named(available[i]) == Some(r->0);
            assert(named(available[i])->Some_0.height == wanted.height);
            if other.height == wanted.height {
                assert(named(available[k])->Some_0.fps <= named(available[i])->Some_0.fps);
            }
            assert(offers(available, r->0));
        }
    } else {
        assert(offers(available, wanted));
    }
}

/// A choice that is left open is the pane's.
pub proof fn law_an_open_choice_is_the_panes(
    available: Seq<Seq<char>>,
    preference: Seq<char>,
    pane: int,
    r: Option<QualityView>,
)
    requires
        preferred(available, preference, pane, r),
        text::trim(preference).len() == 0 || text::lower_text(text::trim(preference)) == "auto"@,
        r is Some,
    ensures
        best_for(available, pane, r->0),
{
}

} // verus!
