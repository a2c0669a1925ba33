//! Transient notices, and the recordings that were named by a link and wait
//! to be looked up.

use crate::browse::SignIn;
use crate::helix::Video;
use crate::text;
use vstd::prelude::*;
use vstd::string::*;

verus! {

/// A transient notice.
#[derive(Debug, Clone)]
pub struct Toast {
    pub id: u64,
    pub text: String,
    /// Whether it is on its way out.
    pub leaving: bool,
    /// The channel it offers to watch, when it says something one can act on.
    pub watch: Option<String>,
}

/// The notices on screen, oldest first.
#[derive(Debug, Clone)]
pub struct Toasts {
    pub list: Vec<Toast>,
    /// The name that the next one gets.
    pub next: u64,
}

/// The notices without the one of this name.
pub open spec fn without(list: Seq<Toast>, id: u64) -> Seq<Toast>
    decreases list.len(),
{
    if list.len() == 0 {
        Seq::empty()
    } else if list[0].id == id {
        list.drop_first()
    } else {
        seq![list[0]] + without(list.drop_first(), id)
    }
}

/// The notice of this name.
pub open spec fn toast_of(list: Seq<Toast>, id: u64) -> Option<Toast>
    decreases list.len(),
{
    if list.len() == 0 {
        None
    } else if list[0].id == id {
        Some(list[0])
    } else {
        toast_of(list.drop_first(), id)
    }
}

proof fn lemma_found(list: Seq<Toast>, at: int)
    requires
        0 <= at < list.len(),
        forall|k: int| 0 <= k < at ==> (#[trigger] list[k]).id != list[at].id,
    ensures
        toast_of(list, list[at].id) == Some(list[at]),
        without(list, list[at].id) == list.remove(at),
    decreases at,
{
    if at == 0 {
        assert(list.remove(0) =~= list.drop_first());
    } else {
        let rest = list.drop_first();
        assert forall|k: int| 0 <= k < at - 1 implies (#[trigger] rest[k]).id != rest[at - 1].id by {
            assert(list[k + 1].id != list[at].id);
        }
        lemma_found(rest, at - 1);
        assert(list[0].id != list[at].id);
        assert(seq![list[0]] + rest.remove(at - 1) =~= list.remove(at));
    }
}

proof fn lemma_not_found(list: Seq<Toast>, id: u64)
    requires
        forall|k: int| 0 <= k < list.len() ==> (#[trigger] list[k]).id != id,
    ensures
        toast_of(list, id) is None,
        without(list, id) == list,
    decreases list.len(),
{
    if list.len() > 0 {
        let rest = list.drop_first();
        assert forall|k: int| 0 <= k < rest.len() implies (#[trigger] rest[k]).id != id by {
            assert(list[k + 1].id != id);
        }
        lemma_not_found(rest, id);
        assert(list[0].id != id);
        assert(seq![list[0]] + rest =~= list);
    } else {
        assert(list =~= Seq::empty());
    }
}

impl Toasts {
    /// Every notice has a name of its own, and no name is given twice.
    pub open spec fn sound(self) -> bool {
        &&& forall|i: int| 0 <= i < self.list@.len() ==> (#[trigger] self.list@[i]).id < self.next
        &&& forall|i: int, j: int|
            0 <= i < j < self.list@.len() ==> (#[trigger] self.list@[i]).id < (
            #[trigger] self.list@[j]).id
    }

    pub fn new() -> (r: Toasts)
        ensures
            r.list@.len() == 0,
            r.next == 0,
            r.sound(),
    {
        Toasts { list: Vec::new(), next: 0 }
    }

    fn find(&self, id: u64) -> (r: Option<usize>)
        requires
            self.sound(),
        ensures
            match r {
                Some(i) => i < self.list@.len() && self.list@[i as int].id == id && toast_of(
                    self.list@,
                    id,
                ) == Some(self.list@[i as int]) && without(self.list@, id) == self.list@.remove(
                    i as int,
                ),
                None => toast_of(self.list@, id) is None && without(self.list@, id) == self.list@,
            },
    {
        let mut i: usize = 0;
        while i < self.list.len()
            invariant
                i <= self.list@.len(),
                forall|k: int| 0 <= k < i ==> (#[trigger] self.list@[k]).id != id,
            decreases self.list.len() - i,
        {
            if self.list[i].id == id {
                proof {
                    lemma_found(self.list@, i as int);
                }
                return Some(i);
            }
            i += 1;
        }
        proof {
            lemma_not_found(self.list@, id);
        }
        None
    }

    /// Put a notice up, behind the others. Its name.
    pub fn toast_with(&mut self, text: String, watch: Option<String>) -> (r: u64)
        requires
            old(self).sound(),
            old(self).next < u64::MAX,
        ensures
            r == old(self).next,
            final(self).next == old(self).next + 1,
            final(self).list@ == old(self).list@.push(
                Toast { id: old(self).next, text, leaving: false, watch },
            ),
            final(self).sound(),
    {
        let id: u64 = self.next;
        self.next = id + 1;
        self.list.push(Toast { id, text, leaving: false, watch });
        id
    }

    /// A notice has been up for long enough, and starts to leave.
    pub fn fade(&mut self, id: u64)
        requires
            old(self).sound(),
        ensures
            final(self).next == old(self).next,
            final(self).list@.len() == old(self).list@.len(),
            forall|i: int|
                0 <= i < old(self).list@.len() ==> #[trigger] final(self).list@[i] == (if old(
                    self,
                ).list@[i].id == id {
                    Toast { leaving: true, ..old(self).list@[i] }
                } else {
                    old(self).list@[i]
                }),
            final(self).sound(),
    {
        let ghost before = self.list@;
        match self.find(id) {
            Some(i) => {
                self.list[i].leaving = true;
                proof {
                    assert forall|k: int| 0 <= k < before.len() implies #[trigger] self.list@[k]
                        == (if before[k].id == id {
                        Toast { leaving: true, ..before[k] }
                    } else {
                        before[k]
                    }) by {
                        if k < i {
                            assert(before[k].id < before[i as int].id);
                        } else if k > i {
                            assert(before[i as int].id < before[k].id);
                        }
                    }
                }
            },
            None => {
                proof {
                    lemma_absent_toast(before, id);
                }
            },
        }
    }

    /// A notice has left.
    pub fn remove(&mut self, id: u64)
        requires
            old(self).sound(),
        ensures
            final(self).next == old(self).next,
            final(self).list@ == without(old(self).list@, id),
            final(self).sound(),
    {
        match self.find(id) {
            Some(i) => {
                let ghost before = self.list@;
                let _ = self.list.remove(i);
                proof {
                    lemma_removed(before, i as int, self.next);
                }
            },
            None => {},
        }
    }

    /// Do what a notice offers, and take it down, since it has been answered.
    /// The channel that is to be watched.
    pub fn act_on_toast(&mut self, id: u64) -> (r: Option<String>)
        requires
            old(self).sound(),
        ensures
            r == (match toast_of(old(self).list@, id) {
                Some(toast) => toast.watch,
                None => None,
            }),
            final(self).next == old(self).next,
            final(self).list@ == without(old(self).list@, id),
            final(self).sound(),
    {
        match self.find(id) {
            Some(i) => {
                let ghost before = self.list@;
                let toast = self.list.remove(i);
                proof {
                    lemma_removed(before, i as int, self.next);
                }
                toast.watch
            },
            None => None,
        }
    }
}

proof fn lemma_absent_toast(list: Seq<Toast>, id: u64)
    requires
        toast_of(list, id) is None,
    ensures
        forall|k: int| 0 <= k < list.len() ==> (#[trigger] list[k]).id != id,
    decreases list.len(),
{
    if list.len() > 0 {
        lemma_absent_toast(list.drop_first(), id);
        assert forall|k: int| 0 <= k < list.len() implies (#[trigger] list[k]).id != id by {
            if k > 0 {
                assert(list.drop_first()[k - 1].id != id);
            }
        }
    }
}

proof fn lemma_removed(list: Seq<Toast>, at: int, next: u64)
    requires
        0 <= at < list.len(),
        forall|i: int| 0 <= i < list.len() ==> (#[trigger] list[i]).id < next,
        forall|i: int, j: int|
            0 <= i < j < list.len() ==> (#[trigger] list[i]).id < (#[trigger] list[j]).id,
    ensures
        forall|i: int| 0 <= i < list.len() - 1 ==> (#[trigger] list.remove(at)[i]).id < next,
        forall|i: int, j: int|
            0 <= i < j < list.len() - 1 ==> (#[trigger] list.remove(at)[i]).id < (
            #[trigger] list.remove(at)[j]).id,
{
    let after = list.remove(at);
    assert forall|i: int, j: int| 0 <= i < j < after.len() implies (#[trigger] after[i]).id < (
    #[trigger] after[j]).id by {
        let x = if i < at {
            i
        } else {
            i + 1
        };
        let y = if j < at {
            j
        } else {
            j + 1
        };
        assert(list[x].id < list[y].id);
    }
    assert forall|i: int| 0 <= i < after.len() implies (#[trigger] after[i]).id < next by {
        let x = if i < at {
            i
        } else {
            i + 1
        };
        assert(list[x].id < next);
    }
}

// ── Recordings named by a link ───────────────────────────────────────

/// A recording named by a link, waiting to be looked up. A link carries an id
/// and where to start and nothing else that a pane needs, and the lookup needs
/// a signed-in session.
#[derive(Debug, Clone)]
pub struct LinkedVideo {
    pub id: String,
    pub start_secs: Option<u64>,
    /// Sent to the worker, and the answer is on its way.
    pub requested: bool,
}

/// What came of opening a link.
#[derive(Debug, Clone, PartialEq, Eq)]
pub enum LinkOpening {
    /// There is no sign-in to come, and it is said so.
    Refused(String),
    /// The recording is waited for already.
    Waiting,
    /// It waits to be looked up, behind the others.
    Queued,
}

/// What a linked recording was found to be.
#[derive(Debug)]
pub enum LinkFound {
    /// Nobody waits for it.
    Nobody,
    /// It opens, from this many milliseconds in.
    Open { video: Box<Video>, start_at: u64 },
    /// It cannot be opened, and it is said why.
    Failed(String),
}

/// Where in a list the recording of this id waits.
pub open spec fn waits_at(list: Seq<LinkedVideo>, id: Seq<char>) -> Option<int>
    decreases list.len(),
{
    if list.len() == 0 {
        None
    } else if list[0].id@ == id {
        Some(0)
    } else {
        match waits_at(list.drop_first(), id) {
            Some(i) => Some(i + 1),
            None => None,
        }
    }
}

/// Seconds as milliseconds, as far as they can be counted.
pub open spec fn in_millis(secs: u64) -> u64 {
    if secs <= u64::MAX / 1000 {
        (secs * 1000) as u64
    } else {
        u64::MAX
    }
}

fn millis(secs: u64) -> (r: u64)
    ensures
        r == in_millis(secs),
{
    if secs <= u64::MAX / 1000 {
        secs * 1000
    } else {
        u64::MAX
    }
}

fn find_link(list: &Vec<LinkedVideo>, id: &str) -> (r: Option<usize>)
    ensures
        match r {
            Some(i) => waits_at(list@, id@) == Some(i as int) && i < list@.len(),
            None => waits_at(list@, id@) is None,
        },
{
    let mut i: usize = 0;
    assert(list@.skip(0) =~= list@);
    while i < list.len()
        invariant
            i <= list@.len(),
            match waits_at(list@.skip(i as int), id@) {
                Some(k) => waits_at(list@, id@) == Some(i + k),
                None => waits_at(list@, id@) is None,
            },
        decreases list.len() - i,
    {
        assert(list@.skip(i as int)[0] == list@[i as int]);
        assert(list@.skip(i as int).drop_first() =~= list@.skip(i + 1));
        if text::same(list[i].id.as_str(), id) {
            return Some(i);
        }
        i += 1;
    }
    None
}

/// What opening a link comes to. Signed in, the recording is asked about;
/// still signing in, the link waits for it; with no sign-in coming, there is
/// nothing to wait for.
pub open spec fn link_opened(
    list: Seq<LinkedVideo>,
    sign_in: SignIn,
    id: String,
    start_secs: Option<u64>,
    after: Seq<LinkedVideo>,
    r: LinkOpening,
) -> bool {
    if sign_in is NeedsClientId || sign_in is Error {
        &&& r is Refused
        &&& r->Refused_0@ == "sign in to open recording "@ + id@ + " by its link"@
        &&& after == list
    } else if waits_at(list, id@) is Some {
        &&& r is Waiting
        &&& after == list
    } else {
        &&& r is Queued
        &&& after == list.push(LinkedVideo { id, start_secs, requested: false })
    }
}

/// Open a recording named by its link, once Twitch has said what it is.
pub fn open_video_link(
    list: &mut Vec<LinkedVideo>,
    sign_in: &SignIn,
    id: String,
    start_secs: Option<u64>,
) -> (r: LinkOpening)
    ensures
        link_opened(old(list)@, *sign_in, id, start_secs, final(list)@, r),
{
    match sign_in {
        SignIn::NeedsClientId | SignIn::Error(_) => {
            return LinkOpening::Refused(
                text::concat3("sign in to open recording ", id.as_str(), " by its link"),
            );
        },
        _ => {},
    }
    if find_link(list, id.as_str()).is_some() {
        return LinkOpening::Waiting;
    }
    list.push(LinkedVideo { id, start_secs, requested: false });
    LinkOpening::Queued
}

/// The first recording that is still to be asked about: none before sign-in,
/// when a request would wait behind it.
pub fn next_link(list: &Vec<LinkedVideo>, sign_in: &SignIn, from: usize) -> (r: Option<usize>)
    ensures
        match r {
            Some(i) => {
                &&& sign_in is SignedIn
                &&& from <= i < list@.len()
                &&& !list@[i as int].requested
                &&& forall|k: int| from <= k < i ==> (#[trigger] list@[k]).requested
            },
            None => sign_in is SignedIn ==> forall|k: int|
                from <= k < list@.len() ==> (#[trigger] list@[k]).requested,
        },
{
    if !sign_in.signed_in() {
        return None;
    }
    let mut i: usize = from;
    while i < list.len()
        invariant
            sign_in is SignedIn,
            from <= i,
            from <= list@.len() ==> i <= list@.len(),
            forall|k: int| from <= k < i && k < list@.len() ==> (#[trigger] list@[k]).requested,
        decreases list.len() - i,
    {
        if !list[i].requested {
            return Some(i);
        }
        i += 1;
    }
    None
}

/// A recording was asked about, or there was nobody to ask.
pub fn link_asked(list: &mut Vec<LinkedVideo>, index: usize, taken: bool)
    requires
        index < old(list)@.len(),
    ensures
        final(list)@ == old(list)@.update(
            index as int,
            LinkedVideo { requested: taken, ..old(list)@[index as int] },
        ),
{
    list[index].requested = taken;
}

/// What the worker's answer for a linked recording comes to: it is waited for
/// no longer, and opens, or it is said why not.
pub open spec fn looked_up(
    list: Seq<LinkedVideo>,
    id: Seq<char>,
    result: Result<Video, String>,
    after: Seq<LinkedVideo>,
    r: LinkFound,
) -> bool {
    match waits_at(list, id) {
        Some(i) => {
            &&& after == list.remove(i)
            &&& match result {
                Ok(video) => r == (LinkFound::Open {
                    video: Box::new(video),
                    start_at: match list[i].start_secs {
                        Some(secs) => in_millis(secs),
                        None => 0,
                    },
                }),
                Err(reason) => r is Failed && r->Failed_0@ == "could not open recording "@ + id
                    + ": "@ + reason@,
            }
        },
        None => after == list && r is Nobody,
    }
}

/// The worker's answer for a linked recording: the video, or why not.
pub fn on_linked_video(list: &mut Vec<LinkedVideo>, id: &str, result: Result<Video, String>) -> (r:
    LinkFound)
    ensures
        looked_up(old(list)@, id@, result, final(list)@, r),
{
    match find_link(list, id) {
        Some(i) => {
            let linked = list.remove(i);
            match result {
                Ok(video) => {
                    let start_at: u64 = match linked.start_secs {
                        Some(secs) => millis(secs),
                        None => 0,
                    };
                    LinkFound::Open { video: Box::new(video), start_at }
                },
                Err(reason) => {
                    let mut said = text::concat3("could not open recording ", id, ": ");
                    said.append(reason.as_str());
                    LinkFound::Failed(said)
                },
            }
        },
        None => LinkFound::Nobody,
    }
}

// ── Laws ─────────────────────────────────────────────────────────────

proof fn lemma_waits_at(list: Seq<LinkedVideo>, id: Seq<char>)
    ensures
        match waits_at(list, id) {
            Some(i) => 0 <= i < list.len() && list[i].id@ == id && forall|k: int|
                0 <= k < i ==> (#[trigger] list[k]).id@ != id,
            None => forall|k: int| 0 <= k < list.len() ==> (#[trigger] list[k]).id@ != id,
        },
    decreases list.len(),
{
    if list.len() > 0 && list[0].id@ != id {
        let rest = list.drop_first();
        lemma_waits_at(rest, id);
        assert forall|k: int|
            0 <= k < list.len() && (waits_at(rest, id) is Some ==> k <= waits_at(rest, id)->0)
            implies (#[trigger] list[k]).id@ != id by {
            if k > 0 {
                assert(rest[k - 1].id@ != id);
            }
        }
    }
}

/// A recording that a link named opens from where the link said, once Twitch
/// has said what it is: so many seconds in as the link asked for, or from its
/// beginning. It is waited for once and then no longer, and the others still
/// are.
pub proof fn law_a_link_opens_from_its_moment(
    list: Seq<LinkedVideo>,
    sign_in: SignIn,
    id: String,
    start_secs: Option<u64>,
    waiting: Seq<LinkedVideo>,
    opening: LinkOpening,
    video: Video,
    after: Seq<LinkedVideo>,
    r: LinkFound,
)
    requires
        link_opened(list, sign_in, id, start_secs, waiting, opening),
        opening is Queued,
        looked_up(waiting, id@, Ok(video), after, r),
    ensures
        r is Open,
        *r->video == video,
        start_secs is None ==> r->start_at == 0,
        start_secs is Some && start_secs->0 * 1000 <= u64::MAX ==> r->start_at == start_secs->0
            * 1000,
        after == list,
{
    lemma_waits_at(list, id@);
    lemma_waits_at(waiting, id@);
    let n = list.len() as int;
    let i = waits_at(waiting, id@)->0;
    assert(waiting[n].id@ == id@);
    if i < n {
        assert(waiting[i] == list[i]);
    }
    assert(waiting.remove(n) =~= list);
}

/// A link is refused exactly where no sign-in is to come; it does not wait
/// twice; and whatever waits keeps waiting.
pub proof fn law_a_link_waits_once(
    list: Seq<LinkedVideo>,
    sign_in: SignIn,
    id: String,
    start_secs: Option<u64>,
    after: Seq<LinkedVideo>,
    r: LinkOpening,
)
    requires
        link_opened(list, sign_in, id, start_secs, after, r),
    ensures
        r is Refused <==> sign_in is NeedsClientId || sign_in is Error,
        r is Refused ==> after == list,
        r is Waiting <==> !(r is Refused) && exists|i: int|
            0 <= i < list.len() && (#[trigger] list[i]).id@ == id@,
        r is Waiting ==> after == list,
        r is Queued ==> after.len() == list.len() + 1 && after.last().id@ == id@
            && after.last().start_secs == start_secs && !after.last().requested,
        forall|i: int| 0 <= i < list.len() ==> #[trigger] after[i] == list[i],
{
    lemma_waits_at(list, id@);
}

/// An answer for a recording that nobody waits for changes nothing, and one
/// that failed is said and waited for no longer.
pub proof fn law_an_answer_is_for_who_waits(
    list: Seq<LinkedVideo>,
    id: Seq<char>,
    result: Result<Video, String>,
    after: Seq<LinkedVideo>,
    r: LinkFound,
)
    requires
        looked_up(list, id, result, after, r),
    ensures
        r is Nobody <==> forall|i: int| 0 <= i < list.len() ==> (#[trigger] list[i]).id@ != id,
        r is Nobody ==> after == list,
        !(r is Nobody) ==> after.len() == list.len() - 1 && (r is Open <==> result is Ok),
        forall|other: LinkedVideo|
            other.id@ != id ==> (#[trigger] after.contains(other) <==> list.contains(other)),
{
    lemma_waits_at(list, id);
    if let Some(i) = waits_at(list, id) {
        assert forall|other: LinkedVideo| other.id@ != id implies (#[trigger] after.contains(other)
            <==> list.contains(other)) by {
            if list.contains(other) {
                let k = choose|k: int| 0 <= k < list.len() && list[k] == other;
                let m = if k < i {
                    k
                } else {
                    k - 1
                };
                assert(after[m] == other);
            }
            if after.contains(other) {
                let k = choose|k: int| 0 <= k < after.len() && after[k] == other;
                let m = if k < i {
                    k
                } else {
                    k + 1
                };
                assert(list[m] == other);
            }
        }
    }
}

/// A notice that is taken down is gone, and every other stays, in order.
pub proof fn law_only_the_answered_notice_goes(toasts: Toasts, id: u64)
    requires
        toasts.sound(),
    ensures
        forall|toast: Toast| #[trigger]
            without(toasts.list@, id).contains(toast) <==> toasts.list@.contains(toast) && toast.id
                != id,
        forall|i: int, j: int|
            0 <= i < j < without(toasts.list@, id).len() ==> (#[trigger] without(
                toasts.list@,
                id,
            )[i]).id < (#[trigger] without(toasts.list@, id)[j]).id,
        forall|i: int|
            0 <= i < toasts.list@.len() ==> toast_of(
                toasts.list@,
                (#[trigger] toasts.list@[i]).id,
            ) == Some(toasts.list@[i]),
{
    let list = toasts.list@;
    assert forall|i: int| 0 <= i < list.len() implies toast_of(list, (#[trigger] list[i]).id)
        == Some(list[i]) by {
        lemma_found(list, i);
    }
    if exists|i: int| 0 <= i < list.len() && (#[trigger] list[i]).id == id {
        let at = choose|i: int| 0 <= i < list.len() && (#[trigger] list[i]).id == id;
        lemma_found(list, at);
        lemma_removed(list, at, toasts.next);
        let after = list.remove(at);
        assert forall|toast: Toast| #[trigger] after.contains(toast) <==> list.contains(toast)
            && toast.id != id by {
            if list.contains(toast) && toast.id != id {
                let k = choose|k: int| 0 <= k < list.len() && list[k] == toast;
                let m = if k < at {
                    k
                } else {
                    k - 1
                };
                assert(after[m] == toast);
            }
            if after.contains(toast) {
                let k = choose|k: int| 0 <= k < after.len() && after[k] == toast;
                let m = if k < at {
                    k
                } else {
                    k + 1
                };
                assert(list[m] == toast);
                if m < at {
                    assert(list[m].id < list[at].id);
                } else {
                    assert(list[at].id < list[m].id);
                }
            }
        }
    } else {
        lemma_not_found(list, id);
        assert forall|toast: Toast| #[trigger] list.contains(toast) implies toast.id != id by {
            let k = choose|k: int| 0 <= k < list.len() && list[k] == toast;
            assert(list[k].id != id);
        }
    }
}

} // verus!
