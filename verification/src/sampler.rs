//! One sample of where the CPU went: what each thread and each child used
//! since the last, and the row that says so.

use crate::browse;
use crate::cpu_log;
use crate::cpu_log::{Activity, RESCAN_EVERY, TICKS};
use crate::double;
use crate::weighed;
use crate::weighed::Weighed;
use crate::text;
use vstd::prelude::*;
use vstd::string::*;

verus! {

// ── Descendants ──────────────────────────────────────────────────────

/// A process and its parent.
#[derive(Debug, Clone, Copy, PartialEq, Eq)]
pub struct Process {
    pub pid: u32,
    pub parent: u32,
}

/// Whether a listed process is a child of another.
pub open spec fn is_child(list: Seq<Process>, parent: u32, pid: u32) -> bool {
    exists|i: int|
        0 <= i < list.len() && (#[trigger] list[i]).parent == parent && list[i].pid == pid
}

/// A line of descent: each the child of the one before.
pub open spec fn is_line(list: Seq<Process>, line: Seq<u32>) -> bool {
    &&& line.len() > 0
    &&& forall|i: int|
        0 <= i < line.len() - 1 ==> is_child(list, #[trigger] line[i], line[i + 1])
}

/// Whether one process descends from another, at any depth.
pub open spec fn descends(list: Seq<Process>, root: u32, pid: u32) -> bool {
    exists|line: Seq<u32>|
        #[trigger] is_line(list, line) && line[0] == root && line.last() == pid
}

proof fn lemma_child_descends(list: Seq<Process>, root: u32, parent: u32, pid: u32)
    requires
        descends(list, root, parent),
        is_child(list, parent, pid),
    ensures
        descends(list, root, pid),
{
    let line = choose|line: Seq<u32>|
        #[trigger] is_line(list, line) && line[0] == root && line.last() == parent;
    let longer = line.push(pid);
    assert forall|i: int| 0 <= i < longer.len() - 1 implies is_child(
        list,
        #[trigger] longer[i],
        longer[i + 1],
    ) by {
        if i < line.len() - 1 {
            assert(longer[i] == line[i] && longer[i + 1] == line[i + 1]);
            assert(is_child(list, line[i], line[i + 1]));
        }
    }
    assert(is_line(list, longer));
    assert(longer[0] == root && longer.last() == pid);
}

/// What is closed under having children holds every descendant.
proof fn lemma_closed(list: Seq<Process>, root: u32, out: Seq<u32>, line: Seq<u32>, n: int)
    requires
        is_line(list, line),
        line[0] == root,
        0 <= n < line.len(),
        forall|parent: u32, pid: u32|
            (parent == root || out.contains(parent)) && #[trigger] is_child(list, parent, pid)
                ==> pid == root || out.contains(pid),
    ensures
        line[n] == root || out.contains(line[n]),
    decreases n,
{
    if n > 0 {
        lemma_closed(list, root, out, line, n - 1);
        assert(is_child(list, line[n - 1], line[n]));
    }
}

proof fn lemma_few(places: Seq<int>, n: int)
    requires
        n >= 0,
        places.no_duplicates(),
        forall|i: int| 0 <= i < places.len() ==> 0 <= #[trigger] places[i] < n,
    ensures
        places.len() <= n,
{
    let range = vstd::set_lib::set_int_range(0, n);
    vstd::set_lib::lemma_int_range(0, n);
    places.unique_seq_to_set();
    assert forall|x: int| places.to_set().contains(x) implies range.contains(x) by {
        let i = choose|i: int| 0 <= i < places.len() && places[i] == x;
        assert(0 <= places[i] < n);
    }
    vstd::set_lib::lemma_len_subset(places.to_set(), range);
}

fn contains(list: &Vec<u32>, n: u32) -> (r: bool)
    ensures
        r == list@.contains(n),
{
    let mut i: usize = 0;
    while i < list.len()
        invariant
            i <= list@.len(),
            forall|k: int| 0 <= k < i ==> list@[k] != n,
        decreases list.len() - i,
    {
        if list[i] == n {
            return true;
        }
        i += 1;
    }
    false
}

/// The children of the processes in `stack` are still to be looked at, and
/// those of every other that was found have been.
spec fn searched(list: Seq<Process>, root: u32, out: Seq<u32>, stack: Seq<u32>) -> bool {
    forall|parent: u32, pid: u32|
        (parent == root || out.contains(parent)) && !stack.contains(parent) && #[trigger] is_child(
            list,
            parent,
            pid,
        ) ==> pid == root || out.contains(pid)
}

/// What was found: descendants of the root other than itself, each once, and
/// each found in a place of its own.
spec fn found(list: Seq<Process>, root: u32, out: Seq<u32>, places: Seq<int>) -> bool {
    &&& out.no_duplicates()
    &&& forall|i: int|
        0 <= i < out.len() ==> (#[trigger] out[i]) != root && descends(list, root, out[i])
    &&& places.len() == out.len()
    &&& places.no_duplicates()
    &&& forall|i: int|
        0 <= i < places.len() ==> 0 <= (#[trigger] places[i]) < list.len() && list[places[i]].pid
            == out[i]
}

/// Every process descended from `root`, at any depth, and each once. Process
/// numbers are recycled, so a stale parent may point back up the tree.
pub fn descendants(list: &Vec<Process>, root: u32) -> (r: Vec<u32>)
    ensures
        r@.no_duplicates(),
        forall|pid: u32| #[trigger]
            r@.contains(pid) <==> pid != root && descends(list@, root, pid),
{
    let mut out: Vec<u32> = Vec::new();
    let mut stack: Vec<u32> = Vec::new();
    stack.push(root);
    let ghost mut places: Seq<int> = Seq::empty();
    proof {
        let line = seq![root];
        assert(is_line(list@, line));
        assert(descends(list@, root, root)) by {
            assert(line[0] == root && line.last() == root);
        }
        assert(stack@[0] == root);
    }
    while stack.len() > 0
        invariant
            found(list@, root, out@, places),
            descends(list@, root, root),
            searched(list@, root, out@, stack@),
            forall|i: int|
                0 <= i < stack@.len() ==> (#[trigger] stack@[i]) == root || out@.contains(
                    stack@[i],
                ),
        decreases list@.len() - out@.len(), stack@.len(),
    {
        let ghost before = stack@;
        let ghost held = out@;
        let pid: u32 = stack.pop().unwrap();
        proof {
            lemma_few(places, list@.len() as int);
            assert(before =~= stack@.push(pid));
            assert(before[before.len() - 1] == pid);
            assert(descends(list@, root, pid)) by {
                if pid != root {
                    assert(out@.contains(pid));
                    let k = choose|k: int| 0 <= k < out@.len() && out@[k] == pid;
                    assert(descends(list@, root, out@[k]));
                }
            }
        }
        let mut i: usize = 0;
        while i < list.len()
            invariant
                i <= list@.len(),
                found(list@, root, out@, places),
                descends(list@, root, root),
                descends(list@, root, pid),
                pid == root || out@.contains(pid),
                forall|k: int|
                    0 <= k < stack@.len() ==> (#[trigger] stack@[k]) == root || out@.contains(
                        stack@[k],
                    ),
                // Everything but what has just been taken off the stack.
                forall|parent: u32, child: u32|
                    (parent == root || out@.contains(parent)) && !stack@.contains(parent) && parent
                        != pid && #[trigger] is_child(list@, parent, child) ==> child == root
                        || out@.contains(child),
                forall|k: int|
                    0 <= k < i && (#[trigger] list@[k]).parent == pid ==> list@[k].pid == root
                        || out@.contains(list@[k].pid),
                held.len() <= out@.len() <= list@.len(),
                out@.len() == held.len() ==> stack@.len() < before.len(),
            decreases list.len() - i,
        {
            let one = list[i];
            if one.parent == pid && one.pid != root && !contains(&out, one.pid) {
                let ghost out0 = out@;
                let ghost stack0 = stack@;
                let ghost places0 = places;
                out.push(one.pid);
                stack.push(one.pid);
                proof {
                    assert(is_child(list@, pid, one.pid)) by {
                        assert(list@[i as int].parent == pid && list@[i as int].pid == one.pid);
                    }
                    lemma_child_descends(list@, root, pid, one.pid);
                    places = places.push(i as int);
                    assert(!places0.contains(i as int)) by {
                        if places0.contains(i as int) {
                            let k = choose|k: int| 0 <= k < places0.len() && places0[k] == i as int;
                            assert(out0[k] == list@[places0[k]].pid);
                            assert(out0.contains(one.pid));
                        }
                    }
                    assert forall|a: u32| out0.contains(a) implies out@.contains(a) by {
                        let k = choose|k: int| 0 <= k < out0.len() && out0[k] == a;
                        assert(out@[k] == a);
                    }
                    assert(out@.last() == one.pid);
                    assert(out@.contains(one.pid));
                    assert forall|a: u32| stack0.contains(a) implies stack@.contains(a) by {
                        let k = choose|k: int| 0 <= k < stack0.len() && stack0[k] == a;
                        assert(stack@[k] == a);
                    }
                    assert(stack@.last() == one.pid);
                    assert(stack@.contains(one.pid));
                    assert forall|parent: u32, child: u32|
                        (parent == root || out@.contains(parent)) && !stack@.contains(parent)
                            && parent != pid && #[trigger] is_child(
                            list@,
                            parent,
                            child,
                        ) implies child == root || out@.contains(child) by {
                        if parent != root {
                            let k = choose|k: int| 0 <= k < out@.len() && out@[k] == parent;
                            if k < out0.len() {
                                assert(out0[k] == parent);
                                assert(out0.contains(parent));
                            }
                        }
                    }
                    assert(found(list@, root, out@, places)) by {
                        assert(out@.no_duplicates());
                        assert(places.no_duplicates());
                        assert forall|k: int| 0 <= k < out@.len() implies (#[trigger] out@[k])
                            != root && descends(list@, root, out@[k]) by {
                            if k < out0.len() {
                                assert(out@[k] == out0[k]);
                            }
                        }
                        assert forall|k: int| 0 <= k < places.len() implies 0 <= (
                        #[trigger] places[k]) < list@.len() && list@[places[k]].pid == out@[k] by {
                            if k < places0.len() {
                                assert(places[k] == places0[k]);
                                assert(out@[k] == out0[k]);
                            }
                        }
                    }
                    lemma_few(places, list@.len() as int);
                }
            }
            i += 1;
        }
        proof {
            assert forall|parent: u32, child: u32|
                (parent == root || out@.contains(parent)) && !stack@.contains(parent)
                    && #[trigger] is_child(list@, parent, child) implies child == root
                || out@.contains(child) by {
                if parent == pid {
                    let k = choose|k: int|
                        0 <= k < list@.len() && (#[trigger] list@[k]).parent == parent
                            && list@[k].pid == child;
                    assert(list@[k].parent == pid);
                }
            }
        }
    }
    proof {
        assert forall|pid: u32| #[trigger] out@.contains(pid) implies pid != root && descends(
            list@,
            root,
            pid,
        ) by {
            let k = choose|k: int| 0 <= k < out@.len() && out@[k] == pid;
            assert(out@[k] != root);
        }
        assert forall|pid: u32| pid != root && descends(list@, root, pid) implies #[trigger] out@.contains(
            pid,
        ) by {
            let line = choose|line: Seq<u32>|
                #[trigger] is_line(list@, line) && line[0] == root && line.last() == pid;
            assert forall|parent: u32, child: u32|
                (parent == root || out@.contains(parent)) && #[trigger] is_child(
                    list@,
                    parent,
                    child,
                ) implies child == root || out@.contains(child) by {
                assert(!stack@.contains(parent));
            }
            lemma_closed(list@, root, out@, line, line.len() - 1);
        }
    }
    out
}

// ── What is kept between two samples ─────────────────────────────────

/// A thread that has been met, and the ticks it had used when last looked at.
#[derive(Debug, Clone)]
pub struct ThreadSeen {
    pub tid: u32,
    pub name: String,
    pub last: u64,
}

/// A child process that has been met.
#[derive(Debug, Clone, Copy, PartialEq, Eq)]
pub struct ChildSeen {
    pub pid: u32,
    pub last: u64,
}

/// What the sampler keeps.
#[derive(Debug, Clone)]
pub struct Sampler {
    pub threads: Vec<ThreadSeen>,
    pub kids: Vec<ChildSeen>,
    pub last_process: u64,
    pub last_renders: u64,
    pub last_dropped: u64,
    pub tick: u32,
    /// The last sample could not account for what it measured.
    pub unaccounted: bool,
}

/// What the system said at the end of a sample: for each thread and each child
/// that was known, the ticks it has used, or nothing where it has gone.
#[derive(Debug, Clone)]
pub struct Reading {
    /// Ticks since the last sample.
    pub elapsed: u64,
    pub process: Option<u64>,
    pub renders: u64,
    pub dropped: u64,
    pub threads: Vec<Option<u64>>,
    pub kids: Vec<Option<u64>>,
}

/// The ticks that threads of one name used.
#[derive(Debug, Clone)]
pub struct Bucket {
    pub name: String,
    pub ticks: u128,
}

pub open spec fn buckets(list: Seq<Bucket>) -> Seq<(Seq<char>, nat)> {
    Seq::new(list.len(), |i: int| (list[i].name@, list[i].ticks as nat))
}

/// What a sample came to.
#[derive(Debug, Clone)]
pub struct Sample {
    pub elapsed: u64,
    /// Ticks that the process used.
    pub cpu: u64,
    /// Ticks that its children used.
    pub children: u128,
    /// Who used them, the busiest first.
    pub ranked: Vec<Bucket>,
    pub renders: u64,
    pub drops: u64,
}

/// A list of buckets with more ticks for one name.
pub open spec fn charged(list: Seq<(Seq<char>, nat)>, name: Seq<char>, ticks: nat) -> Seq<
    (Seq<char>, nat),
>
    decreases list.len(),
{
    if list.len() == 0 {
        seq![(name, ticks)]
    } else if list[0].0 == name {
        seq![(name, list[0].1 + ticks)] + list.drop_first()
    } else {
        seq![list[0]] + charged(list.drop_first(), name, ticks)
    }
}

/// The ticks each name used, over the first `n` threads: those that are still
/// there and have used any.
pub open spec fn usage(threads: Seq<ThreadSeen>, now: Seq<Option<u64>>, n: int) -> Seq<
    (Seq<char>, nat),
>
    decreases n,
{
    if n <= 0 {
        Seq::empty()
    } else {
        let before = usage(threads, now, n - 1);
        match now[n - 1] {
            Some(ticks) => if ticks > threads[n - 1].last {
                charged(before, threads[n - 1].name@, (ticks - threads[n - 1].last) as nat)
            } else {
                before
            },
            None => before,
        }
    }
}

/// The first `n` threads without those that have gone, as they are now.
pub open spec fn still_there(threads: Seq<ThreadSeen>, now: Seq<Option<u64>>, n: int) -> Seq<
    ThreadSeen,
>
    decreases n,
{
    if n <= 0 {
        Seq::empty()
    } else {
        let before = still_there(threads, now, n - 1);
        match now[n - 1] {
            Some(ticks) => before.push(ThreadSeen { last: ticks, ..threads[n - 1] }),
            None => before,
        }
    }
}

/// The ticks that the first `n` children used.
pub open spec fn child_usage(kids: Seq<ChildSeen>, now: Seq<Option<u64>>, n: int) -> nat
    decreases n,
{
    if n <= 0 {
        0
    } else {
        let before = child_usage(kids, now, n - 1);
        match now[n - 1] {
            Some(ticks) => if ticks > kids[n - 1].last {
                before + (ticks - kids[n - 1].last) as nat
            } else {
                before
            },
            None => before,
        }
    }
}

/// The first `n` children without those that have gone, as they are now.
pub open spec fn kids_there(kids: Seq<ChildSeen>, now: Seq<Option<u64>>, n: int) -> Seq<ChildSeen>
    decreases n,
{
    if n <= 0 {
        Seq::empty()
    } else {
        let before = kids_there(kids, now, n - 1);
        match now[n - 1] {
            Some(ticks) => before.push(ChildSeen { last: ticks, ..kids[n - 1] }),
            None => before,
        }
    }
}

impl Weighed for Bucket {
    open spec fn weight(self) -> nat {
        self.ticks as nat
    }

    fn weighs(&self) -> (r: u128) {
        self.ticks
    }
}

/// What each used.
pub open spec fn ticks_used(list: Seq<(Seq<char>, nat)>) -> Seq<nat> {
    Seq::new(list.len(), |i: int| list[i].1)
}

/// Those buckets that used at least a twentieth of a percent, the busiest
/// first.
pub open spec fn ranking(list: Seq<(Seq<char>, nat)>, elapsed: nat) -> Seq<(Seq<char>, nat)>
    decreases list.len(),
{
    if list.len() == 0 {
        Seq::empty()
    } else {
        let before = ranking(list.drop_last(), elapsed);
        if list.last().1 * 2000 >= elapsed {
            before.insert(weighed::place(ticks_used(before), list.last().1), list.last())
        } else {
            before
        }
    }
}

/// All ticks of a list.
pub open spec fn total(list: Seq<(Seq<char>, nat)>) -> nat
    decreases list.len(),
{
    if list.len() == 0 {
        0
    } else {
        total(list.drop_last()) + list.last().1
    }
}

/// A sample that leaves much over a fifth of what it measured unexplained, and
/// that measured more than a twentieth of a core: the list of threads is stale.
pub open spec fn unexplained(cpu: nat, named: nat, elapsed: nat) -> bool {
    cpu * 20 > elapsed && named * 5 < cpu * 4
}

/// How much a counter has grown.
pub open spec fn more(before: u64, now: u64) -> u64 {
    if now > before {
        (now - before) as u64
    } else {
        0
    }
}

fn growth(before: u64, now: u64) -> (r: u64)
    ensures
        r == more(before, now),
{
    if now > before {
        now - before
    } else {
        0
    }
}

proof fn lemma_charged_total(list: Seq<(Seq<char>, nat)>, name: Seq<char>, ticks: nat)
    ensures
        total(charged(list, name, ticks)) == total(list) + ticks,
    decreases list.len(),
{
    let all = charged(list, name, ticks);
    if list.len() == 0 {
        assert(all.drop_last() =~= Seq::empty());
        assert(total(all.drop_last()) == 0);
    } else {
        lemma_total_front(list);
        if list[0].0 == name {
            lemma_total_front(all);
            assert(all.drop_first() =~= list.drop_first());
        } else {
            lemma_charged_total(list.drop_first(), name, ticks);
            lemma_total_front(all);
            assert(all.drop_first() =~= charged(list.drop_first(), name, ticks));
        }
    }
}

proof fn lemma_total_front(list: Seq<(Seq<char>, nat)>)
    requires
        list.len() > 0,
    ensures
        total(list) == list[0].1 + total(list.drop_first()),
    decreases list.len(),
{
    if list.len() > 1 {
        lemma_total_front(list.drop_last());
        assert(list.drop_last().drop_first() =~= list.drop_first().drop_last());
    } else {
        assert(list.drop_last() =~= Seq::empty());
        assert(list.drop_first() =~= Seq::empty());
        assert(total(list.drop_last()) == 0);
    }
}

proof fn lemma_each_of_total(list: Seq<(Seq<char>, nat)>)
    ensures
        forall|i: int| 0 <= i < list.len() ==> (#[trigger] list[i]).1 <= total(list),
    decreases list.len(),
{
    if list.len() > 0 {
        let rest = list.drop_last();
        lemma_each_of_total(rest);
        assert forall|i: int| 0 <= i < list.len() implies (#[trigger] list[i]).1 <= total(list) by {
            if i < rest.len() {
                assert(list[i] == rest[i]);
            }
        }
    }
}

proof fn lemma_usage_bound(threads: Seq<ThreadSeen>, now: Seq<Option<u64>>, n: int)
    requires
        0 <= n <= threads.len(),
    ensures
        total(usage(threads, now, n)) <= n * 0xFFFF_FFFF_FFFF_FFFF,
    decreases n,
{
    if n > 0 {
        lemma_usage_bound(threads, now, n - 1);
        match now[n - 1] {
            Some(ticks) => {
                if ticks > threads[n - 1].last {
                    lemma_charged_total(
                        usage(threads, now, n - 1),
                        threads[n - 1].name@,
                        (ticks - threads[n - 1].last) as nat,
                    );
                }
            },
            None => {},
        }
    }
}

/// Put more ticks on a name's bucket.
fn charge(list: &mut Vec<Bucket>, name: &String, ticks: u64)
    requires
        total(buckets(old(list)@)) + ticks < 0x1_0000_0000_0000_0000_0000_0000,
    ensures
        buckets(final(list)@) == charged(buckets(old(list)@), name@, ticks as nat),
{
    let ghost all = buckets(list@);
    let ghost held = list@;
    let mut i: usize = 0;
    assert(all.skip(0) =~= all);
    assert(all.take(0) + charged(all, name@, ticks as nat) =~= charged(all, name@, ticks as nat));
    while i < list.len()
        invariant
            list@ == held,
            all == buckets(held),
            i <= list@.len(),
            total(all) + ticks < 0x1_0000_0000_0000_0000_0000_0000,
            all.take(i as int) + charged(all.skip(i as int), name@, ticks as nat) == charged(
                all,
                name@,
                ticks as nat,
            ),
            held == old(list)@,
        decreases list.len() - i,
    {
        let ghost rest = all.skip(i as int);
        assert(rest[0] == all[i as int]);
        assert(rest.drop_first() =~= all.skip(i + 1));
        if text::same(list[i].name.as_str(), name.as_str()) {
            proof {
                lemma_each_of_total(all);
                assert(all[i as int].1 <= total(all));
            }
            let sum: u128 = list[i].ticks + ticks as u128;
            list[i].ticks = sum;
            proof {
                let after = buckets(list@);
                let one = (name@, (all[i as int].1 + ticks) as nat);
                assert(after =~= all.update(i as int, one));
                assert(all.take(i as int) + (seq![one] + rest.drop_first()) =~= all.update(
                    i as int,
                    one,
                ));
            }
            return ;
        }
        proof {
            assert(all.take(i as int) + (seq![rest[0]] + charged(
                rest.drop_first(),
                name@,
                ticks as nat,
            )) =~= all.take(i + 1) + charged(all.skip(i + 1), name@, ticks as nat));
        }
        i += 1;
    }
    list.push(Bucket { name: name.clone(), ticks: ticks as u128 });
    proof {
        assert(all.skip(i as int) =~= Seq::empty());
        assert(buckets(list@) =~= all.push((name@, ticks as nat)));
        assert(all.take(i as int) + seq![(name@, ticks as nat)] =~= all.push((name@, ticks as nat)));
    }
}

proof fn lemma_ranking_total(list: Seq<(Seq<char>, nat)>, elapsed: nat)
    ensures
        total(ranking(list, elapsed)) <= total(list),
    decreases list.len(),
{
    if list.len() > 0 {
        let before = ranking(list.drop_last(), elapsed);
        lemma_ranking_total(list.drop_last(), elapsed);
        if list.last().1 * 2000 >= elapsed {
            weighed::lemma_place(ticks_used(before), list.last().1);
            lemma_insert_total(
                before,
                weighed::place(ticks_used(before), list.last().1),
                list.last(),
            );
        }
    }
}

proof fn lemma_insert_total(list: Seq<(Seq<char>, nat)>, at: int, one: (Seq<char>, nat))
    requires
        0 <= at <= list.len(),
    ensures
        total(list.insert(at, one)) == total(list) + one.1,
    decreases list.len(),
{
    let all = list.insert(at, one);
    if at == list.len() {
        assert(all.drop_last() =~= list);
    } else {
        assert(all.last() == list.last());
        assert(all.drop_last() =~= list.drop_last().insert(at, one));
        lemma_insert_total(list.drop_last(), at, one);
    }
}

fn rank(list: Vec<Bucket>, elapsed: u64) -> (r: Vec<Bucket>)
    requires
        total(buckets(list@)) < 0x1_0000_0000_0000_0000_0000_0000,
    ensures
        buckets(r@) == ranking(buckets(list@), elapsed as nat),
{
    let ghost all = buckets(list@);
    let mut out: Vec<Bucket> = Vec::new();
    let mut i: usize = 0;
    assert(buckets(out@) =~= ranking(all.take(0), elapsed as nat));
    proof {
        lemma_each_of_total(all);
    }
    while i < list.len()
        invariant
            i <= list@.len(),
            all == buckets(list@),
            total(all) < 0x1_0000_0000_0000_0000_0000_0000,
            forall|k: int| 0 <= k < all.len() ==> (#[trigger] all[k]).1 <= total(all),
            buckets(out@) == ranking(all.take(i as int), elapsed as nat),
        decreases list.len() - i,
    {
        assert(all.take(i + 1).drop_last() =~= all.take(i as int));
        assert(all.take(i + 1).last() == all[i as int]);
        assert(all[i as int].1 <= total(all));
        if list[i].ticks * 2000 >= elapsed as u128 {
            let one = Bucket { name: list[i].name.clone(), ticks: list[i].ticks };
            let ghost held = out@;
            proof {
                weighed::lemma_place(weighed::weights(held), one.weight());
            }
            weighed::insert(&mut out, one);
            proof {
                assert(weighed::weights(held) =~= ticks_used(buckets(held)));
                assert(buckets(out@) =~= buckets(held).insert(
                    weighed::place(weighed::weights(held), one.weight()),
                    (one.name@, one.ticks as nat),
                ));
            }
        }
        i += 1;
    }
    assert(all.take(i as int) =~= all);
    out
}

fn total_of(list: &Vec<Bucket>) -> (r: u128)
    requires
        total(buckets(list@)) < 0x1_0000_0000_0000_0000_0000_0000,
    ensures
        r == total(buckets(list@)),
{
    let ghost all = buckets(list@);
    let mut sum: u128 = 0;
    let mut i: usize = 0;
    assert(all.take(0) =~= Seq::empty());
    while i < list.len()
        invariant
            i <= list@.len(),
            all == buckets(list@),
            sum == total(all.take(i as int)),
            total(all) < 0x1_0000_0000_0000_0000_0000_0000,
        decreases list.len() - i,
    {
        assert(all.take(i + 1).drop_last() =~= all.take(i as int));
        assert(all.take(i + 1).last() == all[i as int]);
        proof {
            lemma_part_of_total(all, i + 1);
        }
        sum = sum + list[i].ticks;
        i += 1;
    }
    assert(all.take(i as int) =~= all);
    sum
}

proof fn lemma_part_of_total(list: Seq<(Seq<char>, nat)>, n: int)
    requires
        0 <= n <= list.len(),
    ensures
        total(list.take(n)) <= total(list),
    decreases list.len() - n,
{
    if n == list.len() {
        assert(list.take(n) =~= list);
    } else {
        lemma_part_of_total(list, n + 1);
        assert(list.take(n + 1).drop_last() =~= list.take(n));
    }
}

// ── A sample ─────────────────────────────────────────────────────────

/// Whether a reading is about the threads and children that are known.
pub open spec fn fits(sampler: Sampler, reading: Reading) -> bool {
    &&& reading.elapsed > 0
    &&& reading.threads@.len() == sampler.threads@.len()
    &&& reading.kids@.len() == sampler.kids@.len()
    &&& sampler.threads@.len() <= 0xFFFF_FFFF
    &&& sampler.kids@.len() <= 0xFFFF_FFFF
}

/// What a reading comes to.
pub open spec fn measured(before: Sampler, reading: Reading, after: Sampler, r: Sample) -> bool {
    let n = before.threads@.len() as int;
    let k = before.kids@.len() as int;
    let process = match reading.process {
        Some(ticks) => ticks,
        None => before.last_process,
    };
    &&& r.elapsed == reading.elapsed
    &&& r.cpu == more(before.last_process, process)
    &&& r.children == child_usage(before.kids@, reading.kids@, k)
    &&& buckets(r.ranked@) == ranking(
        usage(before.threads@, reading.threads@, n),
        reading.elapsed as nat,
    )
    &&& r.renders == more(before.last_renders, reading.renders)
    &&& r.drops == more(before.last_dropped, reading.dropped)
    &&& after.threads@ == still_there(before.threads@, reading.threads@, n)
    &&& after.kids@ == kids_there(before.kids@, reading.kids@, k)
    &&& after.last_process == process
    &&& after.last_renders == reading.renders
    &&& after.last_dropped == reading.dropped
    &&& after.tick == next_tick(before.tick)
    &&& after.unaccounted == unexplained(
        r.cpu as nat,
        total(buckets(r.ranked@)),
        reading.elapsed as nat,
    )
}

/// The round after one, with the first after the last.
pub open spec fn next_tick(tick: u32) -> u32 {
    if tick < u32::MAX {
        (tick + 1) as u32
    } else {
        0
    }
}

fn turned(tick: u32) -> (r: u32)
    ensures
        r == next_tick(tick),
{
    if tick < 0xFFFF_FFFF {
        tick + 1
    } else {
        0
    }
}

impl Sampler {
    pub fn new(process: u64, renders: u64, dropped: u64) -> (r: Sampler)
        ensures
            r.threads@.len() == 0,
            r.kids@.len() == 0,
            r.last_process == process,
            r.last_renders == renders,
            r.last_dropped == dropped,
            r.tick == 0,
            !r.unaccounted,
    {
        Sampler {
            threads: Vec::new(),
            kids: Vec::new(),
            last_process: process,
            last_renders: renders,
            last_dropped: dropped,
            tick: 0,
            unaccounted: false,
        }
    }

    /// Whether to look for threads and children that did not exist yet: on a
    /// cadence, and right after any sample that could not account for what it
    /// measured.
    pub fn rescan_due(&self) -> (r: bool)
        ensures
            r == (self.tick % RESCAN_EVERY == 0 || self.unaccounted),
    {
        self.tick % RESCAN_EVERY == 0 || self.unaccounted
    }

    /// A thread that was found by a rescan, and what it has used so far. One
    /// that is known already stays as it is.
    pub fn meet_thread(&mut self, tid: u32, name: String, last: u64)
        ensures
            *final(self) == (Sampler { threads: final(self).threads, ..*old(self) }),
            final(self).threads@ == (if exists|i: int|
                0 <= i < old(self).threads@.len() && (#[trigger] old(self).threads@[i]).tid == tid {
                old(self).threads@
            } else {
                old(self).threads@.push(ThreadSeen { tid, name, last })
            }),
    {
        let mut i: usize = 0;
        while i < self.threads.len()
            invariant
                i <= self.threads@.len(),
                forall|k: int| 0 <= k < i ==> (#[trigger] self.threads@[k]).tid != tid,
                *self == *old(self),
            decreases self.threads.len() - i,
        {
            if self.threads[i].tid == tid {
                return ;
            }
            i += 1;
        }
        self.threads.push(ThreadSeen { tid, name, last });
    }

    /// A child that was found by a rescan.
    pub fn meet_child(&mut self, pid: u32, last: u64)
        ensures
            *final(self) == (Sampler { kids: final(self).kids, ..*old(self) }),
            final(self).kids@ == (if exists|i: int|
                0 <= i < old(self).kids@.len() && (#[trigger] old(self).kids@[i]).pid == pid {
                old(self).kids@
            } else {
                old(self).kids@.push(ChildSeen { pid, last })
            }),
    {
        let mut i: usize = 0;
        while i < self.kids.len()
            invariant
                i <= self.kids@.len(),
                forall|k: int| 0 <= k < i ==> (#[trigger] self.kids@[k]).pid != pid,
                *self == *old(self),
            decreases self.kids.len() - i,
        {
            if self.kids[i].pid == pid {
                return ;
            }
            i += 1;
        }
        self.kids.push(ChildSeen { pid, last });
    }

    /// A round in which no time went by: there is nothing to measure, and it
    /// counts as a round all the same.
    pub fn pass(&mut self)
        ensures
            *final(self) == (Sampler {
                tick: next_tick(old(self).tick),
                unaccounted: false,
                ..*old(self)
            }),
    {
        self.tick = turned(self.tick);
        self.unaccounted = false;
    }

    /// One sample.
    pub fn sample(&mut self, reading: &Reading) -> (r: Sample)
        requires
            fits(*old(self), *reading),
        ensures
            measured(*old(self), *reading, *final(self), r),
    {
        let process: u64 = match reading.process {
            Some(ticks) => ticks,
            None => self.last_process,
        };
        let cpu: u64 = growth(self.last_process, process);
        let renders: u64 = growth(self.last_renders, reading.renders);
        let drops: u64 = growth(self.last_dropped, reading.dropped);
        let (by_name, threads) = tally(&self.threads, &reading.threads);
        let (children, kids) = tally_kids(&self.kids, &reading.kids);
        proof {
            lemma_usage_bound(self.threads@, reading.threads@, self.threads@.len() as int);
            lemma_ranking_total(buckets(by_name@), reading.elapsed as nat);
        }
        let ranked = rank(by_name, reading.elapsed);
        let named: u128 = total_of(&ranked);
        self.threads = threads;
        self.kids = kids;
        self.last_process = process;
        self.last_renders = reading.renders;
        self.last_dropped = reading.dropped;
        self.tick = turned(self.tick);
        self.unaccounted = cpu as u128 * 20 > reading.elapsed as u128 && named * 5 < cpu as u128
            * 4;
        Sample { elapsed: reading.elapsed, cpu, children, ranked, renders, drops }
    }
}

fn tally(threads: &Vec<ThreadSeen>, now: &Vec<Option<u64>>) -> (r: (Vec<Bucket>, Vec<ThreadSeen>))
    requires
        now@.len() == threads@.len(),
        threads@.len() <= 0xFFFF_FFFF,
    ensures
        buckets(r.0@) == usage(threads@, now@, threads@.len() as int),
        r.1@ == still_there(threads@, now@, threads@.len() as int),
{
    let mut by_name: Vec<Bucket> = Vec::new();
    let mut there: Vec<ThreadSeen> = Vec::new();
    let mut i: usize = 0;
    assert(buckets(by_name@) =~= Seq::empty());
    while i < threads.len()
        invariant
            i <= threads@.len(),
            now@.len() == threads@.len(),
            threads@.len() <= 0xFFFF_FFFF,
            buckets(by_name@) == usage(threads@, now@, i as int),
            there@ == still_there(threads@, now@, i as int),
        decreases threads.len() - i,
    {
        proof {
            lemma_usage_bound(threads@, now@, i as int);
        }
        match now[i] {
            Some(ticks) => {
                let last: u64 = threads[i].last;
                if ticks > last {
                    charge(&mut by_name, &threads[i].name, ticks - last);
                }
                there.push(
                    ThreadSeen { tid: threads[i].tid, name: threads[i].name.clone(), last: ticks },
                );
            },
            None => {},
        }
        i += 1;
    }
    (by_name, there)
}

fn tally_kids(kids: &Vec<ChildSeen>, now: &Vec<Option<u64>>) -> (r: (u128, Vec<ChildSeen>))
    requires
        now@.len() == kids@.len(),
        kids@.len() <= 0xFFFF_FFFF,
    ensures
        r.0 == child_usage(kids@, now@, kids@.len() as int),
        r.0 <= 0xFFFF_FFFF * 0xFFFF_FFFF_FFFF_FFFF,
        r.1@ == kids_there(kids@, now@, kids@.len() as int),
{
    let mut sum: u128 = 0;
    let mut there: Vec<ChildSeen> = Vec::new();
    let mut i: usize = 0;
    while i < kids.len()
        invariant
            i <= kids@.len(),
            now@.len() == kids@.len(),
            kids@.len() <= 0xFFFF_FFFF,
            sum == child_usage(kids@, now@, i as int),
            sum <= i * 0xFFFF_FFFF_FFFF_FFFF,
            there@ == kids_there(kids@, now@, i as int),
        decreases kids.len() - i,
    {
        match now[i] {
            Some(ticks) => {
                let last: u64 = kids[i].last;
                if ticks > last {
                    sum = sum + (ticks - last) as u128;
                }
                there.push(ChildSeen { pid: kids[i].pid, last: ticks });
            },
            None => {},
        }
        i += 1;
    }
    (sum, there)
}

// ── The row ──────────────────────────────────────────────────────────

/// The share of one core that `ticks` are, in tenths of a percent.
pub open spec fn share(ticks: nat, elapsed: nat) -> nat {
    double::nearest(ticks * 1000, elapsed)
}

/// A share as it is written.
pub open spec fn share_text(ticks: nat, elapsed: nat) -> Seq<char> {
    browse::one_place(share(ticks, elapsed))
}

fn push_tenths(out: &mut String, n: u128)
    ensures
        final(out)@ == old(out)@ + browse::one_place(n as nat),
{
    text::push_wide(out, n / 10);
    out.append(".");
    text::push_decimal(out, (n % 10) as u64);
    assert(out@ =~= old(out)@ + browse::one_place(n as nat));
}

fn share_of(ticks: u128, elapsed: u64) -> (r: String)
    requires
        elapsed > 0,
        ticks < 0x1_0000_0000_0000_0000_0000_0000_0000,
    ensures
        r@ == share_text(ticks as nat, elapsed as nat),
{
    let n: u128 = double::nearest_of(ticks * 1000, elapsed as u128);
    let mut out = String::new();
    push_tenths(&mut out, n);
    assert(out@ =~= share_text(ticks as nat, elapsed as nat));
    out
}

/// The worst of the looks between two rows, in tenths of a percent: this look
/// or one before.
pub fn peak_of(peak: u128, used: u64, over: u64) -> (r: u128)
    ensures
        r == (if over > 0 && share(used as nat, over as nat) > peak {
            share(used as nat, over as nat)
        } else {
            peak as nat
        }),
{
    if over == 0 {
        return peak;
    }
    let n: u128 = double::nearest_of(used as u128 * 1000, over as u128);
    if n > peak {
        n
    } else {
        peak
    }
}

/// Each name with its share of one core.
pub open spec fn breakdown(ranked: Seq<(Seq<char>, nat)>, elapsed: nat) -> Seq<Seq<char>> {
    Seq::new(ranked.len(), |i: int| ranked[i].0 + "="@ + share_text(ranked[i].1, elapsed))
}

fn breakdown_of(ranked: &Vec<Bucket>, elapsed: u64) -> (r: String)
    requires
        elapsed > 0,
        forall|i: int|
            0 <= i < ranked@.len() ==> (#[trigger] ranked@[i]).ticks
                < 0x1_0000_0000_0000_0000_0000_0000_0000,
    ensures
        r@ == text::joined(breakdown(buckets(ranked@), elapsed as nat), " "@),
{
    let mut parts: Vec<String> = Vec::new();
    let mut i: usize = 0;
    while i < ranked.len()
        invariant
            i <= ranked@.len(),
            elapsed > 0,
            forall|k: int|
                0 <= k < ranked@.len() ==> (#[trigger] ranked@[k]).ticks
                    < 0x1_0000_0000_0000_0000_0000_0000_0000,
            parts@.len() == i,
            forall|k: int|
                0 <= k < i ==> (#[trigger] parts@[k])@ == breakdown(
                    buckets(ranked@),
                    elapsed as nat,
                )[k],
        decreases ranked.len() - i,
    {
        let ghost one = ranked@[i as int];
        let percent = share_of(ranked[i].ticks, elapsed);
        parts.push(text::concat3(ranked[i].name.as_str(), "=", percent.as_str()));
        i += 1;
    }
    assert(text::texts(parts@) =~= breakdown(buckets(ranked@), elapsed as nat));
    text::join(parts.as_slice(), " ")
}

/// What the system says beside a sample.
#[derive(Debug, Clone)]
pub struct Surroundings {
    /// The local time, as it is written.
    pub time: String,
    /// Ticks since the sampler started.
    pub uptime: u64,
    pub cores: usize,
    /// Tenths of a percent, of the worst look.
    pub peak: u128,
    pub focused: bool,
    pub visible: bool,
    pub private_bytes: u64,
    pub working_set_bytes: u64,
    pub handles: u32,
}

pub open spec fn truth(b: bool) -> Seq<char> {
    if b {
        "true"@
    } else {
        "false"@
    }
}

/// The cells of a row, in the order of the header.
pub open spec fn cells(
    sample: Sample,
    activity: Activity,
    around: Surroundings,
    threads: nat,
) -> Seq<Seq<char>> {
    let elapsed = sample.elapsed as nat;
    seq![
        around.time@,
        text::decimal(double::nearest(around.uptime as nat, TICKS as nat)),
        text::decimal(around.cores as nat),
        share_text(sample.cpu as nat, elapsed),
        browse::one_place(around.peak as nat),
        share_text(sample.children as nat, elapsed),
        browse::one_place(double::nearest((sample.renders * 100_000_000) as nat, elapsed)),
        text::decimal(sample.drops as nat),
        cpu_log::page_text(activity.page),
        text::decimal(activity.panes as nat),
        text::decimal(activity.playing as nat),
        cpu_log::decoded(activity.software, activity.hardware),
        cpu_log::size_text(activity.render_size),
        truth(around.focused),
        truth(around.visible),
        text::decimal(double::nearest(around.private_bytes as nat, 1_048_576)),
        text::decimal(double::nearest(around.working_set_bytes as nat, 1_048_576)),
        text::decimal(threads),
        text::decimal(around.handles as nat),
        text::decimal(activity.cache_ready as nat),
        text::decimal(activity.cache_inflight as nat),
        "\""@ + text::joined(breakdown(buckets(sample.ranked@), elapsed), " "@) + "\""@,
    ]
}

fn number(n: u128) -> (r: String)
    ensures
        r@ == text::decimal(n as nat),
{
    let mut out = String::new();
    text::push_wide(&mut out, n);
    assert(out@ =~= text::decimal(n as nat));
    out
}

fn said(b: bool) -> (r: String)
    ensures
        r@ == truth(b),
{
    if b {
        "true".to_owned()
    } else {
        "false".to_owned()
    }
}

/// The first eleven cells of a row.
fn first_cells(sample: &Sample, activity: &Activity, around: &Surroundings) -> (r: Vec<String>)
    requires
        sample.elapsed > 0,
        sample.children < 0x1_0000_0000_0000_0000_0000_0000_0000,
    ensures
        text::texts(r@) == cells(*sample, *activity, *around, 0).take(11),
{
    let mut out: Vec<String> = Vec::new();
    out.push(around.time.clone());
    out.push(number(double::nearest_of(around.uptime as u128, TICKS as u128)));
    out.push(number(around.cores as u128));
    out.push(share_of(sample.cpu as u128, sample.elapsed));
    let mut peak = String::new();
    push_tenths(&mut peak, around.peak);
    assert(peak@ =~= browse::one_place(around.peak as nat));
    out.push(peak);
    out.push(share_of(sample.children, sample.elapsed));
    let mut renders = String::new();
    let rate: u128 = double::nearest_of(
        sample.renders as u128 * 100_000_000,
        sample.elapsed as u128,
    );
    push_tenths(&mut renders, rate);
    assert(renders@ =~= browse::one_place(rate as nat));
    out.push(renders);
    out.push(number(sample.drops as u128));
    out.push(cpu_log::page_name(activity).to_owned());
    out.push(number(activity.panes as u128));
    out.push(number(activity.playing as u128));
    assert(text::texts(out@) =~= cells(*sample, *activity, *around, 0).take(11));
    out
}

/// A row of the log. The largest size that was rendered at starts over with
/// every row.
pub fn row(sample: &Sample, activity: &mut Activity, around: &Surroundings, threads: usize) -> (r:
    String)
    requires
        sample.elapsed > 0,
        sample.children < 0x1_0000_0000_0000_0000_0000_0000_0000,
        forall|i: int|
            0 <= i < sample.ranked@.len() ==> (#[trigger] sample.ranked@[i]).ticks
                < 0x1_0000_0000_0000_0000_0000_0000_0000,
    ensures
        r@ == text::joined(cells(*sample, *old(activity), *around, threads as nat), ","@),
        *final(activity) == (Activity { render_size: 0, ..*old(activity) }),
{
    let ghost was = *activity;
    let mut out = first_cells(sample, activity, around);
    let ghost head = text::texts(out@);
    out.push(cpu_log::hwdec_name(activity).to_owned());
    out.push(cpu_log::render_size(activity));
    out.push(said(around.focused));
    out.push(said(around.visible));
    out.push(number(double::nearest_of(around.private_bytes as u128, 1_048_576)));
    out.push(number(double::nearest_of(around.working_set_bytes as u128, 1_048_576)));
    out.push(number(threads as u128));
    out.push(number(around.handles as u128));
    out.push(number(activity.cache_ready as u128));
    out.push(number(activity.cache_inflight as u128));
    let who = breakdown_of(&sample.ranked, sample.elapsed);
    out.push(text::concat3("\"", who.as_str(), "\""));
    proof {
        let all = cells(*sample, was, *around, threads as nat);
        let t = text::texts(out@);
        assert(cells(*sample, was, *around, 0).len() == 22);
        assert(head.len() == 11);
        assert(t.len() == 22 && all.len() == 22);
        assert(cells(*sample, was, *around, 0).take(11) =~= all.take(11));
        assert forall|i: int| 0 <= i < 22 implies t[i] == all[i] by {
            if i < 11 {
                assert(head[i] == all.take(11)[i]);
            }
        }
        assert(t =~= all);
    }
    text::join(out.as_slice(), ",")
}

// ── Laws ─────────────────────────────────────────────────────────────

/// The ticks that the first `n` threads used, whatever they are called.
pub open spec fn used(threads: Seq<ThreadSeen>, now: Seq<Option<u64>>, n: int) -> nat
    decreases n,
{
    if n <= 0 {
        0
    } else {
        used(threads, now, n - 1) + (match now[n - 1] {
            Some(ticks) => more(threads[n - 1].last, ticks) as nat,
            None => 0,
        })
    }
}

/// Every tick that a thread used is charged to some name, and to no other.
pub proof fn law_every_tick_is_charged_once(
    threads: Seq<ThreadSeen>,
    now: Seq<Option<u64>>,
    n: int,
)
    ensures
        total(usage(threads, now, n)) == used(threads, now, n),
    decreases n,
{
    if n > 0 {
        law_every_tick_is_charged_once(threads, now, n - 1);
        match now[n - 1] {
            Some(ticks) => {
                if ticks > threads[n - 1].last {
                    lemma_charged_total(
                        usage(threads, now, n - 1),
                        threads[n - 1].name@,
                        (ticks - threads[n - 1].last) as nat,
                    );
                }
            },
            None => {},
        }
    }
}

/// A row names the busiest first, and nobody who used next to nothing.
pub proof fn law_the_busiest_is_named_first(list: Seq<(Seq<char>, nat)>, elapsed: nat)
    ensures
        forall|i: int, j: int|
            0 <= i < j < ranking(list, elapsed).len() ==> (#[trigger] ranking(list, elapsed)[i]).1
                >= (#[trigger] ranking(list, elapsed)[j]).1,
        forall|i: int|
            0 <= i < ranking(list, elapsed).len() ==> (#[trigger] ranking(list, elapsed)[i]).1
                * 2000 >= elapsed,
    decreases list.len(),
{
    if list.len() > 0 {
        let before = ranking(list.drop_last(), elapsed);
        law_the_busiest_is_named_first(list.drop_last(), elapsed);
        if list.last().1 * 2000 >= elapsed {
            let used = list.last().1;
            let at = weighed::place(ticks_used(before), used);
            let all = ranking(list, elapsed);
            weighed::lemma_place(ticks_used(before), used);
            assert(weighed::descending(ticks_used(before))) by {
                assert forall|i: int, j: int|
                    0 <= i < j < before.len() implies #[trigger] ticks_used(before)[i]
                    >= #[trigger] ticks_used(before)[j] by {
                    assert(before[i].1 >= before[j].1);
                }
            }
            weighed::lemma_stays_descending(ticks_used(before), used);
            assert(ticks_used(all) =~= ticks_used(before).insert(at, used));
            assert forall|i: int, j: int| 0 <= i < j < all.len() implies (#[trigger] all[i]).1 >= (
            #[trigger] all[j]).1 by {
                assert(ticks_used(all)[i] >= ticks_used(all)[j]);
            }
            assert forall|i: int| 0 <= i < all.len() implies (#[trigger] all[i]).1 * 2000
                >= elapsed by {
                if i < at {
                    assert(all[i] == before[i]);
                } else if i > at {
                    assert(all[i] == before[i - 1]);
                }
            }
        }
    }
}

/// A thread that has gone is forgotten, and one that is there is charged from
/// here on only for what it uses next.
pub proof fn law_nothing_is_charged_twice(before: Sampler, reading: Reading, after: Sampler, r: Sample)
    requires
        fits(before, reading),
        measured(before, reading, after, r),
    ensures
        after.threads@.len() <= before.threads@.len(),
        used(
            after.threads@,
            Seq::new(after.threads@.len(), |i: int| Some(after.threads@[i].last)),
            after.threads@.len() as int,
        ) == 0,
{
    lemma_still_there_len(before.threads@, reading.threads@, before.threads@.len() as int);
    let now = Seq::new(after.threads@.len(), |i: int| Some(after.threads@[i].last));
    lemma_unused(after.threads@, now, after.threads@.len() as int);
}

proof fn lemma_still_there_len(threads: Seq<ThreadSeen>, now: Seq<Option<u64>>, n: int)
    requires
        n >= 0,
    ensures
        still_there(threads, now, n).len() <= n,
    decreases n,
{
    if n > 0 {
        lemma_still_there_len(threads, now, n - 1);
    }
}

proof fn lemma_unused(threads: Seq<ThreadSeen>, now: Seq<Option<u64>>, n: int)
    requires
        0 <= n <= threads.len(),
        now.len() == threads.len(),
        forall|i: int| 0 <= i < threads.len() ==> #[trigger] now[i] == Some(threads[i].last),
    ensures
        used(threads, now, n) == 0,
    decreases n,
{
    if n > 0 {
        lemma_unused(threads, now, n - 1);
        assert(now[n - 1] == Some(threads[n - 1].last));
    }
}

/// A share is what was used of what went by, in tenths of a percent, to the
/// nearest: nothing is none, all of it is a hundred percent, and twice as much
/// is no less.
pub proof fn law_a_share_is_of_what_went_by(less: nat, more: nat, elapsed: nat)
    requires
        elapsed > 0,
        less <= more,
    ensures
        share(0, elapsed) == 0,
        share(elapsed, elapsed) == 1000,
        2 * less * 1000 - elapsed <= 2 * (share(less, elapsed) * elapsed) <= 2 * less * 1000
            + elapsed,
        share_text(less, elapsed) == text::decimal(share(less, elapsed) / 10) + "."@
            + text::decimal(share(less, elapsed) % 10),
{
    let e = elapsed as int;
    assert(0 * e == 0) by (nonlinear_arith);
    double::lemma_nearest_is(0, elapsed, 0);
    double::lemma_nearest_is(elapsed * 1000, elapsed, 1000);
    double::lemma_nearest(less * 1000, elapsed);
}

/// The threads are looked for again exactly after a sample that used more than a
/// twentieth of a core and could name less than four fifths of it.
pub proof fn law_much_unexplained_means_looking_again(cpu: nat, named: nat, elapsed: nat)
    ensures
        unexplained(cpu, named, elapsed) <==> 20 * cpu > elapsed && 5 * named < 4 * cpu,
        named >= cpu ==> !unexplained(cpu, named, elapsed),
        more(3, 10) == 7,
{
}

/// A counter has grown by the difference, and one that started over by nothing.
pub proof fn law_a_counter_grows_by_the_difference(before: u64, now: u64)
    ensures
        now >= before ==> before + more(before, now) == now,
        now < before ==> more(before, now) == 0,
{
}

/// What is charged to a name is on that name alone, once.
pub proof fn law_a_name_is_charged_alone(
    list: Seq<(Seq<char>, nat)>,
    name: Seq<char>,
    ticks: nat,
    other: (Seq<char>, nat),
)
    ensures
        (forall|i: int| 0 <= i < list.len() ==> (#[trigger] list[i]).0 != name) ==> charged(
            list,
            name,
            ticks,
        ) == list.push((name, ticks)),
        charged(list, name, ticks).len() <= list.len() + 1,
        other.0 != name ==> (charged(list, name, ticks).contains(other) <==> list.contains(other)),
        total(charged(list, name, ticks)) == total(list) + ticks,
    decreases list.len(),
{
    lemma_charged_total(list, name, ticks);
    let all = charged(list, name, ticks);
    if list.len() == 0 {
        assert(all =~= list.push((name, ticks)));
        if all.contains(other) {
            let k = choose|k: int| 0 <= k < all.len() && all[k] == other;
        }
    } else {
        let rest = list.drop_first();
        law_a_name_is_charged_alone(rest, name, ticks, other);
        if list[0].0 == name {
            let one = (name, list[0].1 + ticks);
            assert(all =~= seq![one] + rest);
            if other.0 != name {
                if list.contains(other) {
                    let k = choose|k: int| 0 <= k < list.len() && list[k] == other;
                    assert(all[k] == other);
                }
                if all.contains(other) {
                    let k = choose|k: int| 0 <= k < all.len() && all[k] == other;
                    assert(list[k] == other);
                }
            }
        } else {
            let inner = charged(rest, name, ticks);
            assert(all =~= seq![list[0]] + inner);
            if forall|i: int| 0 <= i < list.len() ==> (#[trigger] list[i]).0 != name {
                assert forall|i: int| 0 <= i < rest.len() implies (#[trigger] rest[i]).0 != name by {
                    assert(list[i + 1].0 != name);
                }
                assert(all =~= list.push((name, ticks)));
            }
            if other.0 != name {
                if list.contains(other) {
                    let k = choose|k: int| 0 <= k < list.len() && list[k] == other;
                    if k > 0 {
                        assert(rest[k - 1] == other);
                        let j = choose|j: int| 0 <= j < inner.len() && inner[j] == other;
                        assert(all[j + 1] == other);
                    } else {
                        assert(all[0] == other);
                    }
                }
                if all.contains(other) {
                    let k = choose|k: int| 0 <= k < all.len() && all[k] == other;
                    if k > 0 {
                        assert(inner[k - 1] == other);
                        let j = choose|j: int| 0 <= j < rest.len() && rest[j] == other;
                        assert(list[j + 1] == other);
                    } else {
                        assert(list[0] == other);
                    }
                }
            }
        }
    }
}

/// A sample says what was used since the one before, by the process, by its
/// children and by what it drew, and is what the next one goes on from.
pub proof fn law_a_sample_is_since_the_one_before(
    before: Sampler,
    reading: Reading,
    after: Sampler,
    r: Sample,
)
    requires
        fits(before, reading),
        measured(before, reading, after, r),
    ensures
        r.elapsed == reading.elapsed,
        reading.process matches Some(ticks) ==> after.last_process == ticks && (ticks
            >= before.last_process ==> before.last_process + r.cpu == ticks),
        reading.process is None ==> r.cpu == 0 && after.last_process == before.last_process,
        reading.renders >= before.last_renders ==> before.last_renders + r.renders
            == reading.renders,
        reading.dropped >= before.last_dropped ==> before.last_dropped + r.drops == reading.dropped,
        after.last_renders == reading.renders,
        after.last_dropped == reading.dropped,
        before.kids@.len() == 0 ==> r.children == 0,
        before.tick < u32::MAX ==> after.tick == before.tick + 1,
        before.tick == u32::MAX ==> after.tick == 0,
        before.threads@.len() == 0 ==> after.threads@.len() == 0,
{
}

/// Whoever has gone is forgotten, and whoever is there is kept in order with
/// what it has used now; what children used is what each used, together.
pub proof fn law_who_is_there_is_kept(
    threads: Seq<ThreadSeen>,
    kids: Seq<ChildSeen>,
    now: Seq<Option<u64>>,
    n: int,
)
    requires
        0 < n <= now.len(),
        n <= threads.len(),
        n <= kids.len(),
    ensures
        now[n - 1] is None ==> still_there(threads, now, n) == still_there(threads, now, n - 1)
            && kids_there(kids, now, n) == kids_there(kids, now, n - 1) && child_usage(
            kids,
            now,
            n,
        ) == child_usage(kids, now, n - 1) && usage(threads, now, n) == usage(threads, now, n - 1),
        now[n - 1] matches Some(ticks) ==> {
            let there = still_there(threads, now, n);
            let children = kids_there(kids, now, n);
            &&& there.len() == still_there(threads, now, n - 1).len() + 1
            &&& there.last().tid == threads[n - 1].tid
            &&& there.last().name == threads[n - 1].name
            &&& there.last().last == ticks
            &&& children.last().pid == kids[n - 1].pid
            &&& children.last().last == ticks
            &&& ticks >= kids[n - 1].last ==> child_usage(kids, now, n) == child_usage(
                kids,
                now,
                n - 1,
            ) + (ticks - kids[n - 1].last)
        },
{
}

/// A row has a cell for each column, and each says what its column is for.
pub proof fn law_a_row_has_a_cell_for_each_column(
    sample: Sample,
    activity: Activity,
    around: Surroundings,
    threads: nat,
)
    ensures
        ({
            let row = cells(sample, activity, around, threads);
            &&& row.len() == 22
            &&& row[0] == around.time@
            &&& row[2] == text::decimal(around.cores as nat)
            &&& row[3] == share_text(sample.cpu as nat, sample.elapsed as nat)
            &&& row[5] == share_text(sample.children as nat, sample.elapsed as nat)
            &&& row[7] == text::decimal(sample.drops as nat)
            &&& row[9] == text::decimal(activity.panes as nat)
            &&& row[10] == text::decimal(activity.playing as nat)
            &&& row[13] == "true"@ <==> around.focused
            &&& row[14] == "true"@ <==> around.visible
            &&& row[17] == text::decimal(threads)
            &&& row[18] == text::decimal(around.handles as nat)
            &&& row[19] == text::decimal(activity.cache_ready as nat)
            &&& row[20] == text::decimal(activity.cache_inflight as nat)
        }),
{
    reveal_strlit("true");
    reveal_strlit("false");
    assert("true"@.len() != "false"@.len());
}

/// Each thread of a breakdown stands by its name, with its share behind an
/// equals sign, in the order of the ranking.
pub proof fn law_a_breakdown_names_each_thread(ranked: Seq<(Seq<char>, nat)>, elapsed: nat, i: int)
    requires
        0 <= i < ranked.len(),
    ensures
        breakdown(ranked, elapsed).len() == ranked.len(),
        breakdown(ranked, elapsed)[i].take(ranked[i].0.len() as int) == ranked[i].0,
        breakdown(ranked, elapsed)[i][ranked[i].0.len() as int] == '=',
        breakdown(ranked, elapsed)[i].skip(ranked[i].0.len() as int + 1) == share_text(
            ranked[i].1,
            elapsed,
        ),
{
    reveal_strlit("=");
    let entry = breakdown(ranked, elapsed)[i];
    let n = ranked[i].0.len() as int;
    assert(entry == ranked[i].0 + "="@ + share_text(ranked[i].1, elapsed));
    assert(entry.take(n) =~= ranked[i].0);
    assert(entry.skip(n + 1) =~= share_text(ranked[i].1, elapsed));
}

/// What went by in a sample is told by the second: what was drawn, to a tenth,
/// and how long the app has been up, to the second. Memory is told to the
/// mebibyte. The threads stand last, in quotation marks, as they hold spaces.
pub proof fn law_a_row_counts_by_the_second(
    sample: Sample,
    activity: Activity,
    around: Surroundings,
    threads: nat,
)
    ensures
        ({
            let row = cells(sample, activity, around, threads);
            let elapsed = sample.elapsed as nat;
            &&& row[1] == text::decimal(double::nearest(around.uptime as nat, 10_000_000))
            &&& row[4] == browse::one_place(around.peak as nat)
            &&& row[6] == browse::one_place(
                double::nearest((10 * (sample.renders * 10_000_000)) as nat, elapsed),
            )
            &&& row[8] == cpu_log::page_text(activity.page)
            &&& row[11] == cpu_log::decoded(activity.software, activity.hardware)
            &&& row[12] == cpu_log::size_text(activity.render_size)
            &&& row[15] == text::decimal(
                double::nearest(around.private_bytes as nat, (1024 * 1024) as nat),
            )
            &&& row[16] == text::decimal(
                double::nearest(around.working_set_bytes as nat, (1024 * 1024) as nat),
            )
            &&& row[21] == "\""@ + text::joined(
                breakdown(buckets(sample.ranked@), elapsed),
                " "@,
            ) + "\""@
        }),
{
}

} // verus!
