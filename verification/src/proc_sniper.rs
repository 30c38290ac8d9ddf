//! The processes that use the most, and signals to them.
//!
//! The system is asked outside, twice with a gap between. Here stands what its
//! answers say, how the processes are ranked, and which signals are sent.

use vstd::prelude::*;
use vstd::slice::slice_subrange;

use crate::cuts::{law_numbers_read_back, law_places_of_a_character};
use crate::events::{Event, EventKind, EventView};
use crate::order::{is_sorted, lemma_sort, sort, sort_by, total_order};
use crate::palette::provider::at_most;
use crate::palette::score::{less, rank};
use crate::text;
use crate::text::{decimal, decimal_int, last_index_of, parse_max, rows, trim, words};

verus! {

/// How many processes are shown.
pub const TOP_N: usize = 5;

/// The size of a page in kibibytes.
pub const PAGE_KB: u64 = 4;

// ---------------------------------------------------------------------------
// What the system says
// ---------------------------------------------------------------------------

/// The number that a field holds, if it holds one.
pub open spec fn field(fields: Seq<Seq<char>>, i: int) -> Option<nat> {
    if i < fields.len() {
        parse_max(fields[i], u64::MAX as nat)
    } else {
        None
    }
}

/// The time that a process has used, from its `stat`: the twelfth and the
/// thirteenth field behind the name, which ends with the last parenthesis.
pub open spec fn jiffies_in(stat: Seq<char>) -> Option<nat> {
    match last_index_of(stat, ')') {
        Some(i) => {
            let fields = words(stat.skip(i + 1));
            match (field(fields, 11), field(fields, 12)) {
                (Some(user), Some(system)) => Some(user + system),
                _ => None,
            }
        },
        None => None,
    }
}

/// The memory that a process holds, from its `statm`: the second field counts
/// pages. None where that cannot be read.
pub open spec fn resident_kb(statm: Option<Seq<char>>) -> nat {
    match statm {
        Some(s) => match field(words(s), 1) {
            Some(pages) => pages * PAGE_KB as nat,
            None => 0,
        },
        None => 0,
    }
}

/// What a process is called.
pub open spec fn process_name(pid: i32, comm: Option<Seq<char>>) -> Seq<char> {
    match comm {
        Some(c) => trim(c),
        None => "pid "@ + decimal_int(pid as int),
    }
}

fn read_field(fields: &[Vec<char>], i: usize) -> (r: Option<u64>)
    ensures
        match (r, field(rows(fields@), i as int)) {
            (Some(x), Some(y)) => x == y,
            (None, None) => true,
            _ => false,
        },
{
    if i < fields.len() {
        assert(rows(fields@)[i as int] == fields@[i as int]@);
        text::parse_chars(&fields[i], u64::MAX)
    } else {
        None
    }
}

/// The time that a process has used, from its `stat`.
pub fn proc_jiffies(stat: &str) -> (r: Option<u128>)
    ensures
        match (r, jiffies_in(stat@)) {
            (Some(x), Some(y)) => x == y,
            (None, None) => true,
            _ => false,
        },
{
    let cs = text::chars(stat);
    let len: usize = cs.len();
    match text::last_index_chars(&cs, ')') {
        Some(i) => {
            let behind = slice_subrange(&cs, i + 1, len);
            assert(behind@ =~= stat@.skip(i + 1));
            let fields = text::words_chars(behind);
            match (read_field(&fields, 11), read_field(&fields, 12)) {
                (Some(user), Some(system)) => Some(user as u128 + system as u128),
                _ => None,
            }
        },
        None => None,
    }
}

/// The memory that a process holds, from its `statm`.
pub fn proc_rss_kb(statm: &Option<String>) -> (r: u128)
    ensures
        r == resident_kb(statm.deep_view()),
{
    match statm {
        Some(s) => {
            let cs = text::chars(s);
            let fields = text::words_chars(&cs);
            match read_field(&fields, 1) {
                Some(pages) => pages as u128 * PAGE_KB as u128,
                None => 0,
            }
        },
        None => 0,
    }
}

/// What a process is called.
pub fn proc_name(pid: i32, comm: &Option<String>) -> (r: String)
    ensures
        r@ == process_name(pid, comm.deep_view()),
{
    match comm {
        Some(c) => text::trimmed(c),
        None => text::concat2("pid ", &text::decimal_string_i64(pid as i64)),
    }
}

// ---------------------------------------------------------------------------
// Ranking
// ---------------------------------------------------------------------------

/// A process at the first look.
#[derive(Debug, Clone, PartialEq, Eq)]
pub struct EarlierSample {
    pub pid: i32,
    pub stat: String,
}

/// A process at the second look. What could not be read is missing.
#[derive(Debug, Clone, PartialEq, Eq)]
pub struct Sample {
    pub pid: i32,
    pub stat: String,
    pub comm: Option<String>,
    pub statm: Option<String>,
}

/// A process as it is shown.
#[derive(Debug, Clone, PartialEq, Eq)]
pub struct ProcRow {
    pub pid: i32,
    pub name: String,
    /// The share of a processor in percent, as the bit pattern of a double.
    pub cpu: u64,
    pub mem_kb: u128,
}

/// What a [`ProcRow`] holds.
pub struct ProcRowView {
    pub pid: i32,
    pub name: Seq<char>,
    pub cpu: u64,
    pub mem_kb: nat,
}

impl DeepView for ProcRow {
    type V = ProcRowView;

    open spec fn deep_view(&self) -> ProcRowView {
        ProcRowView {
            pid: self.pid,
            name: self.name@,
            cpu: self.cpu,
            mem_kb: self.mem_kb as nat,
        }
    }
}

/// The time that a process had used at the first look.
pub open spec fn earlier(first: Seq<EarlierSample>, pid: i32) -> Option<nat>
    decreases first.len(),
{
    if first.len() == 0 {
        None
    } else if first.last().pid == pid && jiffies_in(first.last().stat@) is Some {
        jiffies_in(first.last().stat@)
    } else {
        earlier(first.drop_last(), pid)
    }
}

/// The time that a process used between the looks. One that was not there at the
/// first look used none.
pub open spec fn used_between(first: Seq<EarlierSample>, pid: i32, used: nat) -> nat {
    match earlier(first, pid) {
        Some(before) => if used < before {
            0
        } else {
            (used - before) as nat
        },
        None => 0,
    }
}

/// A process that can be shown, and the time that it used.
pub struct Measured {
    pub sample: Sample,
    pub used: nat,
}

/// The processes that can be shown, in their order.
pub open spec fn measured(first: Seq<EarlierSample>, second: Seq<Sample>) -> Seq<Measured>
    decreases second.len(),
{
    if second.len() == 0 {
        Seq::empty()
    } else {
        let s = second.last();
        match jiffies_in(s.stat@) {
            Some(j) => measured(first, second.drop_last()).push(
                Measured { sample: s, used: used_between(first, s.pid, j) },
            ),
            None => measured(first, second.drop_last()),
        }
    }
}

/// A process as it is shown with a given share.
pub open spec fn row_of(m: Measured, cpu: u64) -> ProcRowView {
    ProcRowView {
        pid: m.sample.pid,
        name: process_name(m.sample.pid, m.sample.comm.deep_view()),
        cpu,
        mem_kb: resident_kb(m.sample.statm.deep_view()),
    }
}

/// Processes as they are shown with given shares.
pub open spec fn rows_of(all: Seq<Measured>, shares: Seq<u64>) -> Seq<ProcRowView> {
    Seq::new(all.len(), |i: int| row_of(all[i], shares[i]))
}

/// Whether `a` is shown before `b` or level with it: by memory where that is
/// asked for, else by the share of the processor; the larger first.
pub open spec fn uses_more(by_memory: bool, a: ProcRowView, b: ProcRowView) -> bool {
    if by_memory {
        a.mem_kb >= b.mem_kb
    } else {
        rank(a.cpu) >= rank(b.cpu)
    }
}

/// The processes that are shown.
pub open spec fn top_rows(all: Seq<ProcRowView>, by_memory: bool) -> Seq<ProcRowView> {
    at_most(
        sort(all, |a: ProcRowView, b: ProcRowView| uses_more(by_memory, a, b)),
        TOP_N as int,
    )
}

/// Whether the shares are ones that a function gives for the processes.
pub open spec fn shared<F: Fn(u128) -> u64>(percent: F, all: Seq<Measured>, shares: Seq<u64>) -> bool {
    &&& shares.len() == all.len()
    &&& forall|i: int|
        0 <= i < all.len() ==> call_ensures(percent, (all[i].used as u128,), #[trigger] shares[i])
}

fn used_earlier(first: &[EarlierSample], pid: i32) -> (r: Option<u128>)
    ensures
        match (r, earlier(first@, pid)) {
            (Some(x), Some(y)) => x == y,
            (None, None) => true,
            _ => false,
        },
{
    let mut n: usize = first.len();
    assert(first@.take(n as int) =~= first@);
    while n > 0
        invariant
            n <= first@.len(),
            earlier(first@, pid) == earlier(first@.take(n as int), pid),
        decreases n,
    {
        assert(first@.take(n as int).drop_last() =~= first@.take(n - 1));
        let s = &first[n - 1];
        if s.pid == pid {
            if let Some(j) = proc_jiffies(&s.stat) {
                return Some(j);
            }
        }
        n -= 1;
    }
    None
}

/// A signal that is sent.
#[derive(Debug, Clone, Copy, PartialEq, Eq, Structural)]
pub enum KillSignal {
    Term,
    Kill,
}

/// The signal that a name stands for. Only these two are ever sent.
pub open spec fn signal_named(name: Seq<char>) -> Option<KillSignal> {
    if name == "KILL"@ || name == "SIGKILL"@ {
        Some(KillSignal::Kill)
    } else if name == "TERM"@ || name == "SIGTERM"@ {
        Some(KillSignal::Term)
    } else {
        None
    }
}

/// The arguments of `kill` for a request: nothing where the signal is not one that
/// is sent, or the process is not one that signals are sent to.
pub open spec fn kill_arguments(pid: i32, signal: Seq<char>) -> Option<(Seq<char>, Seq<char>)> {
    match signal_named(signal) {
        Some(s) if pid > 1 => Some(
            (
                match s {
                    KillSignal::Kill => "-KILL"@,
                    KillSignal::Term => "-TERM"@,
                },
                decimal_int(pid as int),
            ),
        ),
        _ => None,
    }
}

/// What an event leads to.
#[derive(Debug, Clone, PartialEq, Eq)]
pub enum SniperStep {
    /// Nothing.
    Ignore,
    /// The processes are to be listed.
    List,
    /// `kill` is to be called with these arguments, then the processes are to be
    /// listed.
    KillAndList { signal: String, pid: String },
}

/// The contents of a [`SniperStep`].
pub enum SniperStepView {
    Ignore,
    List,
    KillAndList { signal: Seq<char>, pid: Seq<char> },
}

impl DeepView for SniperStep {
    type V = SniperStepView;

    open spec fn deep_view(&self) -> SniperStepView {
        match self {
            SniperStep::Ignore => SniperStepView::Ignore,
            SniperStep::List => SniperStepView::List,
            SniperStep::KillAndList { signal, pid } => SniperStepView::KillAndList {
                signal: signal@,
                pid: pid@,
            },
        }
    }
}

/// The module behind the list of processes.
#[derive(Debug, Clone, PartialEq, Eq)]
pub struct ProcessSniperModule {
    /// How the list was last asked to be ranked.
    pub current_sort: String,
}

impl ProcessSniperModule {
    pub fn new() -> (r: Self)
        ensures
            r.current_sort@ == "cpu"@,
    {
        ProcessSniperModule { current_sort: text::owned("cpu") }
    }

    /// The processes that use the most. `first` and `second` are what two looks at
    /// the system found; `percent` gives the share of the processor, as a bit
    /// pattern, for the time that a process used between them.
    pub fn publish_top<F: Fn(u128) -> u64>(
        &self,
        first: &[EarlierSample],
        second: &[Sample],
        percent: F,
    ) -> (r: Vec<ProcRow>)
        requires
            forall|used: u128| #[trigger] call_requires(percent, (used,)),
        ensures
            exists|shares: Seq<u64>| #[trigger]
                shared(percent, measured(first@, second@), shares) && r.deep_view() == top_rows(
                    rows_of(measured(first@, second@), shares),
                    self.current_sort@ == "mem"@,
                ),
    {
        let by_memory = text::same(&self.current_sort, "mem");
        let mut out: Vec<ProcRow> = Vec::new();
        let ghost mut shares: Seq<u64> = Seq::empty();
        let mut i: usize = 0;
        assert(out.deep_view() =~= rows_of(measured(first@, second@.take(0)), shares));
        while i < second.len()
            invariant
                i <= second@.len(),
                shared(percent, measured(first@, second@.take(i as int)), shares),
                out.deep_view() == rows_of(measured(first@, second@.take(i as int)), shares),
                forall|used: u128| #[trigger] call_requires(percent, (used,)),
            decreases second@.len() - i,
        {
            let ghost known = measured(first@, second@.take(i as int));
            let ghost before = out.deep_view();
            assert(second@.take(i + 1).drop_last() =~= second@.take(i as int));
            let s = &second[i];
            assert(second@.take(i + 1).last() == *s);
            if let Some(j) = proc_jiffies(&s.stat) {
                let used: u128 = match used_earlier(first, s.pid) {
                    Some(b) => if j < b {
                        0
                    } else {
                        j - b
                    },
                    None => 0,
                };
                let cpu = percent(used);
                let row = ProcRow {
                    pid: s.pid,
                    name: proc_name(s.pid, &s.comm),
                    cpu,
                    mem_kb: proc_rss_kb(&s.statm),
                };
                out.push(row);
                proof {
                    let more = measured(first@, second@.take(i + 1));
                    let s0 = shares;
                    shares = shares.push(cpu);
                    assert(more == known.push(Measured { sample: *s, used: used as nat }));
                    assert forall|k: int| 0 <= k < more.len() implies call_ensures(
                        percent,
                        (more[k].used as u128,),
                        #[trigger] shares[k],
                    ) by {
                        if k < known.len() {
                            assert(more[k] == known[k]);
                            assert(shares[k] == s0[k]);
                        }
                    }
                    assert(out.deep_view() =~= before.push(row.deep_view()));
                    assert(out.deep_view() =~= rows_of(more, shares));
                }
            }
            i += 1;
        }
        assert(second@.take(i as int) =~= second@);
        let ghost key = |x: ProcRow| x.deep_view();
        let ghost rel = |a: ProcRowView, b: ProcRowView| uses_more(by_memory, a, b);
        assert(out@.map_values(key) =~= out.deep_view());
        let le = |a: &ProcRow, b: &ProcRow| -> (o: bool)
            ensures
                o == uses_more(by_memory, a.deep_view(), b.deep_view()),
        {
            let below = if by_memory {
                a.mem_kb < b.mem_kb
            } else {
                less(a.cpu, b.cpu)
            };
            !below
        };
        let mut sorted = sort_by::<ProcRow, ProcRowView, _>(out, le, Ghost(key), Ghost(rel));
        assert(sorted@.map_values(key) =~= sorted.deep_view());
        let ghost sv = sorted.deep_view();
        if sorted.len() > TOP_N {
            sorted.truncate(TOP_N);
        }
        assert(sorted.deep_view() =~= at_most(sv, TOP_N as int));
        assert(sorted.deep_view() == top_rows(
            rows_of(measured(first@, second@), shares),
            by_memory,
        ));
        sorted
    }

    /// The arguments of `kill` for a request, where it is carried out.
    pub fn kill(pid: i32, signal: &str) -> (r: Option<(String, String)>)
        ensures
            match (r, kill_arguments(pid, signal@)) {
                (Some((a, b)), Some((x, y))) => a@ == x && b@ == y,
                (None, None) => true,
                _ => false,
            },
    {
        let flag = if text::same(signal, "KILL") || text::same(signal, "SIGKILL") {
            "-KILL"
        } else if text::same(signal, "TERM") || text::same(signal, "SIGTERM") {
            "-TERM"
        } else {
            return None;
        };
        if pid <= 1 {
            return None;
        }
        Some((text::owned(flag), text::decimal_string_i64(pid as i64)))
    }

    /// Handles an event.
    pub fn on_event(&mut self, event: &Event) -> (r: SniperStep)
        ensures
            match event.deep_view() {
                EventView::ProcessListRequested { sort } => final(self).current_sort@ == sort
                    && r.deep_view() == SniperStepView::List,
                EventView::ProcessKillRequested { pid, signal } => final(self).current_sort@
                    == old(self).current_sort@ && r.deep_view() == (match kill_arguments(
                    pid,
                    signal,
                ) {
                    Some((s, p)) => SniperStepView::KillAndList { signal: s, pid: p },
                    None => SniperStepView::List,
                }),
                _ => final(self).current_sort@ == old(self).current_sort@ && r.deep_view()
                    == SniperStepView::Ignore,
            },
    {
        match event {
            Event::ProcessListRequested { sort } => {
                self.current_sort = sort.clone();
                SniperStep::List
            },
            Event::ProcessKillRequested { pid, signal } => match Self::kill(*pid, signal) {
                Some((flag, target)) => SniperStep::KillAndList { signal: flag, pid: target },
                None => SniperStep::List,
            },
            _ => SniperStep::Ignore,
        }
    }

    /// The kinds of event that the module listens to.
    pub fn subscribed_events(&self) -> (r: Vec<EventKind>)
        ensures
            r@ == seq![EventKind::ProcessListRequested, EventKind::ProcessKillRequested],
    {
        let r: Vec<EventKind> = vec![EventKind::ProcessListRequested, EventKind::ProcessKillRequested];
        assert(r@ =~= seq![EventKind::ProcessListRequested, EventKind::ProcessKillRequested]);
        r
    }
}

// ---------------------------------------------------------------------------
// Laws
// ---------------------------------------------------------------------------

/// Whatever is asked for, a signal is only ever sent to a process above the
/// first, and it is one of the two that are allowed.
pub proof fn law_only_allowed_signals_are_sent(pid: i32, signal: Seq<char>)
    ensures
        kill_arguments(pid, signal) matches Some((flag, _)) ==> pid > 1 && (flag == "-KILL"@
            || flag == "-TERM"@),
        pid <= 1 ==> kill_arguments(pid, signal) is None,
        kill_arguments(pid, signal) is Some ==> signal == "KILL"@ || signal == "SIGKILL"@
            || signal == "TERM"@ || signal == "SIGTERM"@,
{
}

/// The processes that are shown use the most: they are in order, and none that is
/// left out uses more than one that is shown.
pub proof fn law_the_largest_are_shown(all: Seq<ProcRowView>, by_memory: bool)
    ensures
        top_rows(all, by_memory).len() == if all.len() <= TOP_N {
            all.len() as int
        } else {
            TOP_N as int
        },
        is_sorted(
            top_rows(all, by_memory),
            |a: ProcRowView, b: ProcRowView| uses_more(by_memory, a, b),
        ),
        forall|k: int, x: ProcRowView|
            0 <= k < top_rows(all, by_memory).len() && #[trigger] all.contains(x)
                && !top_rows(all, by_memory).contains(x) ==> uses_more(
                by_memory,
                #[trigger] top_rows(all, by_memory)[k],
                x,
            ),
{
    broadcast use vstd::seq_lib::group_to_multiset_ensures;

    let le = |a: ProcRowView, b: ProcRowView| uses_more(by_memory, a, b);
    let full = sort(all, le);
    let out = top_rows(all, by_memory);
    assert(total_order(le));
    lemma_sort(all, le);
    assert forall|k: int, x: ProcRowView|
        0 <= k < out.len() && #[trigger] all.contains(x) && !out.contains(x) implies uses_more(
        by_memory,
        #[trigger] out[k],
        x,
    ) by {
        assert(all.to_multiset().count(x) > 0);
        assert(full.contains(x));
        let j = choose|j: int| 0 <= j < full.len() && full[j] == x;
        assert(out[k] == full[k]);
        if j < out.len() {
            assert(out[j] == x);
        }
        assert(le(full[k], full[j]));
    }
}

/// The time that a process has used is the sum of the twelfth and the thirteenth word
/// behind its name. The name ends at the last closing bracket, so it may hold spaces and
/// brackets.
pub proof fn law_used_time_stands_behind_the_name(
    before: Seq<char>,
    behind: Seq<char>,
    user: u64,
    system: u64,
)
    requires
        !behind.contains(')'),
        words(behind).len() > 12,
        words(behind)[11] == decimal(user as nat),
        words(behind)[12] == decimal(system as nat),
    ensures
        jiffies_in(before + seq![')'] + behind) == Some((user + system) as nat),
        jiffies_in(behind) is None,
{
    let s = before + seq![')'] + behind;
    law_places_of_a_character(s, ')');
    law_places_of_a_character(behind, ')');
    let n = before.len() as int;
    assert(s[n] == ')');
    assert(s.contains(')'));
    let i = last_index_of(s, ')')->0;
    if i > n {
        assert(behind[i - n - 1] == ')');
    }
    assert(s.skip(n + 1) =~= behind);
    law_numbers_read_back(user as nat);
    law_numbers_read_back(system as nat);
}

/// The memory of a process is four kilobytes for each page, the second word; none where
/// it could not be read. Its name is what the system gives, or its number.
pub proof fn law_memory_and_names(pid: i32, statm: Seq<char>, pages: u64, comm: Seq<char>)
    requires
        words(statm).len() > 1,
        words(statm)[1] == decimal(pages as nat),
    ensures
        resident_kb(Some(statm)) == 4 * pages,
        resident_kb(None) == 0,
        process_name(pid, Some(comm)) == trim(comm),
        process_name(pid, None) == "pid "@ + decimal_int(pid as int),
{
    law_numbers_read_back(pages as nat);
}

/// What a process used between two looks is how far its time has come; nothing where it
/// was not there at the first, or its time went back. A process whose time cannot be read
/// at the second look is left out, and the others keep their order.
pub proof fn law_use_is_measured_between_looks(
    first: Seq<EarlierSample>,
    second: Seq<Sample>,
    s: Sample,
)
    ensures
        jiffies_in(s.stat@) is None ==> measured(first, second.push(s)) == measured(first, second),
        jiffies_in(s.stat@) matches Some(now) ==> measured(first, second.push(s)).len() == measured(
            first,
            second,
        ).len() + 1 && measured(first, second.push(s)).drop_last() == measured(first, second) && ({
            let m = measured(first, second.push(s)).last();
            &&& m.sample == s
            &&& (forall|i: int| 0 <= i < first.len() ==> (#[trigger] first[i]).pid != s.pid) ==> m.used
                == 0
            &&& forall|i: int|
                0 <= i < first.len() && (#[trigger] first[i]).pid == s.pid && jiffies_in(
                    first[i].stat@,
                ) is Some && one_of(first, s.pid) ==> m.used == (if now < jiffies_in(
                    first[i].stat@,
                )->0 {
                    0
                } else {
                    now - jiffies_in(first[i].stat@)->0
                })
        }),
{
    assert(second.push(s).drop_last() =~= second);
    if jiffies_in(s.stat@) is Some {
        let j = jiffies_in(s.stat@)->0;
        let row = Measured { sample: s, used: used_between(first, s.pid, j) };
        assert(measured(first, second.push(s)) == measured(first, second).push(row));
        assert(measured(first, second).push(row).drop_last() =~= measured(first, second));
        lemma_earlier(first, s.pid);
    }
}

/// Whether no two of some samples are of the same process, as far as this one goes.
pub open spec fn one_of(first: Seq<EarlierSample>, pid: i32) -> bool {
    forall|i: int, j: int|
        0 <= i < j < first.len() ==> !((#[trigger] first[i]).pid == pid && (#[trigger] first[j]).pid
            == pid)
}

proof fn lemma_earlier(first: Seq<EarlierSample>, pid: i32)
    ensures
        (forall|i: int| 0 <= i < first.len() ==> (#[trigger] first[i]).pid != pid) ==> earlier(
            first,
            pid,
        ) is None,
        forall|i: int|
            0 <= i < first.len() && (#[trigger] first[i]).pid == pid && jiffies_in(first[i].stat@) is Some
                && one_of(first, pid) ==> earlier(first, pid) == jiffies_in(first[i].stat@),
    decreases first.len(),
{
    if first.len() > 0 {
        let front = first.drop_last();
        lemma_earlier(front, pid);
        assert(first[first.len() - 1] == first.last());
        if forall|i: int| 0 <= i < first.len() ==> (#[trigger] first[i]).pid != pid {
            assert forall|i: int| 0 <= i < front.len() implies (#[trigger] front[i]).pid != pid by {
                assert(first[i].pid != pid);
            }
        }
        assert forall|i: int|
            0 <= i < first.len() && (#[trigger] first[i]).pid == pid && jiffies_in(
                first[i].stat@,
            ) is Some && one_of(first, pid) implies earlier(first, pid) == jiffies_in(
            first[i].stat@,
        ) by {
            if i < front.len() {
                assert(front[i] == first[i]);
                assert(first[first.len() - 1].pid != pid);
                assert(one_of(front, pid)) by {
                    assert forall|a: int, b: int| 0 <= a < b < front.len() implies !((
                    #[trigger] front[a]).pid == pid && (#[trigger] front[b]).pid == pid) by {
                        assert(!(first[a].pid == pid && first[b].pid == pid));
                    }
                }
            }
        }
    }
}

/// The five that use the most are shown, the greatest first: by memory where that is
/// asked for, and else by their share of the processor, which is a number from zero on.
pub proof fn law_the_greatest_come_first(all: Seq<ProcRowView>, by_memory: bool)
    requires
        forall|i: int| 0 <= i < all.len() ==> (#[trigger] all[i]).cpu <= 0x7FF0_0000_0000_0000,
    ensures
        ({
            let out = top_rows(all, by_memory);
            let size = |r: ProcRowView|
                if by_memory {
                    r.mem_kb as int
                } else {
                    r.cpu as int
                };
            &&& out.len() == (if all.len() < 5 {
                all.len()
            } else {
                5
            })
            &&& forall|i: int| 0 <= i < out.len() ==> all.contains(#[trigger] out[i])
            &&& forall|i: int, j: int|
                0 <= i < j < out.len() ==> size(#[trigger] out[i]) >= size(#[trigger] out[j])
            &&& forall|i: int, x: ProcRowView|
                0 <= i < out.len() && #[trigger] all.contains(x) && !out.contains(x) ==> size(
                    #[trigger] out[i],
                ) >= size(x)
        }),
{
    broadcast use vstd::seq_lib::group_to_multiset_ensures;

    law_the_largest_are_shown(all, by_memory);
    let le = |a: ProcRowView, b: ProcRowView| uses_more(by_memory, a, b);
    let out = top_rows(all, by_memory);
    let full = sort(all, le);
    assert(total_order(le));
    lemma_sort(all, le);
    assert forall|i: int| 0 <= i < out.len() implies all.contains(#[trigger] out[i]) by {
        assert(out[i] == full[i]);
        assert(full.contains(full[i]));
        assert(full.to_multiset().count(full[i]) > 0);
        assert(all.to_multiset().count(full[i]) > 0);
    }
    assert forall|x: ProcRowView| #[trigger] all.contains(x) implies x.cpu
        <= 0x7FF0_0000_0000_0000 by {
        let k = choose|k: int| 0 <= k < all.len() && all[k] == x;
        assert(all[k].cpu <= 0x7FF0_0000_0000_0000);
    }
    assert forall|i: int, j: int| 0 <= i < j < out.len() implies uses_more(
        by_memory,
        #[trigger] out[i],
        #[trigger] out[j],
    ) by {
        assert(le(out[i], out[j]));
        assert(all.contains(out[i]) && all.contains(out[j]));
    }
}

/// A process above the first is sent what was asked for, where that is one of the two
/// signals that are allowed, by either of its names.
pub proof fn law_allowed_signals_are_sent(pid: i32, signal: Seq<char>)
    ensures
        pid > 1 && (signal == "KILL"@ || signal == "SIGKILL"@) ==> kill_arguments(pid, signal)
            == Some(("-KILL"@, decimal_int(pid as int))),
        pid > 1 && (signal == "TERM"@ || signal == "SIGTERM"@) ==> kill_arguments(pid, signal)
            == Some(("-TERM"@, decimal_int(pid as int))),
{
    reveal_strlit("KILL");
    reveal_strlit("SIGKILL");
    reveal_strlit("TERM");
    reveal_strlit("SIGTERM");
    assert("KILL"@[0] == 'K' && "TERM"@[0] == 'T');
    assert("SIGKILL"@[3] == 'K' && "SIGTERM"@[3] == 'T');
}

} // verus!
