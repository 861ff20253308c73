//! The record parser: it classifies each line of the diagnostic stream as a
//! process-context declaration, an allocation record, or noise, and folds
//! allocation records into per-process accumulators under the current
//! context. The executable state is proved to track an abstract model of the
//! whole pass, with exact (unbounded) counters clamped at `u64::MAX`.

use vstd::prelude::*;

use crate::numbers::parse_i32_bytes;
use crate::numbers::parse_i32_spec;
use crate::numbers::parse_u64_bytes;
use crate::numbers::parse_u64_spec;
use crate::tokens::split_tokens;
use crate::tokens::tokens_of;

verus! {

/// Process id in force before any context line has been seen. Allocation
/// records encountered then accumulate under this id; the report excludes it.
pub const SENTINEL_PID: i32 = -1;

/// The keyword opening a context line, the bytes of `pid`.
pub open spec fn pid_token() -> Seq<u8> {
    seq![112u8, 105u8, 100u8]
}

/// The memory-type label `VRAM`.
pub open spec fn vram_label() -> Seq<u8> {
    seq![86u8, 82u8, 65u8, 77u8]
}

/// The memory-type label `GTT`.
pub open spec fn gtt_label() -> Seq<u8> {
    seq![71u8, 84u8, 84u8]
}

/// What one line of the stream means.
pub enum LineKind {
    /// `pid <n>` with a parsable base-10 id: switches the current context.
    NewContext { pid: i32 },
    /// A parsable base-10 byte count, a second (ignored) field, and a
    /// memory-type label: adds to one counter of the current context.
    Alloc { bytes: u64, label: Seq<u8> },
    /// Anything else, silently ignored.
    Ignored,
}

/// Classification of one line under the grammar. A context line is the token
/// `pid` followed by a token parsing as `i32`; if the id fails to parse the
/// line is ignored and the context stands. Any other line is an allocation
/// record when its first token parses as `u64` and at least two more tokens
/// follow; otherwise it is ignored.
pub open spec fn classify(line: Seq<u8>) -> LineKind {
    let toks = tokens_of(line);
    if toks.len() == 0 {
        LineKind::Ignored
    } else if toks[0] == pid_token() {
        if toks.len() >= 2 {
            match parse_i32_spec(toks[1]) {
                Some(p) => LineKind::NewContext { pid: p },
                None => LineKind::Ignored,
            }
        } else {
            LineKind::Ignored
        }
    } else if toks.len() >= 3 {
        match parse_u64_spec(toks[0]) {
            Some(b) => LineKind::Alloc { bytes: b, label: toks[2] },
            None => LineKind::Ignored,
        }
    } else {
        LineKind::Ignored
    }
}

/// One per-process accumulator of the abstract model, with exact counters.
pub struct UsageModel {
    pub pid: int,
    pub vram: nat,
    pub gtt: nat,
    pub other: nat,
}

/// Abstract parser state: the current context and the accumulators in
/// insertion order.
pub struct ModelState {
    pub current: int,
    pub recs: Seq<UsageModel>,
}

pub open spec fn model_init() -> ModelState {
    ModelState { current: SENTINEL_PID as int, recs: Seq::empty() }
}

/// First index in `recs` holding `pid`, or -1 when absent.
pub open spec fn find_rec(recs: Seq<UsageModel>, pid: int) -> int
    decreases recs.len(),
{
    if recs.len() == 0 {
        -1
    } else if recs[0].pid == pid {
        0
    } else {
        let r = find_rec(recs.drop_first(), pid);
        if r == -1 {
            -1
        } else {
            r + 1
        }
    }
}

pub proof fn lemma_find_rec_props(recs: Seq<UsageModel>, pid: int)
    ensures
        find_rec(recs, pid) == -1 ==> forall|i: int|
            0 <= i < recs.len() ==> (#[trigger] recs[i]).pid != pid,
        find_rec(recs, pid) != -1 ==> {
            let k = find_rec(recs, pid);
            &&& 0 <= k < recs.len()
            &&& recs[k].pid == pid
            &&& forall|i: int| 0 <= i < k ==> (#[trigger] recs[i]).pid != pid
        },
    decreases recs.len(),
{
    if recs.len() > 0 && recs[0].pid != pid {
        lemma_find_rec_props(recs.drop_first(), pid);
        assert(forall|i: int|
            1 <= i < recs.len() ==> (#[trigger] recs[i]) == recs.drop_first()[i - 1]);
    }
}

/// `find_rec` returns exactly the first match.
pub proof fn lemma_find_rec_first_match(recs: Seq<UsageModel>, pid: int, k: int)
    requires
        0 <= k < recs.len(),
        recs[k].pid == pid,
        forall|i: int| 0 <= i < k ==> (#[trigger] recs[i]).pid != pid,
    ensures
        find_rec(recs, pid) == k,
    decreases recs.len(),
{
    if k > 0 {
        assert(forall|i: int|
            0 <= i < k - 1 ==> recs.drop_first()[i] == (#[trigger] recs[i + 1]));
        lemma_find_rec_first_match(recs.drop_first(), pid, k - 1);
    }
}

pub proof fn lemma_find_rec_absent(recs: Seq<UsageModel>, pid: int)
    requires
        forall|i: int| 0 <= i < recs.len() ==> (#[trigger] recs[i]).pid != pid,
    ensures
        find_rec(recs, pid) == -1,
    decreases recs.len(),
{
    if recs.len() > 0 {
        assert(forall|i: int|
            0 <= i < recs.len() - 1 ==> recs.drop_first()[i] == (#[trigger] recs[i + 1]));
        lemma_find_rec_absent(recs.drop_first(), pid);
    }
}

/// Adds an allocation's bytes to the counter selected by its label;
/// comparison is case-sensitive and exact.
pub open spec fn add_alloc(u: UsageModel, bytes: u64, label: Seq<u8>) -> UsageModel {
    if label == vram_label() {
        UsageModel { vram: (u.vram + bytes) as nat, ..u }
    } else if label == gtt_label() {
        UsageModel { gtt: (u.gtt + bytes) as nat, ..u }
    } else {
        UsageModel { other: (u.other + bytes) as nat, ..u }
    }
}

/// A zeroed accumulator for a process seen for the first time.
pub open spec fn fresh_rec(pid: int) -> UsageModel {
    UsageModel { pid: pid, vram: 0, gtt: 0, other: 0 }
}

/// Effect of one line on the abstract state.
pub open spec fn model_step(m: ModelState, line: Seq<u8>) -> ModelState {
    match classify(line) {
        LineKind::NewContext { pid } => ModelState { current: pid as int, recs: m.recs },
        LineKind::Alloc { bytes, label } => {
            let k = find_rec(m.recs, m.current);
            if k >= 0 {
                ModelState {
                    current: m.current,
                    recs: m.recs.update(k, add_alloc(m.recs[k], bytes, label)),
                }
            } else {
                ModelState {
                    current: m.current,
                    recs: m.recs.push(add_alloc(fresh_rec(m.current), bytes, label)),
                }
            }
        },
        LineKind::Ignored => m,
    }
}

/// Abstract state after a whole stream, starting from the fresh state.
pub open spec fn model_run(lines: Seq<Seq<u8>>) -> ModelState
    decreases lines.len(),
{
    if lines.len() == 0 {
        model_init()
    } else {
        model_step(model_run(lines.drop_last()), lines.last())
    }
}

/// One accumulator exists per process id: the table's keys stay unique.
pub open spec fn distinct_pids(recs: Seq<UsageModel>) -> bool {
    forall|i: int, j: int|
        0 <= i < j < recs.len() ==> (#[trigger] recs[i]).pid != (#[trigger] recs[j]).pid
}

/// One step never shrinks the table, never rekeys an accumulator, and never
/// decreases a byte counter: during a pass the counters only grow.
pub proof fn lemma_step_monotone(m: ModelState, line: Seq<u8>, i: int)
    requires
        0 <= i < m.recs.len(),
    ensures
        model_step(m, line).recs.len() >= m.recs.len(),
        model_step(m, line).recs[i].pid == m.recs[i].pid,
        m.recs[i].vram <= model_step(m, line).recs[i].vram,
        m.recs[i].gtt <= model_step(m, line).recs[i].gtt,
        m.recs[i].other <= model_step(m, line).recs[i].other,
{
    match classify(line) {
        LineKind::Alloc { bytes, label } => {
            lemma_find_rec_props(m.recs, m.current);
            let k = find_rec(m.recs, m.current);
            if k >= 0 {
                if i == k {
                    assert(model_step(m, line).recs[i] == add_alloc(m.recs[k], bytes, label));
                } else {
                    assert(model_step(m, line).recs[i] == m.recs[i]);
                }
            } else {
                assert(model_step(m, line).recs[i] == m.recs[i]);
            }
        },
        _ => {},
    }
}

/// After any run the accumulator table keys are unique.
pub proof fn lemma_run_distinct_pids(lines: Seq<Seq<u8>>)
    ensures
        distinct_pids(model_run(lines).recs),
    decreases lines.len(),
{
    if lines.len() > 0 {
        lemma_run_distinct_pids(lines.drop_last());
        let m = model_run(lines.drop_last());
        match classify(lines.last()) {
            LineKind::Alloc { bytes, label } => {
                lemma_find_rec_props(m.recs, m.current);
                let k = find_rec(m.recs, m.current);
                if k < 0 {
                    let pushed = m.recs.push(add_alloc(fresh_rec(m.current), bytes, label));
                    assert forall|i: int, j: int|
                        0 <= i < j < pushed.len() implies (#[trigger] pushed[i]).pid != (
                    #[trigger] pushed[j]).pid by {
                        if j == pushed.len() - 1 {
                            assert(pushed[i] == m.recs[i]);
                            assert(pushed[j].pid == m.current);
                        }
                    }
                }
            },
            _ => {},
        }
    }
}

/// Per-process accumulator as reported: every counter saturates at
/// `u64::MAX` instead of overflowing.
#[derive(Clone, Copy, Debug, PartialEq, Eq, Structural)]
pub struct MemoryUsage {
    pub process_id: i32,
    pub vram_bytes: u64,
    pub gtt_bytes: u64,
    pub other_bytes: u64,
}

pub open spec fn clamp_u64(n: nat) -> u64 {
    if n > u64::MAX {
        u64::MAX
    } else {
        n as u64
    }
}

/// The reported entry `e` realizes the abstract accumulator `u`.
pub open spec fn entry_matches(e: MemoryUsage, u: UsageModel) -> bool {
    &&& e.process_id as int == u.pid
    &&& e.vram_bytes == clamp_u64(u.vram)
    &&& e.gtt_bytes == clamp_u64(u.gtt)
    &&& e.other_bytes == clamp_u64(u.other)
}

/// Transient parser state for one pass over the stream.
pub struct ParseState {
    /// Context established by the most recent valid context line.
    pub current_process_id: i32,
    /// Accumulators in order of first appearance of their process.
    pub entries: Vec<MemoryUsage>,
    /// The lines ingested so far.
    pub lines: Ghost<Seq<Seq<u8>>>,
}

fn is_pid_tok(t: &[u8]) -> (r: bool)
    ensures
        r == (t@ == pid_token()),
{
    let r = t.len() == 3 && t[0] == 112 && t[1] == 105 && t[2] == 100;
    proof {
        if r {
            assert(t@ =~= pid_token());
        } else {
            if t@ == pid_token() {
                assert(t@.len() == 3 && t@[0] == 112 && t@[1] == 105 && t@[2] == 100);
            }
        }
    }
    r
}

fn is_vram_tok(t: &[u8]) -> (r: bool)
    ensures
        r == (t@ == vram_label()),
{
    let r = t.len() == 4 && t[0] == 86 && t[1] == 82 && t[2] == 65 && t[3] == 77;
    proof {
        if r {
            assert(t@ =~= vram_label());
        } else {
            if t@ == vram_label() {
                assert(t@.len() == 4 && t@[0] == 86 && t@[1] == 82 && t@[2] == 65 && t@[3]
                    == 77);
            }
        }
    }
    r
}

fn is_gtt_tok(t: &[u8]) -> (r: bool)
    ensures
        r == (t@ == gtt_label()),
{
    let r = t.len() == 3 && t[0] == 71 && t[1] == 84 && t[2] == 84;
    proof {
        if r {
            assert(t@ =~= gtt_label());
        } else {
            if t@ == gtt_label() {
                assert(t@.len() == 3 && t@[0] == 71 && t@[1] == 84 && t@[2] == 84);
            }
        }
    }
    r
}

/// First entry with the given process id, with everything before it known to
/// hold other ids.
fn find_entry(entries: &Vec<MemoryUsage>, pid: i32) -> (r: Option<usize>)
    ensures
        match r {
            Some(k) => {
                &&& k < entries@.len()
                &&& entries@[k as int].process_id == pid
                &&& forall|i: int|
                    0 <= i < k ==> (#[trigger] entries@[i]).process_id != pid
            },
            None => forall|i: int|
                0 <= i < entries@.len() ==> (#[trigger] entries@[i]).process_id != pid,
        },
{
    let mut k: usize = 0;
    while k < entries.len()
        invariant
            k <= entries@.len(),
            forall|i: int| 0 <= i < k ==> (#[trigger] entries@[i]).process_id != pid,
        decreases entries@.len() - k,
    {
        if entries[k].process_id == pid {
            return Some(k);
        }
        k = k + 1;
    }
    None
}

impl ParseState {
    /// The executable state faithfully reflects the abstract run of every
    /// line ingested so far.
    pub open spec fn wf(self) -> bool {
        let m = model_run(self.lines@);
        &&& self.current_process_id as int == m.current
        &&& self.entries@.len() == m.recs.len()
        &&& forall|i: int|
            0 <= i < m.recs.len() ==> entry_matches(self.entries@[i], #[trigger] m.recs[i])
    }

    /// A fresh state: sentinel context, no accumulators.
    pub fn new() -> (st: ParseState)
        ensures
            st.wf(),
            st.lines@ == Seq::<Seq<u8>>::empty(),
            st.current_process_id == SENTINEL_PID,
            st.entries@.len() == 0,
    {
        ParseState {
            current_process_id: SENTINEL_PID,
            entries: Vec::new(),
            lines: Ghost(Seq::empty()),
        }
    }

    /// Folds one line into the state: a valid context line switches the
    /// current process, a valid allocation record adds its bytes to one
    /// counter of the current process (creating the entry on first sight,
    /// saturating at `u64::MAX`), and every other line changes nothing.
    pub fn ingest_line(&mut self, line: &[u8])
        requires
            old(self).wf(),
        ensures
            final(self).wf(),
            final(self).lines@ == old(self).lines@.push(line@),
    {
        let ghost old_lines = self.lines@;
        let ghost m0 = model_run(old_lines);
        let ghost m1 = model_step(m0, line@);
        self.lines = Ghost(old_lines.push(line@));
        proof {
            assert(self.lines@.drop_last() =~= old_lines);
            assert(model_run(self.lines@) == m1);
        }
        let toks = split_tokens(line);
        let ghost tokss = tokens_of(line@);
        assert(toks@.map_values(|t: Vec<u8>| t@) == tokss);
        if toks.len() == 0 {
            assert(classify(line@) == LineKind::Ignored);
            return ;
        }
        assert(forall|i: int| 0 <= i < toks@.len() ==> (#[trigger] toks@[i])@ == tokss[i]);
        let t0: &Vec<u8> = &toks[0];
        if is_pid_tok(t0.as_slice()) {
            if toks.len() >= 2 {
                let t1: &Vec<u8> = &toks[1];
                match parse_i32_bytes(t1.as_slice()) {
                    Some(p) => {
                        self.current_process_id = p;
                        proof {
                            assert(classify(line@) == (LineKind::NewContext { pid: p }));
                        }
                    },
                    None => {
                        assert(classify(line@) == LineKind::Ignored);
                    },
                }
            } else {
                assert(classify(line@) == LineKind::Ignored);
            }
        } else {
            assert(tokss[0] != pid_token());
            if toks.len() >= 3 {
                match parse_u64_bytes(t0.as_slice()) {
                    Some(b) => {
                        let ghost label_g = tokss[2];
                        proof {
                            assert(classify(line@) == (LineKind::Alloc {
                                bytes: b,
                                label: label_g,
                            }));
                        }
                        let t2: &Vec<u8> = &toks[2];
                        let cur = self.current_process_id;
                        match find_entry(&self.entries, cur) {
                            Some(k) => {
                                proof {
                                    lemma_find_rec_first_match(m0.recs, m0.current, k as int);
                                }
                                let mut e = self.entries[k];
                                if is_vram_tok(t2.as_slice()) {
                                    e.vram_bytes = e.vram_bytes.saturating_add(b);
                                } else if is_gtt_tok(t2.as_slice()) {
                                    e.gtt_bytes = e.gtt_bytes.saturating_add(b);
                                } else {
                                    e.other_bytes = e.other_bytes.saturating_add(b);
                                }
                                self.entries.set(k, e);
                                proof {
                                    assert(m1.recs == m0.recs.update(
                                        k as int,
                                        add_alloc(m0.recs[k as int], b, label_g),
                                    ));
                                    assert(entry_matches(
                                        e,
                                        add_alloc(m0.recs[k as int], b, label_g),
                                    ));
                                }
                            },
                            None => {
                                proof {
                                    lemma_find_rec_absent(m0.recs, m0.current);
                                }
                                let mut e = MemoryUsage {
                                    process_id: cur,
                                    vram_bytes: 0,
                                    gtt_bytes: 0,
                                    other_bytes: 0,
                                };
                                if is_vram_tok(t2.as_slice()) {
                                    e.vram_bytes = b;
                                } else if is_gtt_tok(t2.as_slice()) {
                                    e.gtt_bytes = b;
                                } else {
                                    e.other_bytes = b;
                                }
                                self.entries.push(e);
                                proof {
                                    assert(m1.recs == m0.recs.push(
                                        add_alloc(fresh_rec(m0.current), b, label_g),
                                    ));
                                    assert(entry_matches(
                                        e,
                                        add_alloc(fresh_rec(m0.current), b, label_g),
                                    ));
                                }
                            },
                        }
                    },
                    None => {
                        assert(classify(line@) == LineKind::Ignored);
                    },
                }
            } else {
                assert(classify(line@) == LineKind::Ignored);
            }
        }
    }
}

/// Runs one full pass: ingests every line in order into a fresh state.
pub fn parse_lines(lines: &Vec<Vec<u8>>) -> (st: ParseState)
    ensures
        st.wf(),
        st.lines@ == lines@.map_values(|l: Vec<u8>| l@),
{
    let mut st = ParseState::new();
    proof {
        assert(lines@.take(0).map_values(|l: Vec<u8>| l@) =~= Seq::<Seq<u8>>::empty());
    }
    let mut i: usize = 0;
    while i < lines.len()
        invariant
            st.wf(),
            i <= lines@.len(),
            st.lines@ == lines@.take(i as int).map_values(|l: Vec<u8>| l@),
        decreases lines@.len() - i,
    {
        let li: &Vec<u8> = &lines[i];
        st.ingest_line(li.as_slice());
        proof {
            assert(lines@.take(i + 1).map_values(|l: Vec<u8>| l@) =~= lines@.take(
                i as int,
            ).map_values(|l: Vec<u8>| l@).push(lines@[i as int]@));
        }
        i = i + 1;
    }
    proof {
        assert(lines@.take(lines@.len() as int) =~= lines@);
    }
    st
}

} // verus!
