//! Conservation of attributed bytes: the accumulators produced by a pass
//! hold exactly the bytes that the stream's allocation lines carried, per
//! counter, and lines that are not valid allocation records contribute
//! nothing.

use vstd::prelude::*;

use crate::parser::add_alloc;
use crate::parser::classify;
use crate::parser::entry_matches;
use crate::parser::find_rec;
use crate::parser::fresh_rec;
use crate::parser::gtt_label;
use crate::parser::lemma_find_rec_props;
use crate::parser::model_run;
use crate::parser::model_step;
use crate::parser::vram_label;
use crate::parser::LineKind;
use crate::parser::MemoryUsage;
use crate::parser::ModelState;
use crate::parser::ParseState;
use crate::parser::UsageModel;
use crate::tokens::tokens_of;

verus! {

/// Selector for one of the three byte counters of an accumulator.
pub enum Counter {
    Vram,
    Gtt,
    Other,
}

pub open spec fn counter_of(u: UsageModel, c: Counter) -> nat {
    match c {
        Counter::Vram => u.vram,
        Counter::Gtt => u.gtt,
        Counter::Other => u.other,
    }
}

pub open spec fn exec_counter_of(e: MemoryUsage, c: Counter) -> u64 {
    match c {
        Counter::Vram => e.vram_bytes,
        Counter::Gtt => e.gtt_bytes,
        Counter::Other => e.other_bytes,
    }
}

/// Which counter a memory-type label selects.
pub open spec fn label_counter(label: Seq<u8>) -> Counter {
    if label == vram_label() {
        Counter::Vram
    } else if label == gtt_label() {
        Counter::Gtt
    } else {
        Counter::Other
    }
}

/// Total of one counter over a table of abstract accumulators.
pub open spec fn recs_total(recs: Seq<UsageModel>, c: Counter) -> nat
    decreases recs.len(),
{
    if recs.len() == 0 {
        0
    } else {
        (recs_total(recs.drop_last(), c) + counter_of(recs.last(), c)) as nat
    }
}

/// Bytes one line contributes to one counter: the byte field of a valid
/// allocation record whose label selects that counter, else nothing.
pub open spec fn line_contrib(line: Seq<u8>, c: Counter) -> nat {
    match classify(line) {
        LineKind::Alloc { bytes, label } => if label_counter(label) == c {
            bytes as nat
        } else {
            0
        },
        _ => 0,
    }
}

/// Bytes a whole stream contributes to one counter.
pub open spec fn lines_total(lines: Seq<Seq<u8>>, c: Counter) -> nat
    decreases lines.len(),
{
    if lines.len() == 0 {
        0
    } else {
        (lines_total(lines.drop_last(), c) + line_contrib(lines.last(), c)) as nat
    }
}

proof fn lemma_recs_total_update(recs: Seq<UsageModel>, k: int, u: UsageModel, c: Counter)
    requires
        0 <= k < recs.len(),
    ensures
        recs_total(recs.update(k, u), c) + counter_of(recs[k], c) == recs_total(recs, c)
            + counter_of(u, c),
    decreases recs.len(),
{
    let upd = recs.update(k, u);
    if k == recs.len() - 1 {
        assert(upd.drop_last() =~= recs.drop_last());
        assert(upd.last() == u);
    } else {
        assert(upd.drop_last() =~= recs.drop_last().update(k, u));
        assert(upd.last() == recs.last());
        lemma_recs_total_update(recs.drop_last(), k, u, c);
        assert(recs.drop_last()[k] == recs[k]);
    }
}

/// Each step adds to each counter's total exactly what the line contributes.
pub proof fn lemma_step_total(m: ModelState, line: Seq<u8>, c: Counter)
    ensures
        recs_total(model_step(m, line).recs, c) == recs_total(m.recs, c) + line_contrib(
            line,
            c,
        ),
{
    match classify(line) {
        LineKind::Alloc { bytes, label } => {
            lemma_find_rec_props(m.recs, m.current);
            let k = find_rec(m.recs, m.current);
            if k >= 0 {
                assert(counter_of(add_alloc(m.recs[k], bytes, label), c) == counter_of(
                    m.recs[k],
                    c,
                ) + line_contrib(line, c));
                lemma_recs_total_update(m.recs, k, add_alloc(m.recs[k], bytes, label), c);
            } else {
                let r = add_alloc(fresh_rec(m.current), bytes, label);
                assert(m.recs.push(r).drop_last() =~= m.recs);
                assert(counter_of(r, c) == line_contrib(line, c));
            }
        },
        _ => {},
    }
}

/// Conservation at the abstract level: after a whole run, each counter's
/// total over the table equals that counter's total over the stream.
pub proof fn lemma_run_total(lines: Seq<Seq<u8>>, c: Counter)
    ensures
        recs_total(model_run(lines).recs, c) == lines_total(lines, c),
    decreases lines.len(),
{
    if lines.len() > 0 {
        lemma_run_total(lines.drop_last(), c);
        lemma_step_total(model_run(lines.drop_last()), lines.last(), c);
    }
}

proof fn lemma_counter_le_total(recs: Seq<UsageModel>, i: int, c: Counter)
    requires
        0 <= i < recs.len(),
    ensures
        counter_of(recs[i], c) <= recs_total(recs, c),
    decreases recs.len(),
{
    if i < recs.len() - 1 {
        lemma_counter_le_total(recs.drop_last(), i, c);
        assert(recs.drop_last()[i] == recs[i]);
    }
}

/// Sum of one reported counter over the entries of a pass.
pub open spec fn entries_total(es: Seq<MemoryUsage>, c: Counter) -> nat
    decreases es.len(),
{
    if es.len() == 0 {
        0
    } else {
        (entries_total(es.drop_last(), c) + exec_counter_of(es.last(), c)) as nat
    }
}

proof fn lemma_entries_total_pointwise(
    es: Seq<MemoryUsage>,
    recs: Seq<UsageModel>,
    c: Counter,
)
    requires
        es.len() == recs.len(),
        forall|i: int|
            0 <= i < recs.len() ==> exec_counter_of(es[i], c) == counter_of(
                #[trigger] recs[i],
                c,
            ),
    ensures
        entries_total(es, c) == recs_total(recs, c),
    decreases es.len(),
{
    if es.len() > 0 {
        assert(forall|i: int|
            0 <= i < recs.len() - 1 ==> (#[trigger] recs.drop_last()[i]) == recs[i]);
        assert(forall|i: int|
            0 <= i < es.len() - 1 ==> (#[trigger] es.drop_last()[i]) == es[i]);
        lemma_entries_total_pointwise(es.drop_last(), recs.drop_last(), c);
    }
}

/// Conservation of attributed bytes, as reported: when a counter's total over
/// the whole stream fits in `u64`, the sum of that counter over all
/// accumulated entries equals the sum of the byte fields of every allocation
/// line whose label selects that counter.
pub proof fn lemma_conservation(st: ParseState, c: Counter)
    requires
        st.wf(),
        lines_total(st.lines@, c) <= u64::MAX,
    ensures
        entries_total(st.entries@, c) == lines_total(st.lines@, c),
{
    let m = model_run(st.lines@);
    lemma_run_total(st.lines@, c);
    assert forall|i: int|
        0 <= i < m.recs.len() implies exec_counter_of(st.entries@[i], c) == counter_of(
        #[trigger] m.recs[i],
        c,
    ) by {
        lemma_counter_le_total(m.recs, i, c);
        assert(entry_matches(st.entries@[i], m.recs[i]));
    }
    lemma_entries_total_pointwise(st.entries@, m.recs, c);
}

/// An allocation record with an unrecognized label adds its bytes to the
/// `other` total and never touches the VRAM or GTT totals.
pub proof fn lemma_unknown_label_spares_vram_gtt(m: ModelState, line: Seq<u8>)
    requires
        (classify(line) matches LineKind::Alloc { bytes, label } && label != vram_label()
            && label != gtt_label()),
    ensures
        recs_total(model_step(m, line).recs, Counter::Vram) == recs_total(
            m.recs,
            Counter::Vram,
        ),
        recs_total(model_step(m, line).recs, Counter::Gtt) == recs_total(
            m.recs,
            Counter::Gtt,
        ),
        (classify(line) matches LineKind::Alloc { bytes, label } ==> recs_total(
            model_step(m, line).recs,
            Counter::Other,
        ) == recs_total(m.recs, Counter::Other) + bytes),
{
    lemma_step_total(m, line, Counter::Vram);
    lemma_step_total(m, line, Counter::Gtt);
    lemma_step_total(m, line, Counter::Other);
}

/// A line with fewer than three tokens contributes no bytes to any counter:
/// it is at most a context switch, and the accumulators stand as they were.
pub proof fn lemma_short_line_adds_nothing(m: ModelState, line: Seq<u8>)
    requires
        tokens_of(line).len() < 3,
    ensures
        model_step(m, line).recs == m.recs,
{
}

} // verus!
