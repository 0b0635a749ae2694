use vstd::prelude::*;
use crate::classify::{
    acceptable, count_after, counter_wf, entity_of, handle, label_output, LineError,
};
use crate::counts::{merge_counts, merged, Counts};
use crate::parser::statement_of;
use crate::tables::Tables;

verus! {

/// Lines per batch handed to a worker.
pub const BATCH_SIZE: usize = 100;

/// Lines read between two progress notes.
pub const PROGRESS_COUNT: u64 = 100000;

/// What a worker receives: a batch of lines, tagged with the number of lines read
/// up to its last one, or the signal to stop.
pub enum Work {
    LINES(u64, Vec<String>),
    DONE,
}

/// What a worker hands back when it stops: its counts, where it counted.
pub struct WorkResult {
    pub statement_counts: Option<Counts>,
}

/// The counts of a worker's result, empty where it did not count.
pub open spec fn result_counts(r: WorkResult) -> Map<Seq<char>, u64> {
    match r.statement_counts {
        Some(c) => c@,
        None => Map::empty(),
    }
}

/// Groups input lines into batches. The first `skip` lines of the whole run are
/// read and numbered but not handed on.
pub struct Producer {
    pub skip: u64,
    pub total: u64,
    pub lines: Vec<String>,
}

impl Producer {
    /// The batch being filled is never full.
    pub open spec fn wf(&self) -> bool {
        self.lines.len() < BATCH_SIZE
    }

    /// A producer that has read nothing.
    pub fn new(skip: u64) -> (r: Producer)
        ensures
            r.wf(),
            r.skip == skip,
            r.total == 0,
            r.lines@.len() == 0,
    {
        Producer { skip, total: 0, lines: Vec::new() }
    }

    /// Takes the next line read. Returns the batch that it completes, if any.
    pub fn push_line(&mut self, line: String) -> (r: Option<Work>)
        requires
            old(self).wf(),
            old(self).total < u64::MAX,
        ensures
            final(self).wf(),
            final(self).skip == old(self).skip,
            final(self).total == old(self).total + 1,
            final(self).total <= final(self).skip ==> r is None && final(self).lines@ == old(
                self,
            ).lines@,
            final(self).total > final(self).skip && old(self).lines.len() + 1 < BATCH_SIZE ==> r is None
                && final(self).lines@ == old(self).lines@.push(line),
            final(self).total > final(self).skip && old(self).lines.len() + 1 == BATCH_SIZE ==> match r {
                Some(Work::LINES(n, batch)) => n == final(self).total && batch@ == old(
                    self,
                ).lines@.push(line) && final(self).lines@.len() == 0,
                _ => false,
            },
    {
        self.total = self.total + 1;
        if self.total <= self.skip {
            return None;
        }
        self.lines.push(line);
        if self.lines.len() == BATCH_SIZE {
            let mut batch = Vec::new();
            std::mem::swap(&mut batch, &mut self.lines);
            Some(Work::LINES(self.total, batch))
        } else {
            None
        }
    }

    /// At the end of an input: the partial batch, if it holds any line.
    pub fn finish_input(&mut self) -> (r: Option<Work>)
        requires
            old(self).wf(),
        ensures
            final(self).wf(),
            final(self).skip == old(self).skip,
            final(self).total == old(self).total,
            final(self).lines@.len() == 0,
            old(self).lines.len() == 0 ==> r is None,
            old(self).lines.len() > 0 ==> match r {
                Some(Work::LINES(n, batch)) => n == old(self).total && batch@ == old(self).lines@,
                _ => false,
            },
    {
        if self.lines.len() == 0 {
            return None;
        }
        let mut batch = Vec::new();
        std::mem::swap(&mut batch, &mut self.lines);
        Some(Work::LINES(self.total, batch))
    }

    /// After a line: `Some(skipped)` where a progress note is due, `skipped` telling
    /// whether the lines so far were all skipped.
    pub fn progress(&self) -> (r: Option<bool>)
        ensures
            r == (if self.total > 0 && self.total % PROGRESS_COUNT == 0 {
                Some(self.total <= self.skip)
            } else {
                None
            }),
    {
        if self.total > 0 && self.total % PROGRESS_COUNT == 0 {
            Some(self.total <= self.skip)
        } else {
            None
        }
    }
}

/// What a worker has produced so far: its statement output, its labels output
/// where it writes labels, and its counts where it counts.
pub struct WorkerModel {
    pub lines: Seq<char>,
    pub labels: Option<Seq<char>>,
    pub counts: Option<Map<Seq<char>, u64>>,
}

/// A worker's output after one more line, or `None` where the line is an error.
pub open spec fn step(tables: &Tables, m: WorkerModel, line: Seq<char>) -> Option<WorkerModel> {
    match statement_of(line) {
        None => None,
        Some(st) => {
            let lines = m.lines + (if acceptable(tables, st) {
                line
            } else {
                Seq::<char>::empty()
            });
            match entity_of(st.subject) {
                None => Some(WorkerModel { lines, labels: m.labels, counts: m.counts }),
                Some(id) => {
                    let counts = match m.counts {
                        Some(c) => Some(count_after(c, id, st)),
                        None => None,
                    };
                    match m.labels {
                        None => Some(WorkerModel { lines, labels: None, counts }),
                        Some(w) => match label_output(tables, id, st) {
                            Ok(out) => Some(WorkerModel { lines, labels: Some(w + out), counts }),
                            Err(_) => None,
                        },
                    }
                },
            }
        },
    }
}

/// A worker's output after the lines `ls`, one after the other, or `None` where one
/// of them is an error.
pub open spec fn run(tables: &Tables, m: WorkerModel, ls: Seq<Seq<char>>) -> Option<WorkerModel>
    decreases ls.len(),
{
    if ls.len() == 0 {
        Some(m)
    } else {
        match run(tables, m, ls.drop_last()) {
            Some(m2) => step(tables, m2, ls.last()),
            None => None,
        }
    }
}

/// Handles the batches given to it, keeping its outputs in memory until they are taken.
pub struct Worker {
    pub lines_out: String,
    pub labels_out: Option<String>,
    pub statement_counts: Option<Counts>,
}

impl View for Worker {
    type V = WorkerModel;

    open spec fn view(&self) -> WorkerModel {
        WorkerModel {
            lines: self.lines_out@,
            labels: match self.labels_out {
                Some(w) => Some(w@),
                None => None,
            },
            counts: match self.statement_counts {
                Some(c) => Some(c@),
                None => None,
            },
        }
    }
}

impl Worker {
    /// Its counts, where it counts, are well formed.
    pub open spec fn wf(&self) -> bool {
        counter_wf(self.statement_counts)
    }

    /// A worker with empty outputs, writing labels and counting as asked.
    pub fn new(labels: bool, statement_counts: bool) -> (r: Worker)
        ensures
            r.wf(),
            r@.lines.len() == 0,
            r@.labels == (if labels {
                Some(Seq::<char>::empty())
            } else {
                None
            }),
            r@.counts == (if statement_counts {
                Some(Map::<Seq<char>, u64>::empty())
            } else {
                None
            }),
    {
        Worker {
            lines_out: String::new(),
            labels_out: if labels {
                Some(String::new())
            } else {
                None
            },
            statement_counts: if statement_counts {
                Some(Counts::new())
            } else {
                None
            },
        }
    }

    /// Handles every line of a batch, in order; `number` is the batch's line number.
    pub fn process(&mut self, tables: &Tables, number: u64, lines: Vec<String>) -> (r: Result<
        (),
        LineError,
    >)
        requires
            old(self).wf(),
        ensures
            final(self).wf(),
            match run(tables, old(self)@, lines@.map_values(|l: String| l@)) {
                Some(m) => r is Ok && final(self)@ == m,
                None => r is Err,
            },
    {
        let ghost ls = lines@.map_values(|l: String| l@);
        let ghost start = self@;
        let n: usize = lines.len();
        let mut pending = lines;
        let mut rest: Vec<String> = Vec::new();
        // Take the lines from the back, then handle them from the front.
        while pending.len() > 0
            invariant
                rest@.len() + pending@.len() == ls.len(),
                ls.len() == n,
                forall|i: int| 0 <= i < pending@.len() ==> #[trigger] pending@[i]@ == ls[i],
                forall|i: int|
                    0 <= i < rest@.len() ==> #[trigger] rest@[i]@ == ls[ls.len() - 1 - i],
            decreases pending.len(),
        {
            let l = pending.pop().unwrap();
            rest.push(l);
        }
        let mut k: usize = 0;
        assert(ls.take(0) =~= Seq::<Seq<char>>::empty());
        assert(ls.len() == rest@.len());
        while rest.len() > 0
            invariant
                self.wf(),
                start == old(self)@,
                ls == lines@.map_values(|l: String| l@),
                ls.len() == n,
                k + rest@.len() == ls.len(),
                forall|i: int|
                    0 <= i < rest@.len() ==> #[trigger] rest@[i]@ == ls[ls.len() - 1 - i],
                run(tables, start, ls.take(k as int)) == Some(self@),
            decreases rest.len(),
        {
            let line = rest.pop().unwrap();
            assert(line@ == ls[k as int]);
            let ghost before = self@;
            assert(ls.take(k + 1).drop_last() =~= ls.take(k as int));
            match handle(
                tables,
                &mut self.lines_out,
                &mut self.labels_out,
                &mut self.statement_counts,
                number,
                line,
            ) {
                Ok(()) => {},
                Err(e) => {
                    proof {
                        assert(step(tables, before, ls[k as int]) is None);
                        lemma_run_stops(tables, start, ls, (k + 1) as int);
                    }
                    return Err(e);
                },
            }
            k = k + 1;
        }
        assert(ls.take(k as int) =~= ls);
        Ok(())
    }

    /// Hands out what the worker has written so far, and starts its outputs anew.
    pub fn take_output(&mut self) -> (r: (String, Option<String>))
        requires
            old(self).wf(),
        ensures
            final(self).wf(),
            r.0@ == old(self)@.lines,
            match r.1 {
                Some(w) => old(self)@.labels == Some(w@),
                None => old(self)@.labels is None,
            },
            final(self)@.lines.len() == 0,
            final(self)@.labels == (if old(self)@.labels is Some {
                Some(Seq::<char>::empty())
            } else {
                None
            }),
            final(self)@.counts == old(self)@.counts,
    {
        let mut lines = String::new();
        std::mem::swap(&mut lines, &mut self.lines_out);
        let labels = match &mut self.labels_out {
            Some(w) => {
                let mut taken = String::new();
                std::mem::swap(&mut taken, w);
                Some(taken)
            },
            None => None,
        };
        (lines, labels)
    }

    /// Stops the worker and hands back its counts.
    pub fn finish(self) -> (r: WorkResult)
        ensures
            r.statement_counts == self.statement_counts,
    {
        WorkResult { statement_counts: self.statement_counts }
    }
}

/// Once a line is an error, so is every longer run of lines.
proof fn lemma_run_stops(tables: &Tables, m: WorkerModel, ls: Seq<Seq<char>>, n: int)
    requires
        0 < n <= ls.len(),
        ls.take(n).drop_last() == ls.take(n - 1),
        run(tables, m, ls.take(n - 1)) is Some,
        step(tables, run(tables, m, ls.take(n - 1))->0, ls[n - 1]) is None,
    ensures
        run(tables, m, ls) is None,
    decreases ls.len() - n,
{
    if n < ls.len() {
        assert(ls.take(n + 1).drop_last() =~= ls.take(n));
        lemma_run_stops_longer(tables, m, ls, n);
    } else {
        assert(ls.take(n) =~= ls);
    }
}

proof fn lemma_run_stops_longer(tables: &Tables, m: WorkerModel, ls: Seq<Seq<char>>, n: int)
    requires
        0 < n <= ls.len(),
        run(tables, m, ls.take(n)) is None,
    ensures
        run(tables, m, ls) is None,
    decreases ls.len() - n,
{
    if n < ls.len() {
        assert(ls.take(n + 1).drop_last() =~= ls.take(n));
        lemma_run_stops_longer(tables, m, ls, n + 1);
    } else {
        assert(ls.take(n) =~= ls);
    }
}

/// Sums the counts of every worker's result.
pub fn merge_results(results: Vec<WorkResult>) -> (r: Counts)
    requires
        forall|i: int| 0 <= i < results.len() ==> counter_wf(#[trigger] results[i].statement_counts),
    ensures
        r.wf(),
        r@ == merged(results@.map_values(|w: WorkResult| result_counts(w))),
{
    let ghost parts = results@.map_values(|w: WorkResult| result_counts(w));
    let mut total = Counts::new();
    let mut i: usize = 0;
    assert(parts.take(0) =~= Seq::<Map<Seq<char>, u64>>::empty());
    while i < results.len()
        invariant
            i <= results.len(),
            parts == results@.map_values(|w: WorkResult| result_counts(w)),
            forall|j: int|
                0 <= j < results.len() ==> counter_wf(#[trigger] results[j].statement_counts),
            total.wf(),
            total@ == merged(parts.take(i as int)),
        decreases results.len() - i,
    {
        assert(parts.take(i + 1).drop_last() =~= parts.take(i as int));
        assert(counter_wf(results[i as int].statement_counts));
        match &results[i].statement_counts {
            Some(c) => {
                total.merge(c);
            },
            None => {
                assert(merge_counts(total@, Map::empty()) =~= total@);
            },
        }
        i = i + 1;
    }
    assert(parts.take(i as int) =~= parts);
    total
}

/// How many workers to start: the number asked for, or else twice the available
/// parallelism.
pub fn worker_count(requested: Option<usize>, available: usize) -> (r: usize)
    ensures
        r == match requested {
            Some(n) => n as int,
            None => if 2 * available > usize::MAX {
                usize::MAX as int
            } else {
                2 * available
            },
        },
{
    match requested {
        Some(n) => n,
        None => if available > usize::MAX / 2 {
            usize::MAX
        } else {
            available * 2
        },
    }
}

/// Each line is read on its own: handling `a` and then `b`, in one batch or in
/// two, gives the same output as handling `a + b`, so where batches begin and end
/// does not change what a worker produces.
pub proof fn lemma_batch_boundaries_free(
    tables: &Tables,
    m: WorkerModel,
    a: Seq<Seq<char>>,
    b: Seq<Seq<char>>,
)
    ensures
        run(tables, m, a + b) == match run(tables, m, a) {
            Some(m2) => run(tables, m2, b),
            None => None,
        },
    decreases b.len(),
{
    if b.len() == 0 {
        assert(a + b =~= a);
    } else {
        lemma_batch_boundaries_free(tables, m, a, b.drop_last());
        assert((a + b).drop_last() =~= a + b.drop_last());
        assert((a + b).last() == b.last());
    }
}

} // verus!
