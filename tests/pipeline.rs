use wikidata_filter::{
    merge_results, worker_count, Counts, Producer, Tables, Work, WorkResult, Worker, BATCH_SIZE,
};

fn tables() -> Tables {
    Tables::new("http://schema.org/version\n", "214\n", "en\n", "http://schema.org/name\n")
}

fn fixture() -> Vec<String> {
    let mut out = Vec::new();
    for i in 0..57u32 {
        let e = i % 7;
        out.push(format!(
            "<http://www.wikidata.org/entity/Q{}> <http://www.wikidata.org/prop/direct/P31> <http://www.wikidata.org/entity/Q5> .\n",
            e
        ));
        out.push(format!("<http://www.wikidata.org/entity/Q{}> <http://schema.org/name> \"n{}\"@en .\n", e, i));
        out.push(format!("<http://www.wikidata.org/entity/Q{}> <http://schema.org/version> \"{}\" .\n", e, i));
        out.push(format!("_:b{} <http://www.wikidata.org/prop/direct/P1> <x> .\n", i));
    }
    out
}

fn batches(lines: &[String], size: usize) -> Vec<Vec<String>> {
    lines.chunks(size).map(|c| c.to_vec()).collect()
}

/// Runs the batches through `workers` workers, handing them out in turn.
fn run_pool(lines: &[String], workers: usize) -> (Vec<String>, Vec<(String, u64)>) {
    let tables = tables();
    let mut pool: Vec<Worker> = (0..workers).map(|_| Worker::new(true, true)).collect();
    let mut written = String::new();
    for (i, batch) in batches(lines, 10).into_iter().enumerate() {
        let w = &mut pool[i % workers];
        w.process(&tables, (i as u64 + 1) * 10, batch).unwrap();
        let (out, _labels) = w.take_output();
        written.push_str(&out);
    }
    let results: Vec<WorkResult> = pool.into_iter().map(|w| w.finish()).collect();
    let merged = merge_results(results);
    let mut kept: Vec<String> = written.lines().map(String::from).collect();
    kept.sort();
    let mut counts = merged.entries();
    counts.sort();
    (kept, counts)
}

#[test]
fn one_worker_and_four_workers_agree() {
    let lines = fixture();
    let (kept1, counts1) = run_pool(&lines, 1);
    let (kept4, counts4) = run_pool(&lines, 4);
    assert_eq!(kept1, kept4);
    assert_eq!(counts1, counts4);
    assert_eq!(kept1.len(), 57 * 2);
    assert_eq!(counts1.len(), 7);
    let q0 = counts1.iter().find(|(k, _)| k == "0").unwrap();
    assert_eq!(q0.1, 9);
}

#[test]
fn stopping_early_keeps_no_more_lines() {
    let lines = fixture();
    let (all, _) = run_pool(&lines, 2);
    let (part, _) = run_pool(&lines[..95], 2);
    assert!(part.len() <= all.len());
    assert_eq!(part.len(), 48);
}

#[test]
fn worker_keeps_labels_per_batch() {
    let tables = tables();
    let mut w = Worker::new(true, false);
    let batch = vec![
        String::from("<http://www.wikidata.org/entity/Q1> <http://schema.org/name> \"one\"@en .\n"),
        String::from("<http://www.wikidata.org/entity/Q2> <http://schema.org/name> \"two\"@de .\n"),
    ];
    w.process(&tables, 2, batch).unwrap();
    let (out, labels) = w.take_output();
    assert_eq!(out, "<http://www.wikidata.org/entity/Q1> <http://schema.org/name> \"one\"@en .\n");
    assert_eq!(labels, Some(String::from("1 one\n")));
    let (out, labels) = w.take_output();
    assert_eq!(out, "");
    assert_eq!(labels, Some(String::new()));
    assert!(w.finish().statement_counts.is_none());
}

#[test]
fn worker_stops_on_a_bad_line() {
    let tables = tables();
    let mut w = Worker::new(false, true);
    let batch = vec![String::from("<a> <b> <c> .\n"), String::from("oops\n")];
    assert!(w.process(&tables, 2, batch).is_err());
}

#[test]
fn producer_batches_and_skips() {
    let mut p = Producer::new(3);
    let mut handed = Vec::new();
    for i in 1..=(BATCH_SIZE as u64 + 10) {
        if let Some(work) = p.push_line(format!("line {}\n", i)) {
            handed.push(work);
        }
    }
    assert_eq!(handed.len(), 1);
    match &handed[0] {
        Work::LINES(n, batch) => {
            assert_eq!(*n, BATCH_SIZE as u64 + 3);
            assert_eq!(batch.len(), BATCH_SIZE);
            assert_eq!(batch[0], "line 4\n");
        }
        Work::DONE => panic!("expected lines"),
    }
    match p.finish_input() {
        Some(Work::LINES(n, batch)) => {
            assert_eq!(n, BATCH_SIZE as u64 + 10);
            assert_eq!(batch.len(), 7);
            assert_eq!(batch[6], format!("line {}\n", BATCH_SIZE + 10));
        }
        _ => panic!("expected the partial batch"),
    }
    assert!(p.finish_input().is_none());
    assert_eq!(p.total, BATCH_SIZE as u64 + 10);
}

#[test]
fn producer_skip_spans_inputs() {
    let mut p = Producer::new(2);
    assert!(p.push_line(String::from("a")).is_none());
    assert!(p.finish_input().is_none());
    assert!(p.push_line(String::from("b")).is_none());
    assert!(p.push_line(String::from("c")).is_none());
    match p.finish_input() {
        Some(Work::LINES(3, batch)) => assert_eq!(batch, vec![String::from("c")]),
        _ => panic!("expected one line"),
    }
}

#[test]
fn producer_progress_every_hundred_thousand_lines() {
    let mut p = Producer::new(150000);
    let mut notes = Vec::new();
    for _ in 0..200000u32 {
        p.push_line(String::new());
        if let Some(skipped) = p.progress() {
            notes.push((p.total, skipped));
        }
        p.finish_input();
    }
    assert_eq!(notes, vec![(100000, true), (200000, false)]);
}

#[test]
fn merging_counts_in_either_order() {
    let mut a = Counts::new();
    a.add("x", 2);
    a.add("y", 1);
    let mut b = Counts::new();
    b.add("y", 5);
    b.add("z", 3);
    let mut ab = Counts::new();
    ab.merge(&a);
    ab.merge(&b);
    let mut ba = Counts::new();
    ba.merge(&b);
    ba.merge(&a);
    let mut e1 = ab.entries();
    e1.sort();
    let mut e2 = ba.entries();
    e2.sort();
    assert_eq!(e1, e2);
    assert_eq!(e1, vec![(String::from("x"), 2), (String::from("y"), 6), (String::from("z"), 3)]);
}

#[test]
fn counts_stop_at_the_largest_value() {
    let mut c = Counts::new();
    c.add("x", u64::MAX - 1);
    c.increment("x");
    c.increment("x");
    assert_eq!(c.get("x"), Some(u64::MAX));
}

#[test]
fn merge_results_skips_workers_without_counts() {
    let mut c = Counts::new();
    c.add("q", 4);
    let merged = merge_results(vec![
        WorkResult { statement_counts: None },
        WorkResult { statement_counts: Some(c) },
    ]);
    assert_eq!(merged.len(), 1);
    assert_eq!(merged.get("q"), Some(4));
    assert_eq!(merge_results(Vec::new()).len(), 0);
}

#[test]
fn worker_count_defaults_to_twice_the_parallelism() {
    assert_eq!(worker_count(Some(3), 8), 3);
    assert_eq!(worker_count(None, 8), 16);
    assert_eq!(worker_count(None, usize::MAX), usize::MAX);
}
