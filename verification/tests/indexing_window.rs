use trace_parse::merge::MergeMode;
use trace_parse::parse::SourceLang;
use trace_parse::plan::{
    close_over_nested_variants, files_outside_deps, header_mode, header_role, headers_to_merge,
    headers_with_role, index_language, needs_warming, next_round, note_warmed, run_kind, takes_configuration,
    variants_to_lower, warm_languages, HeaderFacts, HeaderRole, RunKind,
};
use trace_parse::window::{index_window, Merge, Take, Window};

/// Runs the window with `jobs` workers that each finish after as many turns as
/// the unit says, and gives the order of the merge and the most units that
/// were worked on at once.
fn run(total: usize, jobs: usize, turns: &dyn Fn(usize) -> usize) -> (Vec<usize>, usize) {
    let mut window = Window::new(total, jobs);
    let mut workers: Vec<Option<(usize, usize)>> = vec![None; jobs];
    let mut merged = Vec::new();
    let mut peak = 0;
    loop {
        for worker in workers.iter_mut() {
            match *worker {
                None => {
                    if let Take::Index { unit } = window.take() {
                        assert!(unit < merged.len() + index_window(jobs));
                        *worker = Some((unit, turns(unit)));
                    }
                }
                Some((unit, 0)) => {
                    window.finish(unit);
                    *worker = None;
                }
                Some((unit, left)) => *worker = Some((unit, left - 1)),
            }
        }
        peak = peak.max(workers.iter().filter(|w| w.is_some()).count());
        match window.ready() {
            Merge::Merge { unit } => {
                window.advance();
                merged.push(unit);
            }
            Merge::Wait => assert!(workers.iter().any(|w| w.is_some()), "nothing to wait for"),
            Merge::Stop => return (merged, peak),
        }
    }
}

#[test]
fn units_merge_in_order_while_workers_run_ahead_within_the_window() {
    let (merged, peak) = run(40, 4, &|unit| if unit == 0 { 40 } else { 1 });
    assert_eq!(merged, (0..40).collect::<Vec<_>>());
    assert!(peak >= 2, "workers did not run in parallel");
}

#[test]
fn empty_and_single_worker_inputs_complete() {
    let (seen, _) = run(0, 2, &|_| 0);
    assert!(seen.is_empty());
    let items = ["/a.c", "/b.c"];
    let (merged, _) = run(items.len(), 1, &|_| 0);
    let seen: Vec<usize> = merged.into_iter().map(|unit| items[unit].len()).collect();
    assert_eq!(seen, vec![4, 4]);
}

#[test]
fn a_cancelled_window_hands_out_nothing() {
    let mut window = Window::new(5, 2);
    assert_eq!(window.take(), Take::Index { unit: 0 });
    window.cancel();
    assert_eq!(window.take(), Take::Stop);
    assert_eq!(window.ready(), Merge::Stop);
}

#[test]
fn workers_wait_at_the_end_of_the_window() {
    let jobs = 1;
    let size = index_window(jobs);
    let mut window = Window::new(size + 1, jobs);
    for unit in 0..size {
        assert_eq!(window.take(), Take::Index { unit });
    }
    assert_eq!(window.take(), Take::Wait);
    window.finish(0);
    assert_eq!(window.ready(), Merge::Merge { unit: 0 });
    window.advance();
    assert_eq!(window.take(), Take::Index { unit: size });
    assert_eq!(window.take(), Take::Stop);
    assert_eq!(window.ready(), Merge::Wait);
}

#[test]
fn a_header_is_lowered_in_the_language_of_its_units() {
    let c = SourceLang::C;
    let cpp = SourceLang::Cpp;
    assert_eq!(index_language(Some(c), true, true, true, cpp), c);
    assert_eq!(index_language(None, true, true, true, c), cpp);
    assert_eq!(index_language(None, false, false, false, cpp), cpp);
    assert_eq!(warm_languages(Some(cpp), false, false, true, c), [cpp]);
    assert!(warm_languages(None, false, true, true, c).contains(&c));
    assert!(warm_languages(None, false, true, true, c).contains(&cpp));
    assert!(needs_warming(None, &vec![c]));
    assert!(!needs_warming(Some(&vec![c, cpp]), &vec![c, cpp]));
}

fn facts() -> HeaderFacts {
    HeaderFacts { reachable: true, included: true, inlined: false, consumed: false, is_dep: false }
}

#[test]
fn headers_have_one_role_each() {
    let all = vec![
        facts(),
        HeaderFacts { inlined: true, ..facts() },
        HeaderFacts { reachable: false, included: false, ..facts() },
        HeaderFacts { consumed: true, ..facts() },
    ];
    let mut seen = 0;
    for role in [HeaderRole::Skipped, HeaderRole::Preamble, HeaderRole::Orphan, HeaderRole::Unread] {
        let picked = headers_with_role(&all, role);
        for &k in &picked {
            assert_eq!(header_role(&all[k]), role);
        }
        seen += picked.len();
    }
    assert_eq!(seen, all.len());
    let unread = HeaderFacts { is_dep: true, ..all[2] };
    assert_eq!(header_role(&all[0]), HeaderRole::Preamble);
    assert_eq!(header_role(&all[1]), HeaderRole::Skipped);
    assert_eq!(header_role(&all[2]), HeaderRole::Orphan);
    assert_eq!(header_role(&unread), HeaderRole::Unread);
    assert_eq!(header_mode(true), MergeMode::SymbolsOnly);
    assert_eq!(header_mode(false), MergeMode::HeaderPreamble);
}

#[test]
fn nested_expansions_are_wanted_with_the_one_that_nests_them() {
    let nested = vec![vec![2], vec![], vec![3], vec![], vec![0]];
    let wanted = close_over_nested_variants(&nested, &vec![0]);
    assert_eq!(wanted, [true, false, true, true, false]);
    assert_eq!(variants_to_lower(&wanted), [0, 2, 3]);
    let dangling = vec![vec![7, 1], vec![], vec![]];
    assert_eq!(close_over_nested_variants(&dangling, &vec![9, 0]), [true, true, false]);
}

#[test]
fn wanted_headers_come_once_and_in_order() {
    let order = vec![4, 1, 3, 2, 0];
    let is_header = vec![false, true, true, true, true];
    let picked = headers_to_merge(0, &vec![1, 3], &vec![3, 2], &is_header, &order);
    assert_eq!(picked, [1, 3, 2]);
}

#[test]
fn a_unit_takes_the_expansion_it_replayed() {
    assert!(takes_configuration(true, Some(&vec![1, 2]), 2));
    assert!(!takes_configuration(true, Some(&vec![1, 2]), 3));
    assert!(takes_configuration(false, Some(&vec![1, 2]), 3));
    assert!(takes_configuration(true, None, 3));
}

#[test]
fn a_run_without_sources_is_empty() {
    assert_eq!(run_kind(0, 0, 0, 0), RunKind::Empty);
    assert_eq!(run_kind(1, 0, 2, 0), RunKind::Configured);
    assert_eq!(run_kind(1, 0, 0, 0), RunKind::Inferred);
    assert_eq!(files_outside_deps(&vec![true, false, true, false]), [1, 3]);
}

#[test]
fn a_round_warms_the_headers_whose_languages_changed() {
    let c = SourceLang::C;
    let cpp = SourceLang::Cpp;
    let mut warmed = Vec::new();
    let first = vec![(4, vec![c]), (2, vec![cpp])];
    assert_eq!(next_round(&warmed, &first), [0, 1]);
    for (header, languages) in first {
        note_warmed(&mut warmed, header, languages);
    }
    // One header is also reached from C++ now, and one is new.
    let second = vec![(7, vec![c]), (2, vec![cpp]), (4, vec![cpp, c])];
    assert_eq!(next_round(&warmed, &second), [0, 2]);
    for (header, languages) in second.iter().skip(2) {
        note_warmed(&mut warmed, *header, languages.clone());
    }
    assert_eq!(next_round(&warmed, &second), [0], "the last languages count");
    note_warmed(&mut warmed, 7, vec![c]);
    assert!(next_round(&warmed, &second).is_empty());
}

/// Headers without a place in the order come by their numbers.
#[test]
fn headers_without_a_place_come_last() {
    let is_header = vec![true, true, false, true];
    assert_eq!(headers_to_merge(2, &vec![3, 0, 1], &vec![], &is_header, &vec![3]), [3, 0, 1]);
}
