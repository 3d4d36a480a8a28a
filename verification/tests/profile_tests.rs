use pprof_core::profile::{Config, Frame, PProf, StackTrace};

fn make_stack(thread_id: u64, pid: u64, thread_name: Option<&str>, frames: &[(&str, &str, u32)]) -> StackTrace {
    StackTrace {
        frames: frames
            .iter()
            .map(|(name, filename, line)| Frame {
                name: name.to_string(),
                filename: filename.to_string(),
                line: *line,
            })
            .collect(),
        thread_id,
        thread_name: thread_name.map(|s| s.to_string()),
        pid,
    }
}

fn label_key<'a>(p: &'a PProf, sample: usize, idx: usize) -> &'a str {
    p.strings[p.samples[sample].label[idx].key as usize].as_str()
}

#[test]
fn period_computation_rate_100() {
    let p = PProf::new(&Config { sampling_rate: 100, show_line_numbers: true });
    assert_eq!(p.period, 10_000_000);
}

#[test]
fn period_computation_rate_1() {
    let p = PProf::new(&Config { sampling_rate: 1, show_line_numbers: true });
    assert_eq!(p.period, 1_000_000_000);
}

#[test]
fn fixed_metadata_after_construction() {
    let p = PProf::new(&Config { sampling_rate: 100, show_line_numbers: true });
    assert_eq!(p.strings, vec!["", "count", "times", "cpu", "nanoseconds"]);
    assert_eq!(p.sample_type.len(), 1);
    assert_eq!(p.sample_type[0].ty, 1);
    assert_eq!(p.sample_type[0].unit, 2);
    let pt = p.period_type.as_ref().unwrap();
    assert_eq!(pt.ty, 3);
    assert_eq!(pt.unit, 4);
    assert!(p.functions.is_empty());
    assert!(p.locations.is_empty());
    assert!(p.samples.is_empty());
}

#[test]
fn dedup_identical_stack_three_times() {
    let mut p = PProf::new(&Config { sampling_rate: 100, show_line_numbers: true });
    let stack = make_stack(1, 9, None, &[("foo", "a.py", 10), ("bar", "b.py", 20)]);
    p.record(&stack).unwrap_or(());
    let strings_after_one = p.strings.len();
    let functions_after_one = p.functions.len();
    let locations_after_one = p.locations.len();
    p.record(&stack).unwrap_or(());
    p.record(&stack).unwrap_or(());
    assert_eq!(p.samples.len(), 1);
    assert_eq!(p.samples[0].value, vec![3]);
    assert_eq!(p.strings.len(), strings_after_one);
    assert_eq!(p.functions.len(), functions_after_one);
    assert_eq!(p.locations.len(), locations_after_one);
}

#[test]
fn string_interning_unique() {
    let mut p = PProf::new(&Config { sampling_rate: 100, show_line_numbers: true });
    let s1 = make_stack(1, 9, None, &[("alpha", "m.py", 1)]);
    let s2 = make_stack(1, 9, None, &[("beta", "m.py", 2)]);
    p.record(&s1).unwrap_or(());
    let len_after_first = p.strings.len();
    p.record(&s2).unwrap_or(());
    // "m.py" was already interned: only "beta" is new.
    assert_eq!(p.strings.len(), len_after_first + 1);
    // No string appears twice, and index 0 is the empty string.
    for i in 0..p.strings.len() {
        for j in 0..p.strings.len() {
            if i != j {
                assert_ne!(p.strings[i], p.strings[j]);
            }
        }
    }
    assert_eq!(p.strings[0], "");
}

#[test]
fn function_key_ignores_line() {
    let mut p = PProf::new(&Config { sampling_rate: 100, show_line_numbers: true });
    let stack = make_stack(1, 9, None, &[("foo", "a.py", 10), ("foo", "a.py", 20)]);
    p.record(&stack).unwrap_or(());
    assert_eq!(p.functions.len(), 1);
    assert_eq!(p.locations.len(), 2);
    assert_ne!(p.locations[0].id, p.locations[1].id);
    assert_eq!(p.locations[0].line[0].function_id, p.functions[0].id);
    assert_eq!(p.locations[1].line[0].function_id, p.functions[0].id);
}

#[test]
fn line_display_on_stores_true_lines() {
    let mut p = PProf::new(&Config { sampling_rate: 100, show_line_numbers: true });
    let stack = make_stack(1, 9, None, &[("foo", "a.py", 10), ("foo", "a.py", 20)]);
    p.record(&stack).unwrap_or(());
    assert_eq!(p.locations.len(), 2);
    assert_eq!(p.locations[0].line[0].line, 10);
    assert_eq!(p.locations[1].line[0].line, 20);
}

#[test]
fn line_display_off_zeroes_stored_lines() {
    let mut p = PProf::new(&Config { sampling_rate: 100, show_line_numbers: false });
    let stack = make_stack(1, 9, None, &[("foo", "a.py", 10), ("foo", "a.py", 20)]);
    p.record(&stack).unwrap_or(());
    // Deduplication keys keep the true lines, so both call sites stay
    // distinct locations, but every stored line is the unset sentinel.
    for loc in &p.locations {
        assert_eq!(loc.line[0].line, 0);
    }
}

#[test]
fn per_thread_isolation() {
    let mut p = PProf::new(&Config { sampling_rate: 100, show_line_numbers: true });
    let frames = &[("foo", "a.py", 10)];
    p.record(&make_stack(1, 9, None, frames)).unwrap_or(());
    p.record(&make_stack(2, 9, None, frames)).unwrap_or(());
    assert_eq!(p.samples.len(), 2);
    assert_eq!(p.samples[0].value, vec![1]);
    assert_eq!(p.samples[1].value, vec![1]);
    // Each sample carries its own numeric thread-id label.
    assert_eq!(label_key(&p, 0, 0), "thread_id");
    assert_eq!(p.samples[0].label[0].num, 1);
    assert_eq!(label_key(&p, 1, 0), "thread_id");
    assert_eq!(p.samples[1].label[0].num, 2);
}

#[test]
fn label_immutability() {
    let mut p = PProf::new(&Config { sampling_rate: 100, show_line_numbers: true });
    let frames = &[("foo", "a.py", 10)];
    p.record(&make_stack(7, 9, None, frames)).unwrap_or(());
    assert_eq!(p.samples.len(), 1);
    assert_eq!(p.samples[0].label.len(), 2);
    // The thread name becoming known later is not retrofitted.
    p.record(&make_stack(7, 9, Some("worker"), frames)).unwrap_or(());
    assert_eq!(p.samples.len(), 1);
    assert_eq!(p.samples[0].label.len(), 2);
    assert_eq!(label_key(&p, 0, 0), "thread_id");
    assert_eq!(label_key(&p, 0, 1), "pid");
    assert_eq!(p.samples[0].value, vec![2]);
}

#[test]
fn record_empty_stack_is_ok() {
    let mut p = PProf::new(&Config { sampling_rate: 100, show_line_numbers: true });
    let stack = make_stack(1, 9, None, &[]);
    assert!(p.record(&stack).is_ok());
    assert_eq!(p.samples.len(), 1);
    assert!(p.samples[0].location_id.is_empty());
    assert_eq!(p.samples[0].value, vec![1]);
}

#[test]
fn end_to_end_scenario() {
    let mut p = PProf::new(&Config { sampling_rate: 100, show_line_numbers: true });
    let stack = make_stack(5, 100, Some("main"), &[("foo", "a.py", 10), ("bar", "a.py", 20)]);
    for _ in 0..3 {
        assert!(p.record(&stack).is_ok());
    }
    assert_eq!(p.samples.len(), 1);
    assert_eq!(p.samples[0].value, vec![3]);
    assert_eq!(p.functions.len(), 2);
    assert_eq!(p.locations.len(), 2);

    let labels = &p.samples[0].label;
    assert_eq!(labels.len(), 3);
    assert_eq!(label_key(&p, 0, 0), "thread_name");
    assert_eq!(p.strings[labels[0].str_index as usize], "main");
    assert_eq!(label_key(&p, 0, 1), "thread_id");
    assert_eq!(labels[1].num, 5);
    assert_eq!(label_key(&p, 0, 2), "pid");
    assert_eq!(labels[2].num, 100);

    let expected: Vec<String> = [
        "", "count", "times", "cpu", "nanoseconds", "foo", "a.py", "bar", "thread_name", "main",
        "thread_id", "pid",
    ]
        .iter()
        .map(|s| s.to_string())
        .collect();
    assert_eq!(p.strings, expected);

    // The sample's stack points at the two locations in frame order.
    assert_eq!(p.samples[0].location_id, vec![p.locations[0].id, p.locations[1].id]);
}
