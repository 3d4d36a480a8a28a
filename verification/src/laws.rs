//! The session-wide laws of the aggregator, proved over the model
//! transitions that the executable code is proved to follow.

use vstd::prelude::*;

use crate::lemmas::{
    lemma_bump_wf, lemma_extends_trans, lemma_get_sample_props, lemma_intern_function_props,
    lemma_intern_function_stable, lemma_intern_location_props, lemma_intern_string_props,
    lemma_intern_string_stable, lemma_prefix_index, lemma_record_again, lemma_record_props,
    lemma_resolve_frames_props, lemma_resolve_frames_stable,
};
use crate::model::{
    bump_sample, extends, get_sample, intern_function, intern_location, intern_string, record_model,
    record_target, resolve_frame, resolve_frames, sample_contains, stored_line, FrameM, Model,
    StackM,
};

verus! {

/// The state after recording the same stack `n` times in a row.
pub open spec fn record_n(m: Model, st: StackM, n: nat) -> Model
    decreases n,
{
    if n == 0 {
        m
    } else {
        record_model(record_n(m, st, (n - 1) as nat), st)
    }
}

/// Deduplication is idempotent: recording the identical stack `n >= 1` times
/// leaves exactly the string, function, location and sample-key tables of the
/// first record, creates no further sample, and only drives the one target
/// sample's counter up by one per repetition, its labels untouched.
pub proof fn lemma_dedup_idempotent(m: Model, st: StackM, n: nat)
    requires
        m.wf(),
        n >= 1,
    ensures
        ({
            let m1 = record_model(m, st);
            let mn = record_n(m, st, n);
            let i = record_target(m, st);
            &&& mn.wf()
            &&& record_target(mn, st) == i
            &&& mn.strings == m1.strings
            &&& mn.functions == m1.functions
            &&& mn.locations == m1.locations
            &&& mn.loc_keys == m1.loc_keys
            &&& mn.sample_keys == m1.sample_keys
            &&& mn.samples.len() == m1.samples.len()
            &&& 0 <= i < m1.samples.len()
            &&& mn.samples[i].labels == m1.samples[i].labels
            &&& mn.samples[i].location_ids == m1.samples[i].location_ids
            &&& mn.samples[i].values == seq![m1.samples[i].values[0] + (n - 1)]
            &&& forall|j: int|
                0 <= j < m1.samples.len() && j != i ==> #[trigger] mn.samples[j] == m1.samples[j]
        }),
    decreases n,
{
    let m1 = record_model(m, st);
    let i = record_target(m, st);
    lemma_record_props(m, st);
    lemma_record_again(m, st, st);
    if n == 1 {
        assert(m1.samples[i].values =~= seq![m1.samples[i].values[0] + 0]);
    } else {
        lemma_dedup_idempotent(m, st, (n - 1) as nat);
        let mp = record_n(m, st, (n - 1) as nat);
        let a = record_n(m, st, (n - 2) as nat);
        if n == 2 {
            assert(a == m);
        } else {
            lemma_dedup_idempotent(m, st, (n - 2) as nat);
        }
        assert(mp == record_model(a, st));
        lemma_record_again(a, st, st);
        lemma_record_props(mp, st);
        lemma_record_again(mp, st, st);
        let mn = record_n(m, st, n);
        assert(mn == record_model(mp, st));
        assert(record_target(a, st) == i);
        assert(mn.samples[i].values == seq![mp.samples[i].values[0] + 1]);
        assert(mp.samples[i].values == seq![m1.samples[i].values[0] + (n - 2)]);
        assert(mp.samples[i].values[0] == m1.samples[i].values[0] + (n - 2));
        assert(mn.samples[i].values =~= seq![m1.samples[i].values[0] + (n - 1)]);
    }
}

/// For a stack whose sample key is new to the session, recording it `n >= 1`
/// times yields a sample whose sole counter is exactly `n`.
pub proof fn lemma_fresh_stack_counter_is_n(m: Model, st: StackM, n: nat)
    requires
        m.wf(),
        n >= 1,
        !sample_contains(
            m.sample_keys,
            st.thread_id,
            resolve_frames(m, st.frames).1,
        ),
    ensures
        ({
            let mn = record_n(m, st, n);
            let i = record_target(m, st);
            &&& 0 <= i < mn.samples.len()
            &&& mn.samples[i].values == seq![n as int]
        }),
{
    lemma_record_props(m, st);
    lemma_dedup_idempotent(m, st, n);
    let m1 = record_model(m, st);
    let i = record_target(m, st);
    assert(m1.samples[i].values == seq![1int]);
    assert(record_n(m, st, n).samples[i].values =~= seq![n as int]);
}

/// String interning is one-to-one: two distinct strings never share an index,
/// interning the same string again returns the same index without touching
/// the table, and index 0 always resolves back to the empty string.
pub proof fn lemma_intern_uniqueness(m: Model, s1: Seq<char>, s2: Seq<char>)
    requires
        m.wf(),
    ensures
        ({
            let (ma, i1) = intern_string(m, s1);
            let (mb, i2) = intern_string(ma, s2);
            let (mc, i3) = intern_string(mb, s1);
            &&& (s1 != s2 ==> i1 != i2)
            &&& mc == mb && i3 == i1
            &&& 0 <= i1 < mb.strings.len() && mb.strings[i1] == s1
            &&& 0 <= i2 < mb.strings.len() && mb.strings[i2] == s2
            &&& mb.strings[0] == Seq::<char>::empty()
        }),
{
    let (ma, i1) = intern_string(m, s1);
    lemma_intern_string_props(m, s1);
    let (mb, i2) = intern_string(ma, s2);
    lemma_intern_string_props(ma, s2);
    lemma_prefix_index(ma.strings, mb.strings);
    lemma_intern_string_stable(ma, mb, s1);
}

/// Any two distinct strings present in a well-formed session's table have
/// distinct indices, wherever in the session they were interned.
pub proof fn lemma_session_indices_distinct(m: Model, s1: Seq<char>, s2: Seq<char>)
    requires
        m.wf(),
        crate::model::str_contains(m.strings, s1),
        crate::model::str_contains(m.strings, s2),
        s1 != s2,
    ensures
        crate::model::str_index_of(m.strings, s1) != crate::model::str_index_of(m.strings, s2),
{
    let i1 = crate::model::str_index_of(m.strings, s1);
    let i2 = crate::model::str_index_of(m.strings, s2);
    assert(0 <= i1 < m.strings.len() && m.strings[i1] == s1);
    assert(0 <= i2 < m.strings.len() && m.strings[i2] == s2);
}

/// The function key is independent of the line: two frames with the same
/// name and filename but different lines share one function record (the
/// second frame creates none) and yield two distinct locations, both of whose
/// line records point at that one function; each location stores
/// `stored_line` of its own true line.
pub proof fn lemma_function_key_independent_of_line(m: Model, f1: FrameM, f2: FrameM)
    requires
        m.wf(),
        f2.name == f1.name,
        f2.filename == f1.filename,
        f2.line != f1.line,
    ensures
        ({
            let (m1, id1) = resolve_frame(m, f1);
            let (m2, id2) = resolve_frame(m1, f2);
            &&& m2.functions == m1.functions
            &&& id1 != id2
            &&& 1 <= id1 <= m2.locations.len()
            &&& 1 <= id2 <= m2.locations.len()
            &&& m2.locations[id1 - 1].lines[0].function_id == m2.locations[id2
                - 1].lines[0].function_id
            &&& m2.locations[id1 - 1].lines[0].line == stored_line(m.show_line_numbers, f1.line)
            &&& m2.locations[id2 - 1].lines[0].line == stored_line(m.show_line_numbers, f2.line)
        }),
{
    let (ma, ni) = intern_string(m, f1.name);
    lemma_intern_string_props(m, f1.name);
    let (mb, fi) = intern_string(ma, f1.filename);
    lemma_intern_string_props(ma, f1.filename);
    let (mc, fid) = intern_function(mb, ni, fi);
    lemma_intern_function_props(mb, ni, fi);
    let (m1, id1) = intern_location(mc, fid, f1.line);
    lemma_intern_location_props(mc, fid, f1.line);
    lemma_extends_trans(mc, mb, ma);
    lemma_extends_trans(m1, mc, ma);
    lemma_extends_trans(m1, mc, mb);

    // The second frame finds every piece of the first already interned.
    lemma_intern_string_stable(ma, m1, f1.name);
    lemma_intern_string_stable(mb, m1, f1.filename);
    lemma_intern_function_stable(mc, m1, ni, fi);
    let (m2, id2) = intern_location(m1, fid, f2.line);
    lemma_intern_location_props(m1, fid, f2.line);
    lemma_prefix_index(m1.loc_keys, m2.loc_keys);
    lemma_prefix_index(m1.locations, m2.locations);

    // Distinct lines mean distinct location keys, so distinct IDs.
    assert(m2.loc_keys[id1 - 1].line == f1.line);
    assert(m2.loc_keys[id2 - 1].line == f2.line);
    assert(m2.show_line_numbers == m.show_line_numbers);
}

/// Per-thread isolation: the same frame sequence recorded under two distinct
/// thread IDs targets two distinct samples; the second record leaves the
/// first thread's sample untouched, and each sample's key carries its own
/// thread ID.
pub proof fn lemma_per_thread_isolation(m: Model, st1: StackM, st2: StackM)
    requires
        m.wf(),
        st2.frames == st1.frames,
        st2.thread_id != st1.thread_id,
    ensures
        ({
            let m1 = record_model(m, st1);
            let m2 = record_model(m1, st2);
            let i1 = record_target(m, st1);
            let i2 = record_target(m1, st2);
            &&& i1 != i2
            &&& 0 <= i1 < m2.samples.len()
            &&& 0 <= i2 < m2.samples.len()
            &&& m2.samples[i1] == m1.samples[i1]
            &&& m2.sample_keys[i1].thread_id == st1.thread_id
            &&& m2.sample_keys[i2].thread_id == st2.thread_id
            &&& {
                let locs = resolve_frames(m, st1.frames).1;
                &&& (!sample_contains(m.sample_keys, st1.thread_id, locs) ==> {
                    let ls = m2.samples[i1].labels;
                    ls[ls.len() - 2].num == st1.thread_id
                })
                &&& (!sample_contains(m.sample_keys, st2.thread_id, locs) ==> {
                    let ls = m2.samples[i2].labels;
                    ls[ls.len() - 2].num == st2.thread_id
                })
            }
        }),
{
    let (ma, locs) = resolve_frames(m, st1.frames);
    lemma_resolve_frames_props(m, st1.frames);
    let (mb, i1) = get_sample(ma, st1, locs);
    lemma_get_sample_props(ma, st1, locs);
    lemma_bump_wf(mb, i1);
    let m1 = record_model(m, st1);
    assert(m1 == Model { samples: bump_sample(mb.samples, i1), ..mb });
    assert(extends(m1, mb)) by {
        crate::lemmas::lemma_extends_refl(m1);
    }
    lemma_extends_trans(m1, mb, ma);
    lemma_resolve_frames_stable(m, st1.frames, m1);
    assert(resolve_frames(m1, st2.frames) == (m1, locs));
    let (mg, i2) = get_sample(m1, st2, locs);
    lemma_get_sample_props(m1, st2, locs);
    lemma_bump_wf(mg, i2);
    let m2 = record_model(m1, st2);
    assert(m2 == Model { samples: bump_sample(mg.samples, i2), ..mg });
    lemma_prefix_index(m1.sample_keys, mg.sample_keys);
    assert(m1.sample_keys[i1].thread_id == st1.thread_id);
    assert(mg.sample_keys[i1].thread_id == st1.thread_id);
    assert(mg.sample_keys[i2].thread_id == st2.thread_id);
    assert(i1 != i2);
    assert(mg.samples[i1] == m1.samples[i1]);
    assert(m2.samples[i1] == m1.samples[i1]);

    // A freshly created sample carries the numeric thread-id label of the
    // stack that created it.
    assert(ma.sample_keys == m.sample_keys);
    if !sample_contains(m.sample_keys, st1.thread_id, locs) {
        crate::lemmas::lemma_build_labels_props(ma, st1);
        assert(mb.samples[i1].labels == crate::model::build_labels(ma, st1).1);
        assert(m2.samples[i1].labels == mb.samples[i1].labels);
    }
    if !sample_contains(m.sample_keys, st2.thread_id, locs) {
        assert(!sample_contains(m1.sample_keys, st2.thread_id, locs)) by {
            if sample_contains(m1.sample_keys, st2.thread_id, locs) {
                let w = crate::model::sample_index_of(m1.sample_keys, st2.thread_id, locs);
                assert(0 <= w < m1.sample_keys.len() && m1.sample_keys[w].thread_id
                    == st2.thread_id && m1.sample_keys[w].location_ids == locs);
                assert(w < m.sample_keys.len() || m1.sample_keys[w].thread_id == st1.thread_id);
                if w < m.sample_keys.len() {
                    assert(m1.sample_keys[w] == m.sample_keys[w]);
                    assert(sample_contains(m.sample_keys, st2.thread_id, locs));
                }
                assert(false);
            }
        }
        crate::lemmas::lemma_build_labels_props(m1, st2);
        assert(mg.samples[i2].labels == crate::model::build_labels(m1, st2).1);
        assert(m2.samples[i2].labels == mg.samples[i2].labels);
    }
}

/// Labels are immutable: a later record for the same thread and stack never
/// rewrites the labels attached when the sample was created — even if the
/// thread name has become known in the meantime — and only moves the one
/// counter up by one.
pub proof fn lemma_label_immutability(m: Model, st1: StackM, st2: StackM)
    requires
        m.wf(),
        st2.frames == st1.frames,
        st2.thread_id == st1.thread_id,
    ensures
        ({
            let m1 = record_model(m, st1);
            let m2 = record_model(m1, st2);
            let i = record_target(m, st1);
            &&& record_target(m1, st2) == i
            &&& 0 <= i < m1.samples.len()
            &&& m2.samples.len() == m1.samples.len()
            &&& m2.samples[i].labels == m1.samples[i].labels
            &&& m2.samples[i].values == seq![m1.samples[i].values[0] + 1]
            &&& m2.strings == m1.strings
            &&& forall|j: int|
                0 <= j < m1.samples.len() && j != i ==> #[trigger] m2.samples[j] == m1.samples[j]
        }),
{
    lemma_record_again(m, st1, st2);
}

} // verus!
