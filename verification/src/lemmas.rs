//! Proof infrastructure about the model transitions: each interning step
//! preserves well-formedness, only extends the append-only tables, and yields
//! an index that is stable for the rest of the session.

use vstd::prelude::*;

use crate::model::{
    build_labels, bump_sample, extends, fun_contains, fun_index_of, get_sample, intern_function,
    intern_location, intern_string, labelled_num, labelled_str, loc_contains, loc_index_of,
    new_function, new_location, record_model, record_target, resolve_frame, resolve_frames,
    sample_contains, sample_index_of, str_contains, str_index_of, strings_wf, FrameM, LocKeyM,
    Model, SampleKeyM, SampleM, StackM,
};

verus! {

// ---------------------------------------------------------------------------
// Sequence prefixes
// ---------------------------------------------------------------------------

pub proof fn lemma_prefix_refl<T>(s: Seq<T>)
    ensures
        s.is_prefix_of(s),
{
    assert(s.subrange(0, s.len() as int) =~= s);
}

pub proof fn lemma_push_prefix<T>(s: Seq<T>, x: T)
    ensures
        s.is_prefix_of(s.push(x)),
{
    assert(s.push(x).subrange(0, s.len() as int) =~= s);
}

pub proof fn lemma_prefix_trans<T>(a: Seq<T>, b: Seq<T>, c: Seq<T>)
    requires
        a.is_prefix_of(b),
        b.is_prefix_of(c),
    ensures
        a.is_prefix_of(c),
{
    assert(c.subrange(0, a.len() as int) =~= a) by {
        assert(forall|i: int|
            0 <= i < a.len() ==> c.subrange(0, a.len() as int)[i] == #[trigger] a[i]);
    }
}

/// Every index of a prefix reads the same element in the longer sequence.
pub proof fn lemma_prefix_index<T>(a: Seq<T>, b: Seq<T>)
    requires
        a.is_prefix_of(b),
    ensures
        forall|i: int| 0 <= i < a.len() ==> a[i] == #[trigger] b[i],
{
    assert forall|i: int| 0 <= i < a.len() implies a[i] == #[trigger] b[i] by {
        assert(a[i] == b.subrange(0, a.len() as int)[i]);
    }
}

pub proof fn lemma_extends_refl(m: Model)
    ensures
        extends(m, m),
{
    lemma_prefix_refl(m.strings);
    lemma_prefix_refl(m.functions);
    lemma_prefix_refl(m.locations);
    lemma_prefix_refl(m.loc_keys);
    lemma_prefix_refl(m.sample_keys);
}

pub proof fn lemma_extends_trans(m3: Model, m2: Model, m1: Model)
    requires
        extends(m3, m2),
        extends(m2, m1),
    ensures
        extends(m3, m1),
{
    lemma_prefix_trans(m1.strings, m2.strings, m3.strings);
    lemma_prefix_trans(m1.functions, m2.functions, m3.functions);
    lemma_prefix_trans(m1.locations, m2.locations, m3.locations);
    lemma_prefix_trans(m1.loc_keys, m2.loc_keys, m3.loc_keys);
    lemma_prefix_trans(m1.sample_keys, m2.sample_keys, m3.sample_keys);
}

// ---------------------------------------------------------------------------
// Uniqueness of interning indices
// ---------------------------------------------------------------------------

/// In a duplicate-free string table the index of a present string is the one
/// witness, whatever `choose` picked.
pub proof fn lemma_str_found(tbl: Seq<Seq<char>>, s: Seq<char>, i: int)
    requires
        strings_wf(tbl),
        0 <= i < tbl.len(),
        tbl[i] == s,
    ensures
        str_contains(tbl, s),
        str_index_of(tbl, s) == i,
{
    assert(str_contains(tbl, s));
    let j = str_index_of(tbl, s);
    assert(0 <= j < tbl.len() && tbl[j] == s);
    if j != i {
        assert(tbl[i] != tbl[j]);
        assert(false);
    }
}

pub proof fn lemma_fun_found(m: Model, name: int, filename: int, i: int)
    requires
        m.wf(),
        0 <= i < m.functions.len(),
        m.functions[i].name == name,
        m.functions[i].filename == filename,
    ensures
        fun_contains(m.functions, name, filename),
        fun_index_of(m.functions, name, filename) == i,
{
    assert(fun_contains(m.functions, name, filename));
    let j = fun_index_of(m.functions, name, filename);
    assert(0 <= j < m.functions.len() && m.functions[j].name == name
        && m.functions[j].filename == filename);
    if j != i {
        assert(!(m.functions[i].name == m.functions[j].name
            && m.functions[i].filename == m.functions[j].filename));
        assert(false);
    }
}

pub proof fn lemma_loc_found(m: Model, function_id: int, line: int, i: int)
    requires
        m.wf(),
        0 <= i < m.loc_keys.len(),
        m.loc_keys[i].function_id == function_id,
        m.loc_keys[i].line == line,
    ensures
        loc_contains(m.loc_keys, function_id, line),
        loc_index_of(m.loc_keys, function_id, line) == i,
{
    assert(loc_contains(m.loc_keys, function_id, line));
    let j = loc_index_of(m.loc_keys, function_id, line);
    assert(0 <= j < m.loc_keys.len() && m.loc_keys[j].function_id == function_id
        && m.loc_keys[j].line == line);
    if j != i {
        assert(!(m.loc_keys[i].function_id == m.loc_keys[j].function_id
            && m.loc_keys[i].line == m.loc_keys[j].line));
        assert(false);
    }
}

// ---------------------------------------------------------------------------
// String interning
// ---------------------------------------------------------------------------

/// Interning one string preserves well-formedness, touches nothing but the
/// string table, grows it by at most one entry, and yields the unique index
/// of the string afterwards.
pub proof fn lemma_intern_string_props(m: Model, s: Seq<char>)
    requires
        m.wf(),
    ensures
        ({
            let (m1, i) = intern_string(m, s);
            &&& m1.wf()
            &&& extends(m1, m)
            &&& m1.functions == m.functions
            &&& m1.locations == m.locations
            &&& m1.loc_keys == m.loc_keys
            &&& m1.samples == m.samples
            &&& m1.sample_keys == m.sample_keys
            &&& m.strings.len() <= m1.strings.len() <= m.strings.len() + 1
            &&& 0 <= i < m1.strings.len()
            &&& m1.strings[i] == s
            &&& str_contains(m1.strings, s)
            &&& str_index_of(m1.strings, s) == i
            &&& (str_contains(m.strings, s) ==> m1 == m && i == str_index_of(m.strings, s))
            &&& (!str_contains(m.strings, s) ==> m1.strings == m.strings.push(s)
                && i == m.strings.len())
        }),
{
    let (m1, i) = intern_string(m, s);
    if str_contains(m.strings, s) {
        assert(0 <= i < m.strings.len() && m.strings[i] == s);
        lemma_extends_refl(m);
    } else {
        lemma_push_prefix(m.strings, s);
        lemma_prefix_refl(m.functions);
        lemma_prefix_refl(m.locations);
        lemma_prefix_refl(m.loc_keys);
        lemma_prefix_refl(m.sample_keys);
        assert(m1.strings[i] == s);
        assert forall|a: int| 0 <= a < m.strings.len() implies #[trigger] m1.strings[a]
            == m.strings[a] by {}
        assert forall|a: int, b: int|
            0 <= a < m1.strings.len() && 0 <= b < m1.strings.len() && a
                != b implies m1.strings[a] != m1.strings[b] by {
            if a < m.strings.len() && b < m.strings.len() {
                assert(m.strings[a] != m.strings[b]);
            } else if a < m.strings.len() {
                assert(m1.strings[b] == s);
                assert(m.strings[a] != s);
            } else {
                assert(m1.strings[a] == s);
                assert(m.strings[b] != s);
            }
        }
        assert(strings_wf(m1.strings));
        lemma_str_found(m1.strings, s, i);
        assert(m1.wf());
    }
}

/// An index found in an earlier table keeps its meaning in any later,
/// duplicate-free extension of it, and interning there is a no-op.
pub proof fn lemma_intern_string_stable(m1: Model, m2: Model, s: Seq<char>)
    requires
        strings_wf(m2.strings),
        m1.strings.is_prefix_of(m2.strings),
        str_contains(m1.strings, s),
    ensures
        str_contains(m2.strings, s),
        str_index_of(m2.strings, s) == str_index_of(m1.strings, s),
        intern_string(m2, s) == (m2, str_index_of(m1.strings, s)),
{
    let i = str_index_of(m1.strings, s);
    assert(0 <= i < m1.strings.len() && m1.strings[i] == s);
    lemma_prefix_index(m1.strings, m2.strings);
    lemma_str_found(m2.strings, s, i);
}

// ---------------------------------------------------------------------------
// Function interning
// ---------------------------------------------------------------------------

/// Interning one function preserves well-formedness, touches nothing but the
/// function list, and yields the ID of the unique record with that key.
pub proof fn lemma_intern_function_props(m: Model, name: int, filename: int)
    requires
        m.wf(),
        0 <= name < m.strings.len(),
        0 <= filename < m.strings.len(),
    ensures
        ({
            let (m1, id) = intern_function(m, name, filename);
            &&& m1.wf()
            &&& extends(m1, m)
            &&& m1.strings == m.strings
            &&& m1.locations == m.locations
            &&& m1.loc_keys == m.loc_keys
            &&& m1.samples == m.samples
            &&& m1.sample_keys == m.sample_keys
            &&& m.functions.len() <= m1.functions.len() <= m.functions.len() + 1
            &&& 1 <= id <= m1.functions.len()
            &&& m1.functions[id - 1].name == name
            &&& m1.functions[id - 1].filename == filename
            &&& m1.functions[id - 1].id == id
            &&& fun_contains(m1.functions, name, filename)
            &&& fun_index_of(m1.functions, name, filename) == id - 1
            &&& (fun_contains(m.functions, name, filename) ==> m1 == m
                && id == m.functions[fun_index_of(m.functions, name, filename)].id)
            &&& (!fun_contains(m.functions, name, filename) ==> m1.functions
                == m.functions.push(new_function(m.functions.len() as int + 1, name, filename))
                && id == m.functions.len() + 1)
        }),
{
    let (m1, id) = intern_function(m, name, filename);
    if fun_contains(m.functions, name, filename) {
        let j = fun_index_of(m.functions, name, filename);
        assert(0 <= j < m.functions.len() && m.functions[j].name == name
            && m.functions[j].filename == filename);
        assert(m.functions[j].id == j + 1);
        lemma_extends_refl(m);
        lemma_fun_found(m, name, filename, j);
    } else {
        lemma_push_prefix(m.functions, new_function(m.functions.len() as int + 1, name, filename));
        lemma_prefix_refl(m.strings);
        lemma_prefix_refl(m.locations);
        lemma_prefix_refl(m.loc_keys);
        lemma_prefix_refl(m.sample_keys);
        assert forall|a: int| 0 <= a < m.functions.len() implies #[trigger] m1.functions[a]
            == m.functions[a] by {}
        assert(m1.functions[m.functions.len() as int]
            == new_function(m.functions.len() as int + 1, name, filename));
        assert forall|a: int, b: int|
            0 <= a < m1.functions.len() && 0 <= b < m1.functions.len() && a
                != b implies !(m1.functions[a].name == m1.functions[b].name
            && m1.functions[a].filename == m1.functions[b].filename) by {
            if a < m.functions.len() && b < m.functions.len() {
                assert(!(m.functions[a].name == m.functions[b].name && m.functions[a].filename
                    == m.functions[b].filename));
            } else if a < m.functions.len() {
                assert(!(m.functions[a].name == name && m.functions[a].filename == filename));
            } else {
                assert(!(m.functions[b].name == name && m.functions[b].filename == filename));
            }
        }
        assert(m1.wf());
        lemma_fun_found(m1, name, filename, id - 1);
    }
}

pub proof fn lemma_intern_function_stable(m1: Model, m2: Model, name: int, filename: int)
    requires
        m2.wf(),
        m1.functions.is_prefix_of(m2.functions),
        fun_contains(m1.functions, name, filename),
    ensures
        fun_contains(m2.functions, name, filename),
        fun_index_of(m2.functions, name, filename) == fun_index_of(m1.functions, name, filename),
        intern_function(m2, name, filename) == (
            m2,
            m1.functions[fun_index_of(m1.functions, name, filename)].id,
        ),
{
    let i = fun_index_of(m1.functions, name, filename);
    assert(0 <= i < m1.functions.len() && m1.functions[i].name == name
        && m1.functions[i].filename == filename);
    lemma_prefix_index(m1.functions, m2.functions);
    lemma_fun_found(m2, name, filename, i);
}

// ---------------------------------------------------------------------------
// Location interning
// ---------------------------------------------------------------------------

/// Interning one location preserves well-formedness, touches nothing but the
/// location list and its key table, and yields the ID of the unique record
/// with that key.
pub proof fn lemma_intern_location_props(m: Model, function_id: int, line: int)
    requires
        m.wf(),
        1 <= function_id <= m.functions.len(),
    ensures
        ({
            let (m1, id) = intern_location(m, function_id, line);
            &&& m1.wf()
            &&& extends(m1, m)
            &&& m1.strings == m.strings
            &&& m1.functions == m.functions
            &&& m1.samples == m.samples
            &&& m1.sample_keys == m.sample_keys
            &&& m.locations.len() <= m1.locations.len() <= m.locations.len() + 1
            &&& 1 <= id <= m1.locations.len()
            &&& m1.loc_keys[id - 1].function_id == function_id
            &&& m1.loc_keys[id - 1].line == line
            &&& m1.locations[id - 1].id == id
            &&& loc_contains(m1.loc_keys, function_id, line)
            &&& loc_index_of(m1.loc_keys, function_id, line) == id - 1
            &&& (loc_contains(m.loc_keys, function_id, line) ==> m1 == m
                && id == m.locations[loc_index_of(m.loc_keys, function_id, line)].id)
            &&& (!loc_contains(m.loc_keys, function_id, line) ==> m1.locations
                == m.locations.push(
                    new_location(
                        m.locations.len() as int + 1,
                        function_id,
                        m.show_line_numbers,
                        line,
                    ),
                ) && m1.loc_keys == m.loc_keys.push(LocKeyM { function_id, line })
                && id == m.locations.len() + 1)
        }),
{
    let (m1, id) = intern_location(m, function_id, line);
    if loc_contains(m.loc_keys, function_id, line) {
        let j = loc_index_of(m.loc_keys, function_id, line);
        assert(0 <= j < m.loc_keys.len() && m.loc_keys[j].function_id == function_id
            && m.loc_keys[j].line == line);
        assert(m.locations[j].id == j + 1);
        lemma_extends_refl(m);
        lemma_loc_found(m, function_id, line, j);
    } else {
        lemma_push_prefix(
            m.locations,
            new_location(m.locations.len() as int + 1, function_id, m.show_line_numbers, line),
        );
        lemma_push_prefix(m.loc_keys, LocKeyM { function_id, line });
        lemma_prefix_refl(m.strings);
        lemma_prefix_refl(m.functions);
        lemma_prefix_refl(m.sample_keys);
        assert forall|a: int| 0 <= a < m.locations.len() implies #[trigger] m1.locations[a]
            == m.locations[a] by {}
        assert forall|a: int| 0 <= a < m.loc_keys.len() implies #[trigger] m1.loc_keys[a]
            == m.loc_keys[a] by {}
        assert(m1.locations[m.locations.len() as int]
            == new_location(m.locations.len() as int + 1, function_id, m.show_line_numbers, line));
        assert(m1.loc_keys[m.loc_keys.len() as int] == (LocKeyM { function_id, line }));
        assert forall|a: int, b: int|
            0 <= a < m1.loc_keys.len() && 0 <= b < m1.loc_keys.len() && a
                != b implies !(m1.loc_keys[a].function_id == m1.loc_keys[b].function_id
            && m1.loc_keys[a].line == m1.loc_keys[b].line) by {
            if a < m.loc_keys.len() && b < m.loc_keys.len() {
                assert(!(m.loc_keys[a].function_id == m.loc_keys[b].function_id
                    && m.loc_keys[a].line == m.loc_keys[b].line));
            } else if a < m.loc_keys.len() {
                assert(!(m.loc_keys[a].function_id == function_id && m.loc_keys[a].line == line));
            } else {
                assert(!(m.loc_keys[b].function_id == function_id && m.loc_keys[b].line == line));
            }
        }
        assert(m1.wf());
        lemma_loc_found(m1, function_id, line, id - 1);
    }
}

pub proof fn lemma_intern_location_stable(m1: Model, m2: Model, function_id: int, line: int)
    requires
        m2.wf(),
        m1.loc_keys.is_prefix_of(m2.loc_keys),
        m1.locations.is_prefix_of(m2.locations),
        loc_contains(m1.loc_keys, function_id, line),
        loc_index_of(m1.loc_keys, function_id, line) < m1.locations.len(),
    ensures
        loc_contains(m2.loc_keys, function_id, line),
        loc_index_of(m2.loc_keys, function_id, line) == loc_index_of(m1.loc_keys, function_id, line),
        intern_location(m2, function_id, line) == (
            m2,
            m1.locations[loc_index_of(m1.loc_keys, function_id, line)].id,
        ),
{
    let i = loc_index_of(m1.loc_keys, function_id, line);
    assert(0 <= i < m1.loc_keys.len() && m1.loc_keys[i].function_id == function_id
        && m1.loc_keys[i].line == line);
    lemma_prefix_index(m1.loc_keys, m2.loc_keys);
    lemma_prefix_index(m1.locations, m2.locations);
    lemma_loc_found(m2, function_id, line, i);
}

// ---------------------------------------------------------------------------
// Frame resolution
// ---------------------------------------------------------------------------

/// Resolving one frame preserves well-formedness, leaves samples untouched,
/// grows each table boundedly, yields a valid location ID, and is from then
/// on a fixpoint: resolving the same frame again changes nothing.
pub proof fn lemma_resolve_frame_props(m: Model, f: FrameM)
    requires
        m.wf(),
    ensures
        ({
            let (m1, id) = resolve_frame(m, f);
            &&& m1.wf()
            &&& extends(m1, m)
            &&& m1.samples == m.samples
            &&& m1.sample_keys == m.sample_keys
            &&& m1.strings.len() <= m.strings.len() + 2
            &&& m1.functions.len() <= m.functions.len() + 1
            &&& m1.locations.len() <= m.locations.len() + 1
            &&& 1 <= id <= m1.locations.len()
            &&& resolve_frame(m1, f) == (m1, id)
        }),
{
    let (ma, name) = intern_string(m, f.name);
    lemma_intern_string_props(m, f.name);
    let (mb, filename) = intern_string(ma, f.filename);
    lemma_intern_string_props(ma, f.filename);
    let (mc, function_id) = intern_function(mb, name, filename);
    lemma_intern_function_props(mb, name, filename);
    let (m1, id) = intern_location(mc, function_id, f.line);
    lemma_intern_location_props(mc, function_id, f.line);
    lemma_extends_trans(mb, ma, m);
    lemma_extends_trans(mc, mb, m);
    lemma_extends_trans(m1, mc, m);

    // Resolving again finds every piece already interned, at the same index.
    lemma_prefix_index(ma.strings, m1.strings);
    lemma_intern_string_stable(ma, m1, f.name);
    lemma_intern_string_stable(mb, m1, f.filename);
    lemma_intern_function_stable(mc, m1, name, filename);
    lemma_intern_location_stable(m1, m1, function_id, f.line);
    lemma_prefix_refl(m1.loc_keys);
    lemma_prefix_refl(m1.locations);
}

// ---------------------------------------------------------------------------
// Resolving whole stacks
// ---------------------------------------------------------------------------

/// Resolving a stack preserves well-formedness, leaves samples untouched,
/// grows each table boundedly, and yields one valid location ID per frame.
pub proof fn lemma_resolve_frames_props(m: Model, fs: Seq<FrameM>)
    requires
        m.wf(),
    ensures
        ({
            let (m1, ids) = resolve_frames(m, fs);
            &&& m1.wf()
            &&& extends(m1, m)
            &&& m1.samples == m.samples
            &&& m1.sample_keys == m.sample_keys
            &&& m1.strings.len() <= m.strings.len() + 2 * fs.len()
            &&& m1.functions.len() <= m.functions.len() + fs.len()
            &&& m1.locations.len() <= m.locations.len() + fs.len()
            &&& ids.len() == fs.len()
            &&& forall|k: int| 0 <= k < ids.len() ==> 1 <= #[trigger] ids[k] <= m1.locations.len()
        }),
    decreases fs.len(),
{
    if fs.len() == 0 {
        lemma_extends_refl(m);
    } else {
        let (ma, id0) = resolve_frame(m, fs[0]);
        lemma_resolve_frame_props(m, fs[0]);
        let (m1, rest) = resolve_frames(ma, fs.drop_first());
        lemma_resolve_frames_props(ma, fs.drop_first());
        lemma_extends_trans(m1, ma, m);
        let ids = resolve_frames(m, fs).1;
        assert(ids == seq![id0] + rest);
        assert(ids.len() == fs.len());
        assert forall|k: int| 0 <= k < ids.len() implies 1 <= #[trigger] ids[k]
            <= m1.locations.len() by {
            if k == 0 {
                assert(ids[0] == id0);
            } else {
                assert(ids[k] == rest[k - 1]);
            }
        }
    }
}

/// Once a stack has been resolved, resolving it again in any later
/// well-formed state of the same session changes nothing and yields the same
/// location IDs.
pub proof fn lemma_resolve_frames_stable(m: Model, fs: Seq<FrameM>, m2: Model)
    requires
        m.wf(),
        m2.wf(),
        extends(m2, resolve_frames(m, fs).0),
    ensures
        resolve_frames(m2, fs) == (m2, resolve_frames(m, fs).1),
    decreases fs.len(),
{
    if fs.len() == 0 {
        assert(resolve_frames(m2, fs) == (m2, resolve_frames(m, fs).1));
    } else {
        let (ma, id0) = resolve_frame(m, fs[0]);
        lemma_resolve_frame_props(m, fs[0]);
        let (m1, rest) = resolve_frames(ma, fs.drop_first());
        lemma_resolve_frames_props(ma, fs.drop_first());
        lemma_extends_trans(m2, m1, ma);
        lemma_resolve_frame_stable(ma, m2, fs[0]);
        assert(resolve_frame(m2, fs[0]) == (m2, id0));
        lemma_resolve_frames_stable(ma, fs.drop_first(), m2);
        assert(resolve_frames(m2, fs.drop_first()) == (m2, rest));
        assert(resolve_frames(m2, fs) == (m2, seq![id0] + rest));
    }
}

/// A frame that resolving leaves fixed resolves identically in any later
/// well-formed extension.
pub proof fn lemma_resolve_frame_stable(m1: Model, m2: Model, f: FrameM)
    requires
        m1.wf(),
        m2.wf(),
        extends(m2, m1),
        resolve_frame(m1, f).0 == m1,
    ensures
        resolve_frame(m2, f) == (m2, resolve_frame(m1, f).1),
{
    let (ma, name) = intern_string(m1, f.name);
    lemma_intern_string_props(m1, f.name);
    let (mb, filename) = intern_string(ma, f.filename);
    lemma_intern_string_props(ma, f.filename);
    let (mc, function_id) = intern_function(mb, name, filename);
    lemma_intern_function_props(mb, name, filename);
    let (mz, id) = intern_location(mc, function_id, f.line);
    lemma_intern_location_props(mc, function_id, f.line);

    // The fixpoint hypothesis forces every stage into its "found" branch.
    assert(mz == m1);
    assert(m1.strings.len() <= ma.strings.len() <= mb.strings.len() <= mc.strings.len()
        <= mz.strings.len());
    assert(str_contains(m1.strings, f.name));
    assert(ma == m1);
    assert(str_contains(m1.strings, f.filename));
    assert(mb == m1);
    assert(mb.functions.len() <= mc.functions.len() <= mz.functions.len());
    assert(fun_contains(m1.functions, name, filename));
    assert(mc == m1);
    assert(loc_contains(m1.loc_keys, function_id, f.line));

    // Each stage finds the same entry in the extension.
    lemma_intern_string_stable(m1, m2, f.name);
    lemma_intern_string_stable(m1, m2, f.filename);
    lemma_intern_function_stable(m1, m2, name, filename);
    lemma_intern_location_stable(m1, m2, function_id, f.line);
}

// ---------------------------------------------------------------------------
// Labels
// ---------------------------------------------------------------------------

/// Building a string label only interns two strings.
pub proof fn lemma_labelled_str_props(m: Model, key: Seq<char>, value: Seq<char>)
    requires
        m.wf(),
    ensures
        ({
            let (m1, l) = labelled_str(m, key, value);
            &&& m1.wf()
            &&& extends(m1, m)
            &&& m1.functions == m.functions
            &&& m1.locations == m.locations
            &&& m1.loc_keys == m.loc_keys
            &&& m1.samples == m.samples
            &&& m1.sample_keys == m.sample_keys
            &&& m.strings.len() <= m1.strings.len() <= m.strings.len() + 2
            &&& 0 <= l.key < m1.strings.len()
            &&& m1.strings[l.key] == key
            &&& 0 <= l.str_index < m1.strings.len()
            &&& m1.strings[l.str_index] == value
            &&& l.num == 0
            &&& l.num_unit == 0
        }),
{
    let (ma, k) = intern_string(m, key);
    lemma_intern_string_props(m, key);
    let (m1, v) = intern_string(ma, value);
    lemma_intern_string_props(ma, value);
    lemma_extends_trans(m1, ma, m);
    lemma_prefix_index(ma.strings, m1.strings);
}

/// Building a numeric label only interns its key string.
pub proof fn lemma_labelled_num_props(m: Model, key: Seq<char>, num: int)
    requires
        m.wf(),
    ensures
        ({
            let (m1, l) = labelled_num(m, key, num);
            &&& m1.wf()
            &&& extends(m1, m)
            &&& m1.functions == m.functions
            &&& m1.locations == m.locations
            &&& m1.loc_keys == m.loc_keys
            &&& m1.samples == m.samples
            &&& m1.sample_keys == m.sample_keys
            &&& m.strings.len() <= m1.strings.len() <= m.strings.len() + 1
            &&& 0 <= l.key < m1.strings.len()
            &&& m1.strings[l.key] == key
            &&& l.str_index == 0
            &&& l.num == num
            &&& l.num_unit == 0
        }),
{
    lemma_intern_string_props(m, key);
}

/// Building the label set of a fresh sample interns at most four strings and
/// yields: an optional thread-name label first, then a numeric thread-id
/// label, then a numeric process-id label.
pub proof fn lemma_build_labels_props(m: Model, st: StackM)
    requires
        m.wf(),
    ensures
        ({
            let (m1, ls) = build_labels(m, st);
            &&& m1.wf()
            &&& extends(m1, m)
            &&& m1.functions == m.functions
            &&& m1.locations == m.locations
            &&& m1.loc_keys == m.loc_keys
            &&& m1.samples == m.samples
            &&& m1.sample_keys == m.sample_keys
            &&& m.strings.len() <= m1.strings.len() <= m.strings.len() + 4
            &&& ls.len() == if st.thread_name is Some { 3int } else { 2int }
            &&& ls[ls.len() - 2].num == st.thread_id
            &&& ls[ls.len() - 2].str_index == 0
            &&& 0 <= ls[ls.len() - 2].key < m1.strings.len()
            &&& m1.strings[ls[ls.len() - 2].key] == "thread_id"@
            &&& ls[ls.len() - 1].num == st.pid
            &&& ls[ls.len() - 1].str_index == 0
            &&& 0 <= ls[ls.len() - 1].key < m1.strings.len()
            &&& m1.strings[ls[ls.len() - 1].key] == "pid"@
            &&& (st.thread_name is Some ==> ls[0].num == 0
                && 0 <= ls[0].key < m1.strings.len()
                && m1.strings[ls[0].key] == "thread_name"@
                && 0 <= ls[0].str_index < m1.strings.len()
                && m1.strings[ls[0].str_index] == st.thread_name.unwrap())
        }),
{
    let (mn, named) = match st.thread_name {
        Some(n) => {
            let (mx, l) = labelled_str(m, "thread_name"@, n);
            (mx, seq![l])
        },
        None => (m, Seq::<crate::model::LabelM>::empty()),
    };
    match st.thread_name {
        Some(n) => {
            lemma_labelled_str_props(m, "thread_name"@, n);
        },
        None => {
            lemma_extends_refl(m);
        },
    }
    let (mt, tid_label) = labelled_num(mn, "thread_id"@, st.thread_id);
    lemma_labelled_num_props(mn, "thread_id"@, st.thread_id);
    let (m1, pid_label) = labelled_num(mt, "pid"@, st.pid);
    lemma_labelled_num_props(mt, "pid"@, st.pid);
    lemma_extends_trans(mt, mn, m);
    lemma_extends_trans(m1, mt, m);
    lemma_prefix_index(mt.strings, m1.strings);
    lemma_prefix_index(mn.strings, m1.strings);
    let ls = build_labels(m, st).1;
    assert(ls == named.push(tid_label).push(pid_label));
    assert(ls[ls.len() - 2] == tid_label);
    assert(ls[ls.len() - 1] == pid_label);
    if st.thread_name is Some {
        assert(ls[0] == named[0]);
    }
}

// ---------------------------------------------------------------------------
// Samples
// ---------------------------------------------------------------------------

pub proof fn lemma_sample_found(m: Model, thread_id: int, locs: Seq<int>, i: int)
    requires
        m.wf(),
        0 <= i < m.sample_keys.len(),
        m.sample_keys[i].thread_id == thread_id,
        m.sample_keys[i].location_ids == locs,
    ensures
        sample_contains(m.sample_keys, thread_id, locs),
        sample_index_of(m.sample_keys, thread_id, locs) == i,
{
    assert(sample_contains(m.sample_keys, thread_id, locs));
    let j = sample_index_of(m.sample_keys, thread_id, locs);
    assert(0 <= j < m.sample_keys.len() && m.sample_keys[j].thread_id == thread_id
        && m.sample_keys[j].location_ids == locs);
    if j != i {
        assert(!(m.sample_keys[i].thread_id == m.sample_keys[j].thread_id
            && m.sample_keys[i].location_ids == m.sample_keys[j].location_ids));
        assert(false);
    }
}

/// Finding or creating a sample preserves well-formedness, never touches the
/// function or location tables, and yields the unique index of the key. A
/// fresh sample starts with counter zero and the labels of this first stack;
/// an existing one is returned with nothing changed.
pub proof fn lemma_get_sample_props(m: Model, st: StackM, locs: Seq<int>)
    requires
        m.wf(),
        forall|k: int| 0 <= k < locs.len() ==> 1 <= #[trigger] locs[k] <= m.locations.len(),
    ensures
        ({
            let (m1, i) = get_sample(m, st, locs);
            &&& m1.wf()
            &&& extends(m1, m)
            &&& m1.functions == m.functions
            &&& m1.locations == m.locations
            &&& m1.loc_keys == m.loc_keys
            &&& m.strings.len() <= m1.strings.len() <= m.strings.len() + 4
            &&& 0 <= i < m1.samples.len()
            &&& m1.sample_keys[i].thread_id == st.thread_id
            &&& m1.sample_keys[i].location_ids == locs
            &&& m1.samples[i].location_ids == locs
            &&& sample_contains(m1.sample_keys, st.thread_id, locs)
            &&& sample_index_of(m1.sample_keys, st.thread_id, locs) == i
            &&& (sample_contains(m.sample_keys, st.thread_id, locs) ==> m1 == m
                && i == sample_index_of(m.sample_keys, st.thread_id, locs))
            &&& (!sample_contains(m.sample_keys, st.thread_id, locs) ==> {
                &&& i == m.samples.len()
                &&& m1.samples.len() == m.samples.len() + 1
                &&& m1.samples[i].values == seq![0int]
                &&& m1.samples[i].labels == build_labels(m, st).1
                &&& m1.strings == build_labels(m, st).0.strings
                &&& m1.sample_keys == m.sample_keys.push(
                    SampleKeyM { thread_id: st.thread_id, location_ids: locs },
                )
                &&& forall|j: int|
                    0 <= j < m.samples.len() ==> #[trigger] m1.samples[j] == m.samples[j]
            })
        }),
{
    let (m1, i) = get_sample(m, st, locs);
    if sample_contains(m.sample_keys, st.thread_id, locs) {
        let j = sample_index_of(m.sample_keys, st.thread_id, locs);
        assert(0 <= j < m.sample_keys.len() && m.sample_keys[j].thread_id == st.thread_id
            && m.sample_keys[j].location_ids == locs);
        lemma_extends_refl(m);
        lemma_sample_found(m, st.thread_id, locs, j);
    } else {
        let (mb, labels) = build_labels(m, st);
        lemma_build_labels_props(m, st);
        let new_sample = SampleM { location_ids: locs, values: seq![0int], labels };
        let new_key = SampleKeyM { thread_id: st.thread_id, location_ids: locs };
        assert(m1.samples == mb.samples.push(new_sample));
        assert(m1.sample_keys == mb.sample_keys.push(new_key));
        lemma_push_prefix(m.sample_keys, new_key);
        lemma_prefix_refl(m.functions);
        lemma_prefix_refl(m.locations);
        lemma_prefix_refl(m.loc_keys);
        assert(extends(m1, m)) by {
            assert(m.strings.is_prefix_of(m1.strings));
        }
        assert forall|a: int| 0 <= a < m.samples.len() implies #[trigger] m1.samples[a]
            == m.samples[a] by {}
        assert forall|a: int| 0 <= a < m.sample_keys.len() implies #[trigger] m1.sample_keys[a]
            == m.sample_keys[a] by {}
        assert(m1.samples[i as int] == new_sample);
        assert(m1.sample_keys[i as int] == new_key);
        assert forall|a: int, b: int|
            0 <= a < m1.sample_keys.len() && 0 <= b < m1.sample_keys.len() && a
                != b implies !(m1.sample_keys[a].thread_id == m1.sample_keys[b].thread_id
            && m1.sample_keys[a].location_ids == m1.sample_keys[b].location_ids) by {
            if a < m.sample_keys.len() && b < m.sample_keys.len() {
                assert(!(m.sample_keys[a].thread_id == m.sample_keys[b].thread_id
                    && m.sample_keys[a].location_ids == m.sample_keys[b].location_ids));
            } else if a < m.sample_keys.len() {
                assert(!(m.sample_keys[a].thread_id == st.thread_id
                    && m.sample_keys[a].location_ids == locs));
            } else {
                assert(!(m.sample_keys[b].thread_id == st.thread_id
                    && m.sample_keys[b].location_ids == locs));
            }
        }
        assert(m1.wf());
        lemma_sample_found(m1, st.thread_id, locs, i);
    }
}

/// Incrementing the counter of one sample preserves well-formedness and
/// changes nothing else.
pub proof fn lemma_bump_wf(m: Model, i: int)
    requires
        m.wf(),
        0 <= i < m.samples.len(),
    ensures
        ({
            let m1 = Model { samples: bump_sample(m.samples, i), ..m };
            &&& m1.wf()
            &&& extends(m1, m)
            &&& m1.samples.len() == m.samples.len()
            &&& m1.samples[i].location_ids == m.samples[i].location_ids
            &&& m1.samples[i].labels == m.samples[i].labels
            &&& m1.samples[i].values == seq![m.samples[i].values[0] + 1]
            &&& forall|j: int|
                0 <= j < m.samples.len() && j != i ==> #[trigger] m1.samples[j] == m.samples[j]
        }),
{
    let m1 = Model { samples: bump_sample(m.samples, i), ..m };
    lemma_extends_refl(m);
    assert(extends(m1, m));
    assert forall|j: int| 0 <= j < m.samples.len() && j != i implies #[trigger] m1.samples[j]
        == m.samples[j] by {}
    assert(m1.samples[i] == SampleM { values: seq![m.samples[i].values[0] + 1], ..m.samples[i] });
    assert(m1.wf());
}

// ---------------------------------------------------------------------------
// Recording
// ---------------------------------------------------------------------------

/// Recording one stack preserves well-formedness and only ever appends to the
/// interning tables; the target sample ends with its counter one higher, at
/// one for a fresh key.
pub proof fn lemma_record_props(m: Model, st: StackM)
    requires
        m.wf(),
    ensures
        ({
            let mr = record_model(m, st);
            let (m1, locs) = resolve_frames(m, st.frames);
            let i = record_target(m, st);
            &&& mr.wf()
            &&& extends(mr, m)
            &&& 0 <= i < mr.samples.len()
            &&& mr.sample_keys[i].thread_id == st.thread_id
            &&& mr.sample_keys[i].location_ids == locs
            &&& mr.samples[i].location_ids == locs
            &&& (!sample_contains(m.sample_keys, st.thread_id, locs) ==> {
                &&& i == m.samples.len()
                &&& mr.samples.len() == m.samples.len() + 1
                &&& mr.samples[i].values == seq![1int]
                &&& mr.samples[i].labels == build_labels(m1, st).1
                &&& forall|j: int|
                    0 <= j < m.samples.len() ==> #[trigger] mr.samples[j] == m.samples[j]
            })
            &&& (sample_contains(m.sample_keys, st.thread_id, locs) ==> {
                &&& i == sample_index_of(m.sample_keys, st.thread_id, locs)
                &&& mr.samples.len() == m.samples.len()
                &&& mr.samples[i].values == seq![m.samples[i].values[0] + 1]
                &&& mr.samples[i].labels == m.samples[i].labels
                &&& forall|j: int|
                    0 <= j < m.samples.len() && j != i ==> #[trigger] mr.samples[j]
                        == m.samples[j]
            })
        }),
{
    let (m1, locs) = resolve_frames(m, st.frames);
    lemma_resolve_frames_props(m, st.frames);
    let (m2, i) = get_sample(m1, st, locs);
    lemma_get_sample_props(m1, st, locs);
    lemma_bump_wf(m2, i);
    let mr = record_model(m, st);
    assert(mr == Model { samples: bump_sample(m2.samples, i), ..m2 });
    assert(extends(mr, m2));
    lemma_extends_trans(mr, m2, m1);
    lemma_extends_trans(mr, m1, m);
    assert(m1.sample_keys == m.sample_keys);
    assert(m1.samples == m.samples);
    if !sample_contains(m.sample_keys, st.thread_id, locs) {
        assert(m2.samples[i].values == seq![0int]);
        assert(mr.samples[i].values == seq![0int + 1]);
        assert(mr.samples[i].values =~= seq![1int]);
    }
}

/// Recording a second stack with the same frames and thread finds the very
/// sample the first record used: no table changes, no new sample, no label
/// change, only its counter one higher.
pub proof fn lemma_record_again(m: Model, st1: StackM, st2: StackM)
    requires
        m.wf(),
        st2.frames == st1.frames,
        st2.thread_id == st1.thread_id,
    ensures
        ({
            let m1 = record_model(m, st1);
            let m2 = record_model(m1, st2);
            let i = record_target(m, st1);
            &&& record_target(m1, st2) == i
            &&& 0 <= i < m1.samples.len()
            &&& m2.strings == m1.strings
            &&& m2.functions == m1.functions
            &&& m2.locations == m1.locations
            &&& m2.loc_keys == m1.loc_keys
            &&& m2.sample_keys == m1.sample_keys
            &&& m2.samples.len() == m1.samples.len()
            &&& m2.samples[i].location_ids == m1.samples[i].location_ids
            &&& m2.samples[i].labels == m1.samples[i].labels
            &&& m2.samples[i].values == seq![m1.samples[i].values[0] + 1]
            &&& forall|j: int|
                0 <= j < m1.samples.len() && j != i ==> #[trigger] m2.samples[j] == m1.samples[j]
        }),
{
    let (ma, locs) = resolve_frames(m, st1.frames);
    lemma_resolve_frames_props(m, st1.frames);
    let (mb, i) = get_sample(ma, st1, locs);
    lemma_get_sample_props(ma, st1, locs);
    lemma_bump_wf(mb, i);
    let m1 = record_model(m, st1);
    assert(m1 == Model { samples: bump_sample(mb.samples, i), ..mb });
    assert(m1.wf());
    assert(extends(m1, mb));
    lemma_extends_trans(m1, mb, ma);

    // The second record resolves the same frames to the same IDs without
    // touching anything.
    lemma_resolve_frames_stable(m, st1.frames, m1);
    assert(resolve_frames(m1, st2.frames) == (m1, locs));

    // And it finds the sample the first record targeted.
    assert(m1.sample_keys == mb.sample_keys);
    assert(m1.sample_keys[i].thread_id == st2.thread_id);
    assert(m1.sample_keys[i].location_ids == locs);
    lemma_sample_found(m1, st2.thread_id, locs, i);
    assert(get_sample(m1, st2, locs) == (m1, i));
    lemma_bump_wf(m1, i);
    let m2 = record_model(m1, st2);
    assert(m2 == Model { samples: bump_sample(m1.samples, i), ..m1 });
}


} // verus!
