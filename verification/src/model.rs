//! Mathematical model of the aggregator state and of every transition it
//! performs. The executable code in `profile` is proved to follow these
//! transitions exactly; the laws in `laws` are proved about them.

use vstd::prelude::*;

verus! {

/// One entry of `sample_type`, or the `period_type`: a pair of string-table
/// indices naming a kind of value and its unit.
pub ghost struct ValueTypeM {
    pub ty: int,
    pub unit: int,
}

/// A deduplicated function identity. `name` and `filename` are string-table
/// indices and together form the deduplication key; `id` is 1-based and dense.
pub ghost struct FunctionM {
    pub id: int,
    pub name: int,
    pub system_name: int,
    pub filename: int,
    pub start_line: int,
}

/// One line record inside a location; exactly one per location here.
pub ghost struct LineM {
    pub function_id: int,
    pub line: int,
    pub column: int,
}

/// A deduplicated call-site record. `id` is 1-based and dense.
#[verifier::ext_equal]
pub ghost struct LocationM {
    pub id: int,
    pub mapping_id: int,
    pub address: int,
    pub lines: Seq<LineM>,
    pub is_folded: bool,
}

/// The deduplication key of a location: the function and the *true* source
/// line, even when the stored line is forced to the unset sentinel.
pub ghost struct LocKeyM {
    pub function_id: int,
    pub line: int,
}

/// A key/value annotation on a sample: `key` and `str_index` are string-table
/// indices, `num` a numeric value (one of the two is the unset sentinel 0).
pub ghost struct LabelM {
    pub key: int,
    pub str_index: int,
    pub num: int,
    pub num_unit: int,
}

/// An aggregated observation of one distinct call stack: the ordered location
/// IDs, a single hit counter (`values` always has length one), and the labels
/// attached when the sample was created.
#[verifier::ext_equal]
pub ghost struct SampleM {
    pub location_ids: Seq<int>,
    pub values: Seq<int>,
    pub labels: Seq<LabelM>,
}

/// The deduplication key of a sample: the originating thread plus the exact
/// location-ID sequence.
#[verifier::ext_equal]
pub ghost struct SampleKeyM {
    pub thread_id: int,
    pub location_ids: Seq<int>,
}

/// One raw stack frame as delivered by the sampler.
#[verifier::ext_equal]
pub ghost struct FrameM {
    pub name: Seq<char>,
    pub filename: Seq<char>,
    pub line: int,
}

/// One observed stack with its thread/process metadata.
#[verifier::ext_equal]
pub ghost struct StackM {
    pub frames: Seq<FrameM>,
    pub thread_id: int,
    pub thread_name: Option<Seq<char>>,
    pub pid: int,
}

/// The whole aggregator state: the string table, the three interned entity
/// lists with their key tables, the sample list, and the static metadata.
#[verifier::ext_equal]
pub ghost struct Model {
    pub show_line_numbers: bool,
    pub period: int,
    pub sample_type: Seq<ValueTypeM>,
    pub period_type: Option<ValueTypeM>,
    pub strings: Seq<Seq<char>>,
    pub functions: Seq<FunctionM>,
    pub locations: Seq<LocationM>,
    pub loc_keys: Seq<LocKeyM>,
    pub samples: Seq<SampleM>,
    pub sample_keys: Seq<SampleKeyM>,
}

// ---------------------------------------------------------------------------
// String interning
// ---------------------------------------------------------------------------

pub open spec fn str_contains(tbl: Seq<Seq<char>>, s: Seq<char>) -> bool {
    exists|i: int| 0 <= i < tbl.len() && tbl[i] == s
}

pub open spec fn str_index_of(tbl: Seq<Seq<char>>, s: Seq<char>) -> int {
    choose|i: int| 0 <= i < tbl.len() && tbl[i] == s
}

/// Intern one string: return the index it already has, or append it and
/// return the fresh 0-based index.
pub open spec fn intern_string(m: Model, s: Seq<char>) -> (Model, int) {
    if str_contains(m.strings, s) {
        (m, str_index_of(m.strings, s))
    } else {
        (Model { strings: m.strings.push(s), ..m }, m.strings.len() as int)
    }
}

// ---------------------------------------------------------------------------
// Function interning
// ---------------------------------------------------------------------------

pub open spec fn fun_contains(fs: Seq<FunctionM>, name: int, filename: int) -> bool {
    exists|i: int| 0 <= i < fs.len() && fs[i].name == name && fs[i].filename == filename
}

pub open spec fn fun_index_of(fs: Seq<FunctionM>, name: int, filename: int) -> int {
    choose|i: int| 0 <= i < fs.len() && fs[i].name == name && fs[i].filename == filename
}

/// A freshly created function record: the line of definition is never known
/// here, so `start_line` and `system_name` stay at the unset sentinel.
pub open spec fn new_function(id: int, name: int, filename: int) -> FunctionM {
    FunctionM { id, name, system_name: 0, filename, start_line: 0 }
}

/// Intern one function keyed by `(name, filename)`: return the existing ID,
/// or append a record with the fresh 1-based ID.
pub open spec fn intern_function(m: Model, name: int, filename: int) -> (Model, int) {
    if fun_contains(m.functions, name, filename) {
        (m, m.functions[fun_index_of(m.functions, name, filename)].id)
    } else {
        (
            Model {
                functions: m.functions.push(
                    new_function(m.functions.len() as int + 1, name, filename),
                ),
                ..m
            },
            m.functions.len() as int + 1,
        )
    }
}

// ---------------------------------------------------------------------------
// Location interning
// ---------------------------------------------------------------------------

/// The line value actually stored in a location: the true line when line
/// display is on, the unset sentinel 0 when it is off.
pub open spec fn stored_line(show: bool, line: int) -> int {
    if show {
        line
    } else {
        0
    }
}

pub open spec fn loc_contains(ks: Seq<LocKeyM>, function_id: int, line: int) -> bool {
    exists|i: int| 0 <= i < ks.len() && ks[i].function_id == function_id && ks[i].line == line
}

pub open spec fn loc_index_of(ks: Seq<LocKeyM>, function_id: int, line: int) -> int {
    choose|i: int| 0 <= i < ks.len() && ks[i].function_id == function_id && ks[i].line == line
}

/// A freshly created location: exactly one line record, whose stored line
/// follows the display policy while the deduplication key keeps the true line.
pub open spec fn new_location(id: int, function_id: int, show: bool, line: int) -> LocationM {
    LocationM {
        id,
        mapping_id: 0,
        address: 0,
        lines: seq![LineM { function_id, line: stored_line(show, line), column: 0 }],
        is_folded: false,
    }
}

/// Intern one location keyed by `(function_id, true line)`: return the
/// existing ID, or append a record with the fresh 1-based ID.
pub open spec fn intern_location(m: Model, function_id: int, line: int) -> (Model, int) {
    if loc_contains(m.loc_keys, function_id, line) {
        (m, m.locations[loc_index_of(m.loc_keys, function_id, line)].id)
    } else {
        (
            Model {
                locations: m.locations.push(
                    new_location(
                        m.locations.len() as int + 1,
                        function_id,
                        m.show_line_numbers,
                        line,
                    ),
                ),
                loc_keys: m.loc_keys.push(LocKeyM { function_id, line }),
                ..m
            },
            m.locations.len() as int + 1,
        )
    }
}

// ---------------------------------------------------------------------------
// Frame resolution
// ---------------------------------------------------------------------------

/// Resolve one frame: intern its name and filename as strings, then the
/// function, then the location; yield the location ID.
pub open spec fn resolve_frame(m: Model, f: FrameM) -> (Model, int) {
    let (m1, name) = intern_string(m, f.name);
    let (m2, filename) = intern_string(m1, f.filename);
    let (m3, function_id) = intern_function(m2, name, filename);
    intern_location(m3, function_id, f.line)
}

/// Resolve a whole stack in order, yielding the location IDs in the same
/// order as the frames were received.
pub open spec fn resolve_frames(m: Model, fs: Seq<FrameM>) -> (Model, Seq<int>)
    decreases fs.len(),
{
    if fs.len() == 0 {
        (m, Seq::empty())
    } else {
        let (m1, id) = resolve_frame(m, fs[0]);
        let (m2, ids) = resolve_frames(m1, fs.drop_first());
        (m2, seq![id] + ids)
    }
}

// ---------------------------------------------------------------------------
// Labels and samples
// ---------------------------------------------------------------------------

/// Build a string-valued label, interning both the key and the value.
pub open spec fn labelled_str(m: Model, key: Seq<char>, value: Seq<char>) -> (Model, LabelM) {
    let (m1, k) = intern_string(m, key);
    let (m2, v) = intern_string(m1, value);
    (m2, LabelM { key: k, str_index: v, num: 0, num_unit: 0 })
}

/// Build a number-valued label, interning only the key.
pub open spec fn labelled_num(m: Model, key: Seq<char>, num: int) -> (Model, LabelM) {
    let (m1, k) = intern_string(m, key);
    (m1, LabelM { key: k, str_index: 0, num, num_unit: 0 })
}

/// The label set of a freshly created sample: the thread name only when it is
/// known, then always the numeric thread ID and process ID.
pub open spec fn build_labels(m: Model, st: StackM) -> (Model, Seq<LabelM>) {
    let (m1, named) = match st.thread_name {
        Some(n) => {
            let (ma, l) = labelled_str(m, "thread_name"@, n);
            (ma, seq![l])
        },
        None => (m, Seq::<LabelM>::empty()),
    };
    let (m2, tid_label) = labelled_num(m1, "thread_id"@, st.thread_id);
    let (m3, pid_label) = labelled_num(m2, "pid"@, st.pid);
    (m3, named.push(tid_label).push(pid_label))
}

pub open spec fn sample_contains(ks: Seq<SampleKeyM>, thread_id: int, locs: Seq<int>) -> bool {
    exists|i: int|
        0 <= i < ks.len() && ks[i].thread_id == thread_id && ks[i].location_ids == locs
}

pub open spec fn sample_index_of(ks: Seq<SampleKeyM>, thread_id: int, locs: Seq<int>) -> int {
    choose|i: int|
        0 <= i < ks.len() && ks[i].thread_id == thread_id && ks[i].location_ids == locs
}

/// Find or create the sample for `(thread_id, locs)`. A fresh sample starts
/// with a single zero counter and the labels built from this first stack;
/// an existing sample is returned untouched (labels are never retrofitted).
pub open spec fn get_sample(m: Model, st: StackM, locs: Seq<int>) -> (Model, int) {
    if sample_contains(m.sample_keys, st.thread_id, locs) {
        (m, sample_index_of(m.sample_keys, st.thread_id, locs))
    } else {
        let (m1, labels) = build_labels(m, st);
        (
            Model {
                samples: m1.samples.push(
                    SampleM { location_ids: locs, values: seq![0], labels },
                ),
                sample_keys: m1.sample_keys.push(
                    SampleKeyM { thread_id: st.thread_id, location_ids: locs },
                ),
                ..m1
            },
            m.samples.len() as int,
        )
    }
}

/// Increment the sole counter of the sample at index `i`.
pub open spec fn bump_sample(samples: Seq<SampleM>, i: int) -> Seq<SampleM> {
    samples.update(i, SampleM { values: seq![samples[i].values[0] + 1], ..samples[i] })
}

/// The index of the sample that recording `st` finds or creates.
pub open spec fn record_target(m: Model, st: StackM) -> int {
    let (m1, locs) = resolve_frames(m, st.frames);
    get_sample(m1, st, locs).1
}

/// Record one observed stack: resolve every frame in order, find or create
/// the per-thread sample, and increment its counter by one.
pub open spec fn record_model(m: Model, st: StackM) -> Model {
    let (m1, locs) = resolve_frames(m, st.frames);
    let (m2, i) = get_sample(m1, st, locs);
    Model { samples: bump_sample(m2.samples, i), ..m2 }
}

// ---------------------------------------------------------------------------
// Construction
// ---------------------------------------------------------------------------

/// The strings interned up front, in order, so that their indices are
/// deterministic across sessions.
pub open spec fn init_strings() -> Seq<Seq<char>> {
    seq![""@, "count"@, "times"@, "cpu"@, "nanoseconds"@]
}

/// The state of a freshly constructed aggregator: the fixed strings, one
/// sample type ("count"/"times"), the period type ("cpu"/"nanoseconds"),
/// and the sampling period in nanoseconds.
pub open spec fn init_model(sampling_rate: int, show_line_numbers: bool) -> Model {
    Model {
        show_line_numbers,
        period: 1_000_000_000int / sampling_rate,
        sample_type: seq![ValueTypeM { ty: 1, unit: 2 }],
        period_type: Some(ValueTypeM { ty: 3, unit: 4 }),
        strings: init_strings(),
        functions: Seq::empty(),
        locations: Seq::empty(),
        loc_keys: Seq::empty(),
        samples: Seq::empty(),
        sample_keys: Seq::empty(),
    }
}

// ---------------------------------------------------------------------------
// Well-formedness
// ---------------------------------------------------------------------------

/// The string table is well formed: nonempty, entry 0 is the empty string,
/// and no string appears twice.
pub open spec fn strings_wf(tbl: Seq<Seq<char>>) -> bool {
    &&& tbl.len() >= 1
    &&& tbl[0] == Seq::<char>::empty()
    &&& forall|i: int, j: int|
        0 <= i < tbl.len() && 0 <= j < tbl.len() && i != j ==> tbl[i] != tbl[j]
}

impl Model {
    /// Every invariant of the aggregator state: dense 1-based IDs, distinct
    /// deduplication keys, all cross-references in range, key tables parallel
    /// to their entity lists, one line per location whose stored line follows
    /// the display policy, and one counter per sample.
    pub open spec fn wf(self) -> bool {
        &&& strings_wf(self.strings)
        &&& forall|i: int|
            0 <= i < self.functions.len() ==> (#[trigger] self.functions[i]).id == i + 1
                && 0 <= self.functions[i].name < self.strings.len()
                && 0 <= self.functions[i].filename < self.strings.len()
        &&& forall|i: int, j: int|
            0 <= i < self.functions.len() && 0 <= j < self.functions.len() && i != j
                ==> !(#[trigger] self.functions[i].name == #[trigger] self.functions[j].name
                    && self.functions[i].filename == self.functions[j].filename)
        &&& self.loc_keys.len() == self.locations.len()
        &&& forall|i: int|
            0 <= i < self.locations.len() ==> (#[trigger] self.locations[i]).id == i + 1
                && self.locations[i].lines.len() == 1
                && self.locations[i].lines[0].function_id == self.loc_keys[i].function_id
                && self.locations[i].lines[0].line == stored_line(
                    self.show_line_numbers,
                    self.loc_keys[i].line,
                )
        &&& forall|i: int|
            0 <= i < self.loc_keys.len()
                ==> 1 <= (#[trigger] self.loc_keys[i]).function_id <= self.functions.len()
        &&& forall|i: int, j: int|
            0 <= i < self.loc_keys.len() && 0 <= j < self.loc_keys.len() && i != j
                ==> !((#[trigger] self.loc_keys[i]).function_id
                    == (#[trigger] self.loc_keys[j]).function_id
                    && self.loc_keys[i].line == self.loc_keys[j].line)
        &&& self.sample_keys.len() == self.samples.len()
        &&& forall|i: int|
            0 <= i < self.samples.len() ==> (#[trigger] self.samples[i]).location_ids
                == self.sample_keys[i].location_ids
                && self.samples[i].values.len() == 1
        &&& forall|i: int, k: int|
            0 <= i < self.sample_keys.len()
                && 0 <= k < (#[trigger] self.sample_keys[i]).location_ids.len()
                ==> 1 <= #[trigger] self.sample_keys[i].location_ids[k] <= self.locations.len()
        &&& forall|i: int, j: int|
            0 <= i < self.sample_keys.len() && 0 <= j < self.sample_keys.len() && i != j
                ==> !((#[trigger] self.sample_keys[i]).thread_id
                    == (#[trigger] self.sample_keys[j]).thread_id
                    && self.sample_keys[i].location_ids == self.sample_keys[j].location_ids)
    }
}

// ---------------------------------------------------------------------------
// Growth ordering and machine-limit headroom
// ---------------------------------------------------------------------------

/// `m2` is the same session a little later: the static metadata is unchanged
/// and every append-only table of `m1` is a prefix of its table in `m2`.
/// (Samples are not append-only — their counters mutate — so only their key
/// table is covered.)
pub open spec fn extends(m2: Model, m1: Model) -> bool {
    &&& m2.show_line_numbers == m1.show_line_numbers
    &&& m2.period == m1.period
    &&& m2.sample_type == m1.sample_type
    &&& m2.period_type == m1.period_type
    &&& m1.strings.is_prefix_of(m2.strings)
    &&& m1.functions.is_prefix_of(m2.functions)
    &&& m1.locations.is_prefix_of(m2.locations)
    &&& m1.loc_keys.is_prefix_of(m2.loc_keys)
    &&& m1.sample_keys.is_prefix_of(m2.sample_keys)
}

/// Headroom that the machine representation forces before recording one
/// stack: every index the call can mint must fit its integer type, and the
/// counter it increments must not be at its ceiling. Recording interns at
/// most two strings per frame and at most four label strings, and at most
/// one function and one location per frame.
pub open spec fn record_room(m: Model, st: StackM) -> bool {
    &&& m.strings.len() + 2 * st.frames.len() + 4 <= i64::MAX
    &&& m.functions.len() + st.frames.len() + 1 <= u64::MAX
    &&& m.locations.len() + st.frames.len() + 1 <= u64::MAX
    &&& m.samples.len() < usize::MAX
    &&& st.thread_id <= i64::MAX
    &&& st.pid <= i64::MAX
    &&& {
        let (m1, locs) = resolve_frames(m, st.frames);
        sample_contains(m1.sample_keys, st.thread_id, locs)
            ==> m1.samples[sample_index_of(m1.sample_keys, st.thread_id, locs)].values[0]
                < i64::MAX
    }
}

} // verus!
