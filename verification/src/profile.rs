//! The executable aggregator. Every method is proved to perform exactly the
//! transition of the same name in `model`.

use vstd::prelude::*;

use crate::lemmas::{
    lemma_build_labels_props, lemma_fun_found, lemma_get_sample_props, lemma_intern_function_props,
    lemma_intern_location_props, lemma_intern_string_props, lemma_loc_found,
    lemma_resolve_frame_props, lemma_resolve_frames_props, lemma_sample_found, lemma_str_found,
};
use crate::model::{
    bump_sample, fun_contains, get_sample, init_model, init_strings, intern_function,
    intern_location, intern_string, loc_contains, record_model, record_room, resolve_frame,
    resolve_frames, sample_contains, str_contains, str_index_of, FrameM, FunctionM,
    LabelM, LineM,
    LocKeyM, LocationM, Model, SampleKeyM, SampleM, StackM, ValueTypeM,
};

verus! {

/// Aggregator configuration, fixed at construction.
pub struct Config {
    /// Samples per second; must be positive.
    pub sampling_rate: u64,
    /// When false, stored location lines are forced to the unset sentinel 0,
    /// while deduplication still uses the true line.
    pub show_line_numbers: bool,
}

/// One raw stack frame as delivered by the sampler.
pub struct Frame {
    pub name: String,
    pub filename: String,
    pub line: u32,
}

/// One observed call stack plus its thread/process metadata.
pub struct StackTrace {
    pub frames: Vec<Frame>,
    pub thread_id: u64,
    pub thread_name: Option<String>,
    pub pid: u64,
}

/// A pair of string-table indices naming a kind of value and its unit.
pub struct ValueType {
    pub ty: i64,
    pub unit: i64,
}

/// A deduplicated function identity, keyed by `(name, filename)`.
pub struct Function {
    pub id: u64,
    pub name: i64,
    pub system_name: i64,
    pub filename: i64,
    pub start_line: i64,
}

/// One line record inside a location.
pub struct Line {
    pub function_id: u64,
    pub line: i64,
    pub column: i64,
}

/// A deduplicated call-site record with exactly one line entry.
pub struct Location {
    pub id: u64,
    pub mapping_id: u64,
    pub address: u64,
    pub line: Vec<Line>,
    pub is_folded: bool,
}

/// A key/value annotation attached to a sample at creation.
pub struct Label {
    pub key: i64,
    pub str_index: i64,
    pub num: i64,
    pub num_unit: i64,
}

/// An aggregated observation of one distinct call stack, with a single hit
/// counter in `value` and the labels attached at creation.
pub struct Sample {
    pub location_id: Vec<u64>,
    pub value: Vec<i64>,
    pub label: Vec<Label>,
}

/// The location deduplication key: the function and the *true* source line.
pub struct LocKey {
    pub function_id: u64,
    pub line: u32,
}

/// The sample deduplication key: the thread and the location-ID sequence.
pub struct SampleKey {
    pub thread_id: u64,
    pub location_ids: Vec<u64>,
}

/// The profile aggregator: the growing output object graph together with the
/// deduplication key tables that drive interning.
pub struct PProf {
    pub show_line_numbers: bool,
    pub period: i64,
    pub sample_type: Vec<ValueType>,
    pub period_type: Option<ValueType>,
    pub strings: Vec<String>,
    pub functions: Vec<Function>,
    pub locations: Vec<Location>,
    pub loc_keys: Vec<LocKey>,
    pub samples: Vec<Sample>,
    pub sample_keys: Vec<SampleKey>,
}

// ---------------------------------------------------------------------------
// Views into the mathematical model
// ---------------------------------------------------------------------------

impl View for ValueType {
    type V = ValueTypeM;

    open spec fn view(&self) -> ValueTypeM {
        ValueTypeM { ty: self.ty as int, unit: self.unit as int }
    }
}

impl View for Function {
    type V = FunctionM;

    open spec fn view(&self) -> FunctionM {
        FunctionM {
            id: self.id as int,
            name: self.name as int,
            system_name: self.system_name as int,
            filename: self.filename as int,
            start_line: self.start_line as int,
        }
    }
}

impl View for Line {
    type V = LineM;

    open spec fn view(&self) -> LineM {
        LineM {
            function_id: self.function_id as int,
            line: self.line as int,
            column: self.column as int,
        }
    }
}

impl View for Location {
    type V = LocationM;

    open spec fn view(&self) -> LocationM {
        LocationM {
            id: self.id as int,
            mapping_id: self.mapping_id as int,
            address: self.address as int,
            lines: lines_view(self.line@),
            is_folded: self.is_folded,
        }
    }
}

impl View for Label {
    type V = LabelM;

    open spec fn view(&self) -> LabelM {
        LabelM {
            key: self.key as int,
            str_index: self.str_index as int,
            num: self.num as int,
            num_unit: self.num_unit as int,
        }
    }
}

/// A sequence of machine integers as mathematical integers.
pub open spec fn u64_views(s: Seq<u64>) -> Seq<int> {
    s.map_values(|x: u64| x as int)
}

/// A sequence of machine integers as mathematical integers.
pub open spec fn i64_views(s: Seq<i64>) -> Seq<int> {
    s.map_values(|x: i64| x as int)
}

/// The string table as a sequence of character sequences.
pub open spec fn strings_view(v: Seq<String>) -> Seq<Seq<char>> {
    v.map_values(|s: String| s@)
}

pub open spec fn functions_view(v: Seq<Function>) -> Seq<FunctionM> {
    v.map_values(|f: Function| f@)
}

pub open spec fn locations_view(v: Seq<Location>) -> Seq<LocationM> {
    v.map_values(|l: Location| l@)
}

pub open spec fn loc_keys_view(v: Seq<LocKey>) -> Seq<LocKeyM> {
    v.map_values(|k: LocKey| k@)
}

pub open spec fn samples_view(v: Seq<Sample>) -> Seq<SampleM> {
    v.map_values(|s: Sample| s@)
}

pub open spec fn sample_keys_view(v: Seq<SampleKey>) -> Seq<SampleKeyM> {
    v.map_values(|k: SampleKey| k@)
}

pub open spec fn labels_view(v: Seq<Label>) -> Seq<LabelM> {
    v.map_values(|l: Label| l@)
}

pub open spec fn lines_view(v: Seq<Line>) -> Seq<LineM> {
    v.map_values(|l: Line| l@)
}

pub open spec fn value_types_view(v: Seq<ValueType>) -> Seq<ValueTypeM> {
    v.map_values(|t: ValueType| t@)
}

pub open spec fn frames_view(v: Seq<Frame>) -> Seq<FrameM> {
    v.map_values(|f: Frame| f@)
}

impl View for Sample {
    type V = SampleM;

    open spec fn view(&self) -> SampleM {
        SampleM {
            location_ids: u64_views(self.location_id@),
            values: i64_views(self.value@),
            labels: labels_view(self.label@),
        }
    }
}

impl View for LocKey {
    type V = LocKeyM;

    open spec fn view(&self) -> LocKeyM {
        LocKeyM { function_id: self.function_id as int, line: self.line as int }
    }
}

impl View for SampleKey {
    type V = SampleKeyM;

    open spec fn view(&self) -> SampleKeyM {
        SampleKeyM {
            thread_id: self.thread_id as int,
            location_ids: u64_views(self.location_ids@),
        }
    }
}

impl View for Frame {
    type V = FrameM;

    open spec fn view(&self) -> FrameM {
        FrameM { name: self.name@, filename: self.filename@, line: self.line as int }
    }
}

impl View for StackTrace {
    type V = StackM;

    open spec fn view(&self) -> StackM {
        StackM {
            frames: frames_view(self.frames@),
            thread_id: self.thread_id as int,
            thread_name: match self.thread_name {
                Some(n) => Some(n@),
                None => None,
            },
            pid: self.pid as int,
        }
    }
}

impl View for PProf {
    type V = Model;

    open spec fn view(&self) -> Model {
        Model {
            show_line_numbers: self.show_line_numbers,
            period: self.period as int,
            sample_type: value_types_view(self.sample_type@),
            period_type: match self.period_type {
                Some(v) => Some(v@),
                None => None,
            },
            strings: strings_view(self.strings@),
            functions: functions_view(self.functions@),
            locations: locations_view(self.locations@),
            loc_keys: loc_keys_view(self.loc_keys@),
            samples: samples_view(self.samples@),
            sample_keys: sample_keys_view(self.sample_keys@),
        }
    }
}

// ---------------------------------------------------------------------------
// Errors
// ---------------------------------------------------------------------------

/// The error type of `record`. Recording never fails under the stated input
/// contract; the type exists for interface symmetry with the serialization
/// boundary that eventually writes the profile out.
pub struct ProfError;

// ---------------------------------------------------------------------------
// Helpers
// ---------------------------------------------------------------------------

/// Element-for-element copy of a location-ID vector.
fn copy_u64_vec(v: &Vec<u64>) -> (r: Vec<u64>)
    ensures
        r@ == v@,
{
    let mut r: Vec<u64> = Vec::new();
    let mut j: usize = 0;
    while j < v.len()
        invariant
            j <= v@.len(),
            r@.len() == j,
            forall|k: int| 0 <= k < j ==> r@[k] == #[trigger] v@[k],
        decreases v@.len() - j,
    {
        r.push(v[j]);
        j += 1;
    }
    proof {
        assert(r@ =~= v@);
    }
    r
}

/// Equality of two location-ID vectors, stated over their models.
fn u64_vec_eq(a: &Vec<u64>, b: &Vec<u64>) -> (r: bool)
    ensures
        r == (u64_views(a@) == u64_views(b@)),
{
    if a.len() != b.len() {
        proof {
            assert(u64_views(a@).len() != u64_views(b@).len());
        }
        return false;
    }
    let mut j: usize = 0;
    while j < a.len()
        invariant
            a@.len() == b@.len(),
            j <= a@.len(),
            forall|k: int| 0 <= k < j ==> a@[k] == #[trigger] b@[k],
        decreases a@.len() - j,
    {
        if a[j] != b[j] {
            proof {
                assert(u64_views(a@)[j as int] != u64_views(b@)[j as int]);
            }
            return false;
        }
        j += 1;
    }
    proof {
        assert(u64_views(a@) =~= u64_views(b@));
    }
    true
}

// ---------------------------------------------------------------------------
// The aggregator
// ---------------------------------------------------------------------------

impl PProf {
    /// Construct an empty profile: the fixed strings are interned up front so
    /// their indices are deterministic, the single sample type counts
    /// "count"/"times", the period type is "cpu"/"nanoseconds", and the
    /// period is `1_000_000_000 / sampling_rate` nanoseconds.
    pub fn new(config: &Config) -> (p: PProf)
        requires
            config.sampling_rate >= 1,
        ensures
            p@ == init_model(config.sampling_rate as int, config.show_line_numbers),
            p@.wf(),
    {
        let mut p = PProf {
            show_line_numbers: config.show_line_numbers,
            period: (1_000_000_000u64 / config.sampling_rate) as i64,
            sample_type: Vec::new(),
            period_type: None,
            strings: Vec::new(),
            functions: Vec::new(),
            locations: Vec::new(),
            loc_keys: Vec::new(),
            samples: Vec::new(),
            sample_keys: Vec::new(),
        };
        p.strings.push(String::new());
        proof {
            reveal_strlit("");
            reveal_strlit("count");
            reveal_strlit("times");
            reveal_strlit("cpu");
            reveal_strlit("nanoseconds");
            assert(""@ =~= Seq::<char>::empty());
            assert(""@.len() == 0 && "count"@.len() == 5 && "times"@.len() == 5
                && "cpu"@.len() == 3 && "nanoseconds"@.len() == 11);
            assert("count"@[0] == 'c' && "times"@[0] == 't');
            assert(strings_view(p.strings@) =~= seq![""@]);
            assert(p@.wf());
        }
        let ghost m0 = p@;
        proof {
            if str_contains(m0.strings, "count"@) {
                let w = str_index_of(m0.strings, "count"@);
                assert(w == 0 && m0.strings[w] == "count"@);
                assert(false);
            }
        }
        let ty_count = p.get_string_index("count");
        let ghost m1 = p@;
        proof {
            assert(m1.strings =~= seq![""@, "count"@]);
            assert(ty_count == 1);
            if str_contains(m1.strings, "times"@) {
                let w = str_index_of(m1.strings, "times"@);
                assert(0 <= w < 2 && m1.strings[w] == "times"@);
                assert(false);
            }
        }
        let unit_times = p.get_string_index("times");
        let ghost m2 = p@;
        proof {
            assert(m2.strings =~= seq![""@, "count"@, "times"@]);
            assert(unit_times == 2);
        }
        proof {
            assert(value_types_view(p.sample_type@).len() == 0);
            assert(p.sample_type@ =~= Seq::<ValueType>::empty());
        }
        p.sample_type.push(ValueType { ty: ty_count, unit: unit_times });
        proof {
            assert(value_types_view(p.sample_type@) =~= seq![ValueTypeM { ty: 1, unit: 2 }]);
            if str_contains(m2.strings, "cpu"@) {
                let w = str_index_of(m2.strings, "cpu"@);
                assert(0 <= w < 3 && m2.strings[w] == "cpu"@);
                assert(false);
            }
        }
        let ty_cpu = p.get_string_index("cpu");
        let ghost m3 = p@;
        proof {
            assert(m3.strings =~= seq![""@, "count"@, "times"@, "cpu"@]);
            assert(ty_cpu == 3);
            if str_contains(m3.strings, "nanoseconds"@) {
                let w = str_index_of(m3.strings, "nanoseconds"@);
                assert(0 <= w < 4 && m3.strings[w] == "nanoseconds"@);
                assert(false);
            }
        }
        let unit_ns = p.get_string_index("nanoseconds");
        p.period_type = Some(ValueType { ty: ty_cpu, unit: unit_ns });
        proof {
            assert(unit_ns == 4);
            assert(p@.strings =~= init_strings());
            assert(value_types_view(p.sample_type@) =~= seq![ValueTypeM { ty: 1, unit: 2 }]);
            assert(p@ =~= init_model(config.sampling_rate as int, config.show_line_numbers));
        }
        p
    }

    /// Intern one string: the index it already has, or the next free index.
    fn get_string_index(&mut self, s: &str) -> (i: i64)
        requires
            old(self)@.wf(),
            old(self)@.strings.len() + 1 <= i64::MAX,
        ensures
            final(self)@ == intern_string(old(self)@, s@).0,
            i as int == intern_string(old(self)@, s@).1,
            final(self)@.wf(),
    {
        proof {
            lemma_intern_string_props(old(self)@, s@);
        }
        let key: String = s.to_owned();
        let n = self.strings.len();
        let mut j: usize = 0;
        while j < n
            invariant
                self == old(self),
                old(self)@.wf(),
                old(self)@.strings.len() + 1 <= i64::MAX,
                key@ == s@,
                n == self.strings@.len(),
                j <= n,
                forall|k: int| 0 <= k < j ==> strings_view(self.strings@)[k] != s@,
            decreases n - j,
        {
            if self.strings[j] == key {
                proof {
                    assert(strings_view(self.strings@)[j as int] == s@);
                    lemma_str_found(old(self)@.strings, s@, j as int);
                }
                return j as i64;
            }
            j += 1;
        }
        proof {
            assert(!str_contains(old(self)@.strings, s@));
        }
        let i = self.strings.len() as i64;
        self.strings.push(key);
        proof {
            assert(strings_view(self.strings@) =~= old(self)@.strings.push(s@));
            assert(self@ =~= intern_string(old(self)@, s@).0);
        }
        i
    }

    /// Intern one function keyed by its name and filename string indices.
    fn get_function_id(&mut self, name: i64, filename: i64) -> (id: u64)
        requires
            old(self)@.wf(),
            0 <= name < old(self)@.strings.len(),
            0 <= filename < old(self)@.strings.len(),
            old(self)@.functions.len() + 1 <= u64::MAX,
        ensures
            final(self)@ == intern_function(old(self)@, name as int, filename as int).0,
            id as int == intern_function(old(self)@, name as int, filename as int).1,
            final(self)@.wf(),
    {
        proof {
            lemma_intern_function_props(old(self)@, name as int, filename as int);
        }
        let n = self.functions.len();
        let mut j: usize = 0;
        while j < n
            invariant
                self == old(self),
                old(self)@.wf(),
                n == self.functions@.len(),
                j <= n,
                forall|k: int|
                    0 <= k < j ==> !((#[trigger] functions_view(self.functions@)[k]).name
                        == name as int && functions_view(self.functions@)[k].filename
                        == filename as int),
            decreases n - j,
        {
            if self.functions[j].name == name && self.functions[j].filename == filename {
                proof {
                    lemma_fun_found(old(self)@, name as int, filename as int, j as int);
                }
                return self.functions[j].id;
            }
            j += 1;
        }
        proof {
            assert(!fun_contains(old(self)@.functions, name as int, filename as int));
        }
        let id = self.functions.len() as u64 + 1;
        self.functions.push(
            Function { id, name, system_name: 0, filename, start_line: 0 },
        );
        proof {
            assert(functions_view(self.functions@) =~= old(self)@.functions.push(
                crate::model::new_function(
                    old(self)@.functions.len() as int + 1,
                    name as int,
                    filename as int,
                ),
            ));
            assert(self@ =~= intern_function(old(self)@, name as int, filename as int).0);
        }
        id
    }

    /// Intern one location keyed by the function ID and the *true* line; the
    /// stored line follows the display policy.
    fn get_location_id(&mut self, function_id: u64, line: u32) -> (id: u64)
        requires
            old(self)@.wf(),
            1 <= function_id <= old(self)@.functions.len(),
            old(self)@.locations.len() + 1 <= u64::MAX,
        ensures
            final(self)@ == intern_location(old(self)@, function_id as int, line as int).0,
            id as int == intern_location(old(self)@, function_id as int, line as int).1,
            final(self)@.wf(),
    {
        proof {
            lemma_intern_location_props(old(self)@, function_id as int, line as int);
        }
        let n = self.loc_keys.len();
        let mut j: usize = 0;
        while j < n
            invariant
                self == old(self),
                old(self)@.wf(),
                n == self.loc_keys@.len(),
                j <= n,
                forall|k: int|
                    0 <= k < j ==> !((#[trigger] loc_keys_view(self.loc_keys@)[k]).function_id
                        == function_id as int && loc_keys_view(self.loc_keys@)[k].line
                        == line as int),
            decreases n - j,
        {
            if self.loc_keys[j].function_id == function_id && self.loc_keys[j].line == line {
                proof {
                    lemma_loc_found(old(self)@, function_id as int, line as int, j as int);
                }
                return self.locations[j].id;
            }
            j += 1;
        }
        proof {
            assert(!loc_contains(old(self)@.loc_keys, function_id as int, line as int));
        }
        let id = self.locations.len() as u64 + 1;
        let stored: i64 = if self.show_line_numbers {
            line as i64
        } else {
            0
        };
        let mut line_recs: Vec<Line> = Vec::new();
        line_recs.push(Line { function_id, line: stored, column: 0 });
        self.locations.push(
            Location { id, mapping_id: 0, address: 0, line: line_recs, is_folded: false },
        );
        self.loc_keys.push(LocKey { function_id, line });
        proof {
            let new_loc = crate::model::new_location(
                old(self)@.locations.len() as int + 1,
                function_id as int,
                old(self)@.show_line_numbers,
                line as int,
            );
            assert(lines_view(self.locations@[self.locations@.len() - 1].line@) =~= new_loc.lines);
            assert(locations_view(self.locations@) =~= old(self)@.locations.push(new_loc));
            assert(loc_keys_view(self.loc_keys@) =~= old(self)@.loc_keys.push(
                LocKeyM { function_id: function_id as int, line: line as int },
            ));
            assert(self@ =~= intern_location(old(self)@, function_id as int, line as int).0);
        }
        id
    }

    /// Resolve one frame to its location ID, interning the strings, the
    /// function and the location on the way.
    fn add_frame(&mut self, frame: &Frame) -> (id: u64)
        requires
            old(self)@.wf(),
            old(self)@.strings.len() + 2 <= i64::MAX,
            old(self)@.functions.len() + 1 <= u64::MAX,
            old(self)@.locations.len() + 1 <= u64::MAX,
        ensures
            final(self)@ == resolve_frame(old(self)@, frame@).0,
            id as int == resolve_frame(old(self)@, frame@).1,
            final(self)@.wf(),
    {
        proof {
            lemma_intern_string_props(old(self)@, frame@.name);
            lemma_intern_string_props(intern_string(old(self)@, frame@.name).0, frame@.filename);
        }
        let name = self.get_string_index(frame.name.as_str());
        let filename = self.get_string_index(frame.filename.as_str());
        let function_id = self.get_function_id(name, filename);
        let id = self.get_location_id(function_id, frame.line);
        proof {
            assert(final(self)@ == resolve_frame(old(self)@, frame@).0);
        }
        id
    }

    /// Build a string-valued label, interning both strings.
    fn make_label(&mut self, key: &str, value: &str) -> (l: Label)
        requires
            old(self)@.wf(),
            old(self)@.strings.len() + 2 <= i64::MAX,
        ensures
            final(self)@ == crate::model::labelled_str(old(self)@, key@, value@).0,
            l@ == crate::model::labelled_str(old(self)@, key@, value@).1,
            final(self)@.wf(),
    {
        proof {
            lemma_intern_string_props(old(self)@, key@);
        }
        let k = self.get_string_index(key);
        let v = self.get_string_index(value);
        Label { key: k, str_index: v, num: 0, num_unit: 0 }
    }

    /// Build a number-valued label, interning its key string.
    fn make_label_num(&mut self, key: &str, num: i64) -> (l: Label)
        requires
            old(self)@.wf(),
            old(self)@.strings.len() + 1 <= i64::MAX,
        ensures
            final(self)@ == crate::model::labelled_num(old(self)@, key@, num as int).0,
            l@ == crate::model::labelled_num(old(self)@, key@, num as int).1,
            final(self)@.wf(),
    {
        let k = self.get_string_index(key);
        Label { key: k, str_index: 0, num, num_unit: 0 }
    }

    /// Find or create the sample for this thread and resolved stack. A fresh
    /// sample gets its labels here, once; an existing one is not touched.
    fn get_sample_index(&mut self, frames: &Vec<u64>, stack: &StackTrace) -> (i: usize)
        requires
            old(self)@.wf(),
            old(self)@.strings.len() + 4 <= i64::MAX,
            old(self)@.samples.len() < usize::MAX,
            stack.thread_id <= i64::MAX,
            stack.pid <= i64::MAX,
        ensures
            final(self)@ == get_sample(old(self)@, stack@, u64_views(frames@)).0,
            i as int == get_sample(old(self)@, stack@, u64_views(frames@)).1,
    {
        let ghost locs = u64_views(frames@);
        let n = self.sample_keys.len();
        let mut j: usize = 0;
        while j < n
            invariant
                self == old(self),
                old(self)@.wf(),
                n == self.sample_keys@.len(),
                j <= n,
                locs == u64_views(frames@),
                forall|k: int|
                    0 <= k < j ==> !((#[trigger] sample_keys_view(self.sample_keys@)[k]).thread_id
                        == stack.thread_id as int && sample_keys_view(self.sample_keys@)[k]
                        .location_ids == locs),
            decreases n - j,
        {
            let same_stack = u64_vec_eq(&self.sample_keys[j].location_ids, frames);
            if self.sample_keys[j].thread_id == stack.thread_id && same_stack {
                proof {
                    lemma_sample_found(old(self)@, stack@.thread_id, locs, j as int);
                }
                return j;
            }
            j += 1;
        }
        proof {
            assert(!sample_contains(old(self)@.sample_keys, stack@.thread_id, locs));
            lemma_build_labels_props(old(self)@, stack@);
        }
        let i = self.samples.len();
        let ghost m0 = self@;
        let mut label: Vec<Label> = Vec::new();
        match &stack.thread_name {
            Some(name) => {
                let l = self.make_label("thread_name", name.as_str());
                label.push(l);
            },
            None => {},
        }
        let tid_label = self.make_label_num("thread_id", stack.thread_id as i64);
        label.push(tid_label);
        let pid_label = self.make_label_num("pid", stack.pid as i64);
        label.push(pid_label);
        proof {
            assert(labels_view(label@) =~= crate::model::build_labels(m0, stack@).1);
            assert(self@ == crate::model::build_labels(m0, stack@).0);
        }
        let mut value: Vec<i64> = Vec::new();
        value.push(0);
        let location_id = copy_u64_vec(frames);
        let key_ids = copy_u64_vec(frames);
        proof {
            assert(u64_views(location_id@) =~= locs);
            assert(u64_views(key_ids@) =~= locs);
            assert(i64_views(value@) =~= seq![0int]);
        }
        self.samples.push(Sample { location_id, value, label });
        self.sample_keys.push(SampleKey { thread_id: stack.thread_id, location_ids: key_ids });
        proof {
            let mb = crate::model::build_labels(m0, stack@).0;
            let new_sample = SampleM {
                location_ids: locs,
                values: seq![0int],
                labels: crate::model::build_labels(m0, stack@).1,
            };
            assert(self.samples@[self.samples@.len() - 1]@ =~~= new_sample);
            assert(samples_view(self.samples@) =~~= mb.samples.push(new_sample));
            assert(self.sample_keys@[self.sample_keys@.len() - 1]@
                =~~= (SampleKeyM { thread_id: stack@.thread_id, location_ids: locs }));
            assert(sample_keys_view(self.sample_keys@) =~~= mb.sample_keys.push(
                SampleKeyM { thread_id: stack@.thread_id, location_ids: locs },
            ));
            assert(self@ =~~= get_sample(m0, stack@, locs).0);
        }
        i
    }

    /// Record one observed stack: resolve every frame in order, find or
    /// create the per-thread sample, and increment its counter by one.
    /// Recording never fails on inputs within the stated machine limits.
    pub fn record(&mut self, stack: &StackTrace) -> (r: Result<(), ProfError>)
        requires
            old(self)@.wf(),
            record_room(old(self)@, stack@),
        ensures
            final(self)@ == record_model(old(self)@, stack@),
            final(self)@.wf(),
            r is Ok,
    {
        let ghost m0 = self@;
        let ghost fs = frames_view(stack.frames@);
        let n = stack.frames.len();
        let mut frames: Vec<u64> = Vec::new();
        proof {
            assert(fs.skip(0) =~= fs);
            assert(u64_views(frames@) =~= Seq::<int>::empty());
            assert(u64_views(frames@) + resolve_frames(self@, fs).1
                =~= resolve_frames(self@, fs).1);
        }
        let mut idx: usize = 0;
        while idx < n
            invariant
                old(self)@ == m0,
                m0.wf(),
                self@.wf(),
                record_room(m0, stack@),
                fs == frames_view(stack.frames@),
                n == stack.frames@.len(),
                idx <= n,
                frames@.len() == idx,
                self@.samples == m0.samples,
                self@.sample_keys == m0.sample_keys,
                self@.strings.len() <= m0.strings.len() + 2 * idx,
                self@.functions.len() <= m0.functions.len() + idx,
                self@.locations.len() <= m0.locations.len() + idx,
                ({
                    let (mf, rest) = resolve_frames(self@, fs.skip(idx as int));
                    resolve_frames(m0, fs) == (mf, u64_views(frames@) + rest)
                }),
            decreases n - idx,
        {
            proof {
                lemma_resolve_frame_props(self@, fs[idx as int]);
                assert(fs.skip(idx as int)[0] == fs[idx as int]);
                assert(fs.skip(idx as int).drop_first() =~= fs.skip(idx as int + 1));
            }
            let ghost m_before = self@;
            let id = self.add_frame(&stack.frames[idx]);
            frames.push(id);
            idx += 1;
            proof {
                assert(u64_views(frames@) =~= u64_views(frames@.drop_last()).push(id as int));
                let (mf, rest) = resolve_frames(self@, fs.skip(idx as int));
                assert(resolve_frames(m_before, fs.skip(idx as int - 1))
                    == (mf, seq![id as int] + rest));
                assert(u64_views(frames@.drop_last()) + (seq![id as int] + rest)
                    =~= u64_views(frames@) + rest);
            }
        }
        proof {
            assert(fs.skip(n as int) =~= Seq::<FrameM>::empty());
            assert(resolve_frames(self@, fs.skip(n as int)) == (self@, Seq::<int>::empty()));
            assert(u64_views(frames@) + Seq::<int>::empty() =~= u64_views(frames@));
            assert(resolve_frames(m0, fs) == (self@, u64_views(frames@)));
            lemma_resolve_frames_props(m0, fs);
            lemma_get_sample_props(self@, stack@, u64_views(frames@));
        }
        let i = self.get_sample_index(&frames, stack);
        let ghost m2 = self@;
        let c = self.samples[i].value[0];
        proof {
            assert(i64_views(self.samples@[i as int].value@)[0] == c as int);
            assert(c < i64::MAX);
        }
        self.samples[i].value[0] = c + 1;
        proof {
            assert(i64_views(self.samples@[i as int].value@) =~= seq![c as int + 1]);
            assert(samples_view(self.samples@) =~= bump_sample(m2.samples, i as int));
            assert(self@ =~= record_model(m0, stack@));
            crate::lemmas::lemma_record_props(m0, stack@);
        }
        Ok(())
    }
}

} // verus!
