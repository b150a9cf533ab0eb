//! Backtraces: which code position of each active call is reported, the
//! locations kept in an exception, and their printed form
//! `"file:line:in method"`.  Reading the call stack and the debug line
//! tables is the virtual machine's work; these functions take what it found.

use vstd::prelude::*;
use crate::vformat::{decimal, int_to_decimal, push_all};
use crate::error::ValueTag;

verus! {

/// One entry of the call stack, as the backtrace sees it.
pub struct CallFrame {
    /// The frame runs Ruby code (not a C function), so it has a body to
    /// look lines up in.
    pub ruby: bool,
    /// Where in its body the frame raised, when it did.
    pub err: Option<u32>,
    /// The saved program counter: for any frame but the innermost, the
    /// position in the caller's body to return to.
    pub pc: Option<u32>,
    /// The method the frame runs (0 for none).
    pub mid: u32,
}

/// A code position whose line is looked up for the backtrace: the frame and
/// the offset into its body.
#[derive(Clone, Copy, Debug, PartialEq, Eq, Structural)]
pub struct BacktraceStop {
    pub frame: usize,
    pub pc: i64,
}

/// The position reported for frame `i` when the innermost frame is `ciidx`
/// and runs at `pc0`: where it raised; else just before where its callee
/// returns to; the innermost frame reports `pc0`.  `None` for frames that
/// do not run Ruby code and for frames whose callee saved no position.
pub open spec fn frame_pc(frames: Seq<CallFrame>, ciidx: int, pc0: i64, i: int) -> Option<i64> {
    let f = frames[i];
    if !f.ruby {
        None
    } else if f.err is Some {
        Some(f.err->0 as i64)
    } else if i + 1 <= ciidx {
        match frames[i + 1].pc {
            None => None,
            Some(p) => Some((p - 1) as i64),
        }
    } else {
        Some(pc0)
    }
}

/// The positions reported for frames `i` down to 0, innermost first.
pub open spec fn stops_from(frames: Seq<CallFrame>, ciidx: int, pc0: i64, i: int) -> Seq<
    BacktraceStop,
>
    decreases i + 1,
{
    if i < 0 {
        Seq::empty()
    } else {
        let rest = stops_from(frames, ciidx, pc0, i - 1);
        match frame_pc(frames, ciidx, pc0, i) {
            Some(p) => seq![BacktraceStop { frame: i as usize, pc: p }] + rest,
            None => rest,
        }
    }
}

/// The stops of frames `i` down to 0 come innermost first, one per frame at
/// most, only for frames that run Ruby code; a frame that raised reports
/// where it raised, the innermost frame otherwise `pc0`, and any other frame
/// the position just before where its callee returns to.
pub proof fn lemma_stops_shape(frames: Seq<CallFrame>, ciidx: int, pc0: i64, i: int)
    requires
        i < frames.len() <= usize::MAX,
    ensures
        ({
            let st = stops_from(frames, ciidx, pc0, i);
            &&& forall|k: int| 0 <= k < st.len() ==> 0 <= #[trigger] st[k].frame <= i
            &&& forall|k1: int, k2: int|
                0 <= k1 < k2 < st.len() ==> #[trigger] st[k1].frame > #[trigger] st[k2].frame
            &&& forall|k: int|
                0 <= k < st.len() ==> {
                    let f = #[trigger] st[k].frame as int;
                    &&& frames[f].ruby
                    &&& frames[f].err is Some ==> st[k].pc == frames[f].err->0 as i64
                    &&& frames[f].err is None && f + 1 <= ciidx ==> frames[f + 1].pc is Some
                        && st[k].pc == (frames[f + 1].pc->0 - 1) as i64
                    &&& frames[f].err is None && f + 1 > ciidx ==> st[k].pc == pc0
                }
        }),
    decreases i + 1,
{
    if i >= 0 {
        lemma_stops_shape(frames, ciidx, pc0, i - 1);
        let rest = stops_from(frames, ciidx, pc0, i - 1);
        let st = stops_from(frames, ciidx, pc0, i);
        match frame_pc(frames, ciidx, pc0, i) {
            Some(p) => {
                assert(st == seq![BacktraceStop { frame: i as usize, pc: p }] + rest);
                assert forall|k: int| 0 < k < st.len() implies #[trigger] st[k] == rest[k - 1] by {}
                assert(st[0].frame == i && st[0].pc == p);
                assert forall|k: int| 0 <= k < st.len() implies 0 <= #[trigger] st[k].frame <= i by {
                    if k > 0 {
                        assert(st[k] == rest[k - 1]);
                    }
                }
                assert forall|k1: int, k2: int|
                    0 <= k1 < k2 < st.len() implies #[trigger] st[k1].frame > #[trigger] st[k2].frame by {
                    assert(st[k2] == rest[k2 - 1]);
                    if k1 > 0 {
                        assert(st[k1] == rest[k1 - 1]);
                    }
                }
            },
            None => {},
        }
    }
}

/// The innermost frame a backtrace starts from: `ciidx`, or frame 10 when
/// `ciidx` lies outside the stack.
pub open spec fn start_frame(frames: Seq<CallFrame>, ciidx: usize) -> int {
    if ciidx >= frames.len() {
        10
    } else {
        ciidx as int
    }
}

/// The code positions whose lines make up the backtrace of the call stack
/// `frames` (outermost first) when the innermost active frame is `ciidx`
/// and runs at `pc0`, innermost first.
pub fn each_backtrace(frames: &Vec<CallFrame>, ciidx: usize, pc0: i64) -> (r: Vec<BacktraceStop>)
    requires
        ciidx < frames@.len() || frames@.len() > 10,
    ensures
        r@ == stops_from(frames@, start_frame(frames@, ciidx), pc0, start_frame(frames@, ciidx)),
{
    let start: usize = if ciidx >= frames.len() { 10 } else { ciidx };
    let ghost top = start as int;
    let mut out: Vec<BacktraceStop> = Vec::new();
    let mut i: usize = start + 1;
    while i > 0
        invariant
            top == start_frame(frames@, ciidx),
            top == start as int,
            top < frames@.len(),
            i <= top + 1,
            stops_from(frames@, top, pc0, top) == out@ + stops_from(frames@, top, pc0, i - 1),
        decreases i,
    {
        let k = i - 1;
        let f = &frames[k];
        let pc: Option<i64> = if !f.ruby {
            None
        } else if let Some(e) = f.err {
            Some(e as i64)
        } else if k + 1 <= start {
            match frames[k + 1].pc {
                None => None,
                Some(p) => Some(p as i64 - 1),
            }
        } else {
            Some(pc0)
        };
        assert(pc == frame_pc(frames@, top, pc0, k as int));
        if let Some(p) = pc {
            let ghost out0 = out@;
            out.push(BacktraceStop { frame: k, pc: p });
            proof {
                assert(out@ =~= out0 + seq![BacktraceStop { frame: k, pc: p }]);
                assert(out@ + stops_from(frames@, top, pc0, k - 1) =~= out0 + stops_from(
                    frames@,
                    top,
                    pc0,
                    k as int,
                ));
            }
        }
        i = k;
    }
    proof {
        assert(out@ =~= out@ + stops_from(frames@, top, pc0, -1));
    }
    out
}

/// What the debug tables say about a stop: its line (-1 when unknown) and
/// its file name, when known.
pub struct DebugLookup {
    pub line: i32,
    pub file: Option<Vec<u8>>,
}

/// One location kept in a backtrace.
#[allow(non_camel_case_types)]
pub struct backtrace_location {
    pub lineno: i32,
    pub method_id: u32,
    pub filename: Option<Vec<u8>>,
}

/// The value of a location.
pub struct LocationView {
    pub lineno: i32,
    pub method_id: u32,
    pub filename: Option<Seq<u8>>,
}

impl View for backtrace_location {
    type V = LocationView;

    open spec fn view(&self) -> LocationView {
        LocationView {
            lineno: self.lineno,
            method_id: self.method_id,
            filename: match self.filename {
                Some(f) => Some(f@),
                None => None,
            },
        }
    }
}

/// `"(unknown)"`, the file name of a location whose file is not recorded.
pub open spec fn unknown_file() -> Seq<u8> {
    seq![40u8, 117u8, 110u8, 107u8, 110u8, 111u8, 119u8, 110u8, 41u8]
}

/// The locations kept for the first `n` stops: a stop whose line is unknown
/// is left out, and one whose file is unknown is kept as `"(unknown)"`.
pub open spec fn locations_upto(
    frames: Seq<CallFrame>,
    stops: Seq<BacktraceStop>,
    lookups: Seq<DebugLookup>,
    n: int,
) -> Seq<LocationView>
    decreases n,
{
    if n <= 0 {
        Seq::empty()
    } else {
        let before = locations_upto(frames, stops, lookups, n - 1);
        let l = lookups[n - 1];
        if l.line == -1 {
            before
        } else {
            before.push(
                LocationView {
                    lineno: l.line,
                    method_id: frames[stops[n - 1].frame as int].mid,
                    filename: Some(
                        match l.file {
                            Some(f) => f@,
                            None => unknown_file(),
                        },
                    ),
                },
            )
        }
    }
}

/// The locations a backtrace keeps, given the stops of the call stack
/// `frames` and what the debug tables say about each stop.
pub fn packed_backtrace(
    frames: &Vec<CallFrame>,
    stops: &Vec<BacktraceStop>,
    lookups: &Vec<DebugLookup>,
) -> (r: Vec<backtrace_location>)
    requires
        lookups@.len() == stops@.len(),
        forall|k: int| 0 <= k < stops@.len() ==> (#[trigger] stops@[k]).frame < frames@.len(),
    ensures
        r@.map_values(|l: backtrace_location| l@) == locations_upto(
            frames@,
            stops@,
            lookups@,
            stops@.len() as int,
        ),
{
    let mut out: Vec<backtrace_location> = Vec::new();
    let mut k: usize = 0;
    while k < stops.len()
        invariant
            k <= stops@.len(),
            lookups@.len() == stops@.len(),
            forall|j: int| 0 <= j < stops@.len() ==> (#[trigger] stops@[j]).frame < frames@.len(),
            out@.map_values(|l: backtrace_location| l@) == locations_upto(
                frames@,
                stops@,
                lookups@,
                k as int,
            ),
        decreases stops@.len() - k,
    {
        let l = &lookups[k];
        if l.line != -1 {
            let mut name: Vec<u8> = Vec::new();
            match &l.file {
                Some(f) => push_all(&mut name, f),
                None => {
                    name.push(40u8);
                    name.push(117u8);
                    name.push(110u8);
                    name.push(107u8);
                    name.push(110u8);
                    name.push(111u8);
                    name.push(119u8);
                    name.push(110u8);
                    name.push(41u8);
                },
            }
            let loc = backtrace_location {
                lineno: l.line,
                method_id: frames[stops[k].frame].mid,
                filename: Some(name),
            };
            let ghost before = out@;
            out.push(loc);
            proof {
                assert(name@ =~= match l.file {
                    Some(f) => f@,
                    None => unknown_file(),
                });
                assert(out@.map_values(|l: backtrace_location| l@) =~= before.map_values(
                    |l: backtrace_location| l@,
                ).push(loc@));
            }
        }
        k = k + 1;
    }
    out
}

/// The printed form of a location: `"file:line"`, followed by
/// `":in method"` when the location names a method.
pub open spec fn location_line(loc: LocationView, method: Seq<u8>) -> Seq<u8> {
    let base = loc.filename->0 + seq![58u8] + decimal(loc.lineno as int);
    if loc.method_id != 0 {
        base + seq![58u8, 105u8, 110u8, 32u8] + method
    } else {
        base
    }
}

/// A printed location starts with its file name, a colon and its line
/// number in decimal, and, when it names a method, ends with `":in "` and
/// the method's name.
pub proof fn lemma_location_line_shape(loc: LocationView, method: Seq<u8>)
    requires
        loc.filename is Some,
    ensures
        ({
            let line = location_line(loc, method);
            let head = loc.filename->0 + seq![58u8] + decimal(loc.lineno as int);
            &&& line.len() >= head.len()
            &&& line.subrange(0, head.len() as int) == head
            &&& loc.method_id != 0 ==> line == head + seq![58u8, 105u8, 110u8, 32u8] + method
            &&& loc.method_id == 0 ==> line == head
        }),
{
    let line = location_line(loc, method);
    let head = loc.filename->0 + seq![58u8] + decimal(loc.lineno as int);
    if loc.method_id != 0 {
        assert(line.subrange(0, head.len() as int) =~= head);
    } else {
        assert(line.subrange(0, head.len() as int) =~= head);
    }
}

/// Every location kept without a recorded line is left out, and one kept
/// without a recorded file is named `"(unknown)"`: the `k`-th kept location
/// has a known line, and its file is the recorded one or `"(unknown)"`.
pub proof fn lemma_locations_known_lines(
    frames: Seq<CallFrame>,
    stops: Seq<BacktraceStop>,
    lookups: Seq<DebugLookup>,
    n: int,
)
    requires
        0 <= n <= lookups.len(),
    ensures
        forall|k: int|
            0 <= k < locations_upto(frames, stops, lookups, n).len() ==> {
                let loc = #[trigger] locations_upto(frames, stops, lookups, n)[k];
                &&& loc.lineno != -1
                &&& exists|j: int|
                    0 <= j < n && lookups[j].line == loc.lineno && loc.filename == Some(
                        match lookups[j].file {
                            Some(f) => f@,
                            None => unknown_file(),
                        },
                    )
            },
    decreases n,
{
    if n > 0 {
        lemma_locations_known_lines(frames, stops, lookups, n - 1);
        let before = locations_upto(frames, stops, lookups, n - 1);
        let now = locations_upto(frames, stops, lookups, n);
        assert forall|k: int| 0 <= k < now.len() implies {
            let loc = #[trigger] now[k];
            &&& loc.lineno != -1
            &&& exists|j: int|
                0 <= j < n && lookups[j].line == loc.lineno && loc.filename == Some(
                    match lookups[j].file {
                        Some(f) => f@,
                        None => unknown_file(),
                    },
                )
        } by {
            if k < before.len() {
                assert(now[k] == before[k]);
                let loc = before[k];
                let j = choose|j: int|
                    0 <= j < n - 1 && lookups[j].line == loc.lineno && loc.filename == Some(
                        match lookups[j].file {
                            Some(f) => f@,
                            None => unknown_file(),
                        },
                    );
                assert(0 <= j < n);
            } else {
                assert(lookups[n - 1].line == now[k].lineno);
            }
        }
    }
}

/// The printed lines of the first `n` locations; locations without a file
/// name are left out.
pub open spec fn unpacked_upto(locs: Seq<LocationView>, names: Seq<Seq<u8>>, n: int) -> Seq<
    Seq<u8>,
>
    decreases n,
{
    if n <= 0 {
        Seq::empty()
    } else {
        let before = unpacked_upto(locs, names, n - 1);
        if locs[n - 1].filename is Some {
            before.push(location_line(locs[n - 1], names[n - 1]))
        } else {
            before
        }
    }
}

/// The printed backtrace of the locations `locs`; `names[k]` is the name of
/// the method of `locs[k]`.
pub fn mrb_unpack_backtrace(locs: &Vec<backtrace_location>, names: &Vec<Vec<u8>>) -> (r: Vec<
    Vec<u8>,
>)
    requires
        names@.len() == locs@.len(),
    ensures
        r@.map_values(|v: Vec<u8>| v@) == unpacked_upto(
            locs@.map_values(|l: backtrace_location| l@),
            names@.map_values(|v: Vec<u8>| v@),
            locs@.len() as int,
        ),
{
    let ghost lv = locs@.map_values(|l: backtrace_location| l@);
    let ghost nv = names@.map_values(|v: Vec<u8>| v@);
    let mut out: Vec<Vec<u8>> = Vec::new();
    let mut k: usize = 0;
    while k < locs.len()
        invariant
            k <= locs@.len(),
            names@.len() == locs@.len(),
            lv == locs@.map_values(|l: backtrace_location| l@),
            nv == names@.map_values(|v: Vec<u8>| v@),
            out@.map_values(|v: Vec<u8>| v@) == unpacked_upto(lv, nv, k as int),
        decreases locs@.len() - k,
    {
        let entry = &locs[k];
        if let Some(f) = &entry.filename {
            let mut line: Vec<u8> = Vec::new();
            push_all(&mut line, f);
            line.push(58u8);
            let digits = int_to_decimal(entry.lineno as i64);
            push_all(&mut line, &digits);
            if entry.method_id != 0 {
                line.push(58u8);
                line.push(105u8);
                line.push(110u8);
                line.push(32u8);
                push_all(&mut line, &names[k]);
            }
            let ghost before = out@;
            proof {
                assert(lv[k as int] == entry@);
                assert(nv[k as int] == names@[k as int]@);
                assert(line@ =~= location_line(lv[k as int], nv[k as int]));
            }
            out.push(line);
            proof {
                assert(out@.map_values(|v: Vec<u8>| v@) =~= before.map_values(|v: Vec<u8>| v@).push(
                    line@,
                ));
            }
        }
        k = k + 1;
    }
    out
}

/// A backtrace as an exception holds it.
pub enum BacktraceValue {
    Nil,
    /// Already an array of lines.
    Array,
    /// Packed locations, with the name of the method of each.
    Packed(Vec<backtrace_location>, Vec<Vec<u8>>),
    /// Any other value.
    Other,
}

/// The lines of a backtrace value.
pub enum Unpacked {
    /// The value itself (it is already an array).
    Itself,
    /// A new array with these lines.
    Lines(Vec<Vec<u8>>),
}

/// The printed backtrace of a backtrace value: an array is returned as it
/// is, packed locations are unpacked (see [`mrb_unpack_backtrace`]), and
/// `nil` or any other value gives a new empty array.
pub fn unpack_backtrace_value(v: &BacktraceValue) -> (r: Unpacked)
    requires
        v matches BacktraceValue::Packed(locs, names) ==> names@.len() == locs@.len(),
    ensures
        match v {
            BacktraceValue::Array => r is Itself,
            BacktraceValue::Packed(locs, names) => r matches Unpacked::Lines(lines) && lines@.map_values(
                |x: Vec<u8>| x@,
            ) == unpacked_upto(
                locs@.map_values(|l: backtrace_location| l@),
                names@.map_values(|x: Vec<u8>| x@),
                locs@.len() as int,
            ),
            _ => r matches Unpacked::Lines(lines) && lines@.len() == 0,
        },
{
    match v {
        BacktraceValue::Array => Unpacked::Itself,
        BacktraceValue::Packed(locs, names) => Unpacked::Lines(mrb_unpack_backtrace(locs, names)),
        _ => Unpacked::Lines(Vec::new()),
    }
}

/// The position looked at for frame `i` when an exception records where it
/// was raised: where the frame raised; else just before the position its
/// callee returns to (for the innermost frame `ciidx`, just before its own
/// saved position).  `None` for frames that run no Ruby code or have no
/// such position.
pub open spec fn raise_pc(frames: Seq<CallFrame>, ciidx: int, i: int) -> Option<i64> {
    let f = frames[i];
    let saved = if i == ciidx {
        f.pc
    } else {
        frames[i + 1].pc
    };
    if !f.ruby {
        None
    } else if f.err is Some {
        Some(f.err->0 as i64)
    } else {
        match saved {
            None => None,
            Some(p) => Some((p - 1) as i64),
        }
    }
}

/// The positions looked at for frames `i` down to 0, innermost first.
pub open spec fn raise_stops_from(frames: Seq<CallFrame>, ciidx: int, i: int) -> Seq<BacktraceStop>
    decreases i + 1,
{
    if i < 0 {
        Seq::empty()
    } else {
        let rest = raise_stops_from(frames, ciidx, i - 1);
        match raise_pc(frames, ciidx, i) {
            Some(p) => seq![BacktraceStop { frame: i as usize, pc: p }] + rest,
            None => rest,
        }
    }
}

/// The code positions, innermost first, whose debug information is tried
/// for the file and line an exception raised in frame `ciidx` records; the
/// first whose line and file are both known is kept (see
/// [`first_known_position`]).  When the exception already records a file
/// (`has_file`), nothing is tried and nothing changes.
pub fn exc_debug_info(frames: &Vec<CallFrame>, ciidx: usize, has_file: bool) -> (r: Vec<BacktraceStop>)
    requires
        has_file || ciidx < frames@.len(),
    ensures
        has_file ==> r@.len() == 0,
        !has_file ==> r@ == raise_stops_from(frames@, ciidx as int, ciidx as int),
{
    if has_file {
        return Vec::new();
    }
    proof {
        vstd::std_specs::vec::axiom_spec_len(frames);
    }
    let mut out: Vec<BacktraceStop> = Vec::new();
    let mut i: usize = ciidx + 1;
    while i > 0
        invariant
            ciidx < frames@.len(),
            i <= ciidx + 1,
            raise_stops_from(frames@, ciidx as int, ciidx as int) == out@ + raise_stops_from(
                frames@,
                ciidx as int,
                i - 1,
            ),
        decreases i,
    {
        let k = i - 1;
        let f = &frames[k];
        let saved = if k == ciidx { f.pc } else { frames[k + 1].pc };
        let pc: Option<i64> = if !f.ruby {
            None
        } else if let Some(e) = f.err {
            Some(e as i64)
        } else {
            match saved {
                None => None,
                Some(p) => Some(p as i64 - 1),
            }
        };
        assert(pc == raise_pc(frames@, ciidx as int, k as int));
        if let Some(p) = pc {
            let ghost out0 = out@;
            out.push(BacktraceStop { frame: k, pc: p });
            proof {
                assert(out@ + raise_stops_from(frames@, ciidx as int, k - 1) =~= out0
                    + raise_stops_from(frames@, ciidx as int, k as int));
            }
        }
        i = k;
    }
    proof {
        assert(out@ =~= out@ + raise_stops_from(frames@, ciidx as int, -1));
    }
    out
}

/// The first lookup whose line and file are both known.
pub fn first_known_position(lookups: &Vec<DebugLookup>) -> (r: Option<usize>)
    ensures
        match r {
            Some(k) => k < lookups@.len() && lookups@[k as int].line != -1
                && lookups@[k as int].file is Some && forall|j: int|
                0 <= j < k ==> !(#[trigger] lookups@[j].line != -1 && lookups@[j].file is Some),
            None => forall|j: int|
                0 <= j < lookups@.len() ==> !(#[trigger] lookups@[j].line != -1
                    && lookups@[j].file is Some),
        },
{
    let mut k: usize = 0;
    while k < lookups.len()
        invariant
            k <= lookups@.len(),
            forall|j: int|
                0 <= j < k ==> !(#[trigger] lookups@[j].line != -1 && lookups@[j].file is Some),
        decreases lookups@.len() - k,
    {
        if lookups[k].line != -1 && lookups[k].file.is_some() {
            return Some(k);
        }
        k = k + 1;
    }
    None
}

/// Whether the backtrace of the current calls is recorded in an exception:
/// only when the exception has none yet (`defined` tells whether it has).
pub fn mrb_keep_backtrace(defined: bool) -> (r: bool)
    ensures
        r == !defined,
{
    !defined
}

/// Whether reading an exception's backtrace must first unpack the stored
/// value (of type `stored`) into an array of strings and store that back:
/// `nil` and an array are returned as they are.
pub fn mrb_exc_backtrace(stored: ValueTag) -> (r: bool)
    ensures
        r == (stored != ValueTag::Nil && stored != ValueTag::Array),
{
    match stored {
        ValueTag::Nil | ValueTag::Array => false,
        _ => true,
    }
}

} // verus!
