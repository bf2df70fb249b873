//! The metric readers' computational core: parsing the kernel's network
//! device counter table, deriving per-interval rates, maintaining the
//! sparkline graph, and parsing the memory and load-average tables. All
//! functions work on the text of the respective table, handed in by the
//! caller; none of them does any reading of its own.

use vstd::prelude::*;

use crate::text::{
    chars_of, chars_to_string, dec_val, div_round_half_up, is_digits, parse_u32, parse_u64,
    round_half_up, spec_fields, spec_lines, spec_starts_with, spec_trim, split_lines, split_ws,
    starts_with_chars, trim_chars, views_of,
};
use crate::units::{push_rate_chars, spec_meminfo_chars, spec_rate_chars};

verus! {

/// Why a metric text could not be turned into a value: the device is absent
/// from the counter table, its record is unusable, another table's data does
/// not parse, or the meter was already retired by an earlier failure.
#[derive(Clone, Copy, Debug, PartialEq, Eq, Structural)]
pub enum ProcError {
    DeviceNotFound,
    MalformedCounters,
    MalformedData,
    PermanentSourceFailure,
}

impl ProcError {
    /// A fixed diagnostic text for the error.
    pub fn message(&self) -> (r: String)
        ensures
            match self {
                ProcError::DeviceNotFound => r@ == "net device not found"@,
                ProcError::MalformedCounters => r@ == "net device counters malformed"@,
                ProcError::MalformedData => r@ == "malformed data"@,
                ProcError::PermanentSourceFailure => r@ == "net device permanently failed"@,
            },
    {
        match self {
            ProcError::DeviceNotFound => "net device not found".to_owned(),
            ProcError::MalformedCounters => "net device counters malformed".to_owned(),
            ProcError::MalformedData => "malformed data".to_owned(),
            ProcError::PermanentSourceFailure => "net device permanently failed".to_owned(),
        }
    }
}

/// Which transfer direction a graph sample represents: the larger of the two
/// rates, or both when they are equal.
#[derive(Debug, Copy, Clone, PartialEq, Eq, Structural)]
pub enum GraphItemType {
    Download,
    Upload,
    Both,
}

/// One position of the sparkline: a display glyph, the rate it stands for
/// (kept only in dynamic scaling), and its direction tint.
#[derive(Debug, Copy, Clone, PartialEq, Eq, Structural)]
pub struct GraphItem {
    pub value: char,
    pub num_value: u64,
    pub value_type: GraphItemType,
}

impl GraphItem {
    pub fn get_value(&self) -> (r: char)
        ensures
            r == self.value,
    {
        self.value
    }

    pub fn set_value(&mut self, c: char)
        ensures
            *final(self) == (GraphItem { value: c, ..*old(self) }),
    {
        self.value = c;
    }

    pub fn get_num_value(&self) -> (r: u64)
        ensures
            r == self.num_value,
    {
        self.num_value
    }

    pub fn get_value_type(&self) -> (r: GraphItemType)
        ensures
            r == self.value_type,
    {
        self.value_type
    }
}

/// The block-height glyph for a quantization level: blank at 0, the seven
/// partial block characters, and the full block at 8 and above.
pub open spec fn glyph_char(level: int) -> char {
    if level <= 0 {
        ' '
    } else if level == 1 {
        '\u{2581}'
    } else if level == 2 {
        '\u{2582}'
    } else if level == 3 {
        '\u{2583}'
    } else if level == 4 {
        '\u{2584}'
    } else if level == 5 {
        '\u{2585}'
    } else if level == 6 {
        '\u{2586}'
    } else if level == 7 {
        '\u{2587}'
    } else {
        '\u{2588}'
    }
}

/// Executable glyph choice matching `glyph_char`.
pub fn glyph_for(level: u8) -> (c: char)
    ensures
        c == glyph_char(level as int),
{
    match level {
        0 => ' ',
        1 => '\u{2581}',
        2 => '\u{2582}',
        3 => '\u{2583}',
        4 => '\u{2584}',
        5 => '\u{2585}',
        6 => '\u{2586}',
        7 => '\u{2587}',
        _ => '\u{2588}',
    }
}

/// Dynamic-scale quantization: `rate` relative to the rolling maximum `max`,
/// scaled to eighths and rounded to the nearest level (ties up); everything
/// is level 0 when the window maximum is zero.
pub open spec fn spec_quantize_dyn(rate: nat, max: nat) -> nat {
    if max == 0 {
        0
    } else {
        round_half_up(8 * rate as int, max as int) as nat
    }
}

/// Static-scale quantization: rates above the fixed maximum saturate at the
/// full block, everything else is scaled as in dynamic quantization.
pub open spec fn spec_quantize_static(rate: nat, max: nat) -> nat {
    if rate > max {
        8
    } else {
        spec_quantize_dyn(rate, max)
    }
}

proof fn lemma_round_half_up_bounds(n: int, d: int)
    requires
        0 <= n,
        1 <= d,
    ensures
        0 <= round_half_up(n, d),
        n <= 8 * d ==> round_half_up(n, d) <= 8,
{
    vstd::arithmetic::div_mod::lemma_fundamental_div_mod(n, d);
    let q = n / d;
    let r = n % d;
    assert(0 <= q) by (nonlinear_arith)
        requires
            0 <= n,
            1 <= d,
            q == n / d,
    ;
    if n <= 8 * d {
        assert(q <= 8) by (nonlinear_arith)
            requires
                n == d * q + r,
                0 <= r < d,
                n <= 8 * d,
                1 <= d,
        ;
        if q == 8 {
            assert(r == 0) by (nonlinear_arith)
                requires
                    n == d * q + r,
                    0 <= r < d,
                    n <= 8 * d,
                    q == 8,
            ;
        }
    }
}

proof fn lemma_round_half_up_monotone(n1: int, n2: int, d: int)
    requires
        0 <= n1 <= n2,
        1 <= d,
    ensures
        round_half_up(n1, d) <= round_half_up(n2, d),
{
    vstd::arithmetic::div_mod::lemma_div_is_ordered(n1, n2, d);
    let q1 = n1 / d;
    let q2 = n2 / d;
    if q1 == q2 {
        vstd::arithmetic::div_mod::lemma_fundamental_div_mod(n1, d);
        vstd::arithmetic::div_mod::lemma_fundamental_div_mod(n2, d);
        assert(n1 % d <= n2 % d);
    }
}

/// The static sparkline law: with a positive configured maximum, a zero rate
/// is blank (level 0), a rate equal to the maximum is the full block
/// (level 8), levels never exceed 8, and the level is monotone in the rate.
pub proof fn lemma_static_quantize(r1: nat, r2: nat, max: nat)
    requires
        max >= 1,
        r1 <= r2,
    ensures
        spec_quantize_static(0, max) == 0,
        spec_quantize_static(max, max) == 8,
        spec_quantize_static(r2, max) <= 8,
        spec_quantize_static(r1, max) <= spec_quantize_static(r2, max),
{
    lemma_quantize_full(max);
    assert(spec_quantize_static(0, max) == 0) by {
        assert(round_half_up(0, max as int) == 0) by (nonlinear_arith)
            requires
                max >= 1,
        ;
    }
    if r2 <= max {
        lemma_round_half_up_bounds(8 * r2 as int, max as int);
        assert(8 * r2 as int <= 8 * (max as int)) by (nonlinear_arith)
            requires
                r2 <= max,
        ;
    }
    if r1 <= max && r2 <= max {
        assert(8 * r1 as int <= 8 * r2 as int) by (nonlinear_arith)
            requires
                r1 <= r2,
        ;
        lemma_round_half_up_monotone(8 * r1 as int, 8 * r2 as int, max as int);
    } else if r1 <= max && r2 > max {
        lemma_round_half_up_bounds(8 * r1 as int, max as int);
        assert(8 * r1 as int <= 8 * (max as int)) by (nonlinear_arith)
            requires
                r1 <= max,
        ;
    }
}

/// A rate equal to a positive maximum quantizes to the full block.
pub proof fn lemma_quantize_full(max: nat)
    requires
        max >= 1,
    ensures
        spec_quantize_dyn(max, max) == 8,
{
    let n = 8 * max as int;
    let d = max as int;
    assert(n / d == 8 && n % d == 0) by (nonlinear_arith)
        requires
            n == 8 * d,
            1 <= d,
    ;
}

/// Executable quantization against a fixed maximum, saturating above it.
pub fn quantize_static(rate: u64, max: u64) -> (r: u8)
    ensures
        r == spec_quantize_static(rate as nat, max as nat),
{
    if rate > max {
        8
    } else {
        quantize_dyn(rate, max)
    }
}

/// Executable quantization against a window maximum at least as large as the
/// rate.
pub fn quantize_dyn(rate: u64, max: u64) -> (r: u8)
    requires
        rate <= max,
    ensures
        r == spec_quantize_dyn(rate as nat, max as nat),
{
    if max == 0 {
        0
    } else {
        proof {
            lemma_round_half_up_bounds(8 * rate as int, max as int);
            assert(8 * rate as int <= 8 * (max as int)) by (nonlinear_arith)
                requires
                    rate <= max,
            ;
        }
        let l = div_round_half_up(rate as u128 * 8, max as u128);
        l as u8
    }
}

/// The mathematical state of a bandwidth meter.
pub ghost struct NetInfoView {
    pub dev_name: Seq<char>,
    pub graph: Seq<GraphItem>,
    pub down: u64,
    pub prev_down: u64,
    pub up: u64,
    pub prev_up: u64,
    pub first_iteration: bool,
    pub errored: bool,
}

/// The bandwidth meter for one network device: cumulative counters, the
/// previous tick's counters, and the sparkline history window.
pub struct NetInfo {
    dev_name: String,
    graph: Vec<GraphItem>,
    down: u64,
    prev_down: u64,
    up: u64,
    prev_up: u64,
    first_iteration: bool,
    pub errored: bool,
}

impl View for NetInfo {
    type V = NetInfoView;

    closed spec fn view(&self) -> NetInfoView {
        NetInfoView {
            dev_name: self.dev_name@,
            graph: self.graph@,
            down: self.down,
            prev_down: self.prev_down,
            up: self.up,
            prev_up: self.prev_up,
            first_iteration: self.first_iteration,
            errored: self.errored,
        }
    }
}

/// The blank graph item every sparkline position starts from.
pub open spec fn blank_item() -> GraphItem {
    GraphItem { value: ' ', num_value: 0, value_type: GraphItemType::Both }
}

/// A counter field parses as an unsigned 64-bit number.
pub open spec fn field_u64(f: Seq<char>) -> bool {
    f.len() > 0 && is_digits(f) && dec_val(f) <= u64::MAX
}

/// The trimmed line begins with the device name.
pub open spec fn line_matches(l: Seq<char>, dev: Seq<char>) -> bool {
    spec_starts_with(spec_trim(l), dev)
}

/// Some line of `ls` matches the device name.
pub open spec fn has_dev_line(ls: Seq<Seq<char>>, dev: Seq<char>) -> bool {
    exists|i: int| 0 <= i < ls.len() && line_matches(ls[i], dev)
}

/// The position of the first matching line (meaningful only when
/// `has_dev_line` holds).
pub open spec fn first_dev_line(ls: Seq<Seq<char>>, dev: Seq<char>) -> int
    decreases ls.len(),
{
    if ls.len() == 0 {
        0
    } else if line_matches(ls[0], dev) {
        0
    } else {
        1 + first_dev_line(ls.drop_first(), dev)
    }
}

proof fn lemma_first_dev_line(ls: Seq<Seq<char>>, dev: Seq<char>)
    requires
        has_dev_line(ls, dev),
    ensures
        0 <= first_dev_line(ls, dev) < ls.len(),
        line_matches(ls[first_dev_line(ls, dev)], dev),
        forall|j: int| 0 <= j < first_dev_line(ls, dev) ==> !line_matches(ls[j], dev),
    decreases ls.len(),
{
    if line_matches(ls[0], dev) {
    } else {
        let rest = ls.drop_first();
        assert(has_dev_line(rest, dev)) by {
            let i = choose|i: int| 0 <= i < ls.len() && line_matches(ls[i], dev);
            assert(rest[i - 1] == ls[i]);
        }
        lemma_first_dev_line(rest, dev);
        assert forall|j: int| 0 <= j < first_dev_line(ls, dev) implies !line_matches(
            ls[j],
            dev,
        ) by {
            if j > 0 {
                assert(ls[j] == rest[j - 1]);
            }
        }
    }
}

proof fn lemma_first_dev_line_is(ls: Seq<Seq<char>>, dev: Seq<char>, i: int)
    requires
        0 <= i < ls.len(),
        line_matches(ls[i], dev),
        forall|j: int| 0 <= j < i ==> !line_matches(ls[j], dev),
    ensures
        has_dev_line(ls, dev),
        first_dev_line(ls, dev) == i,
    decreases ls.len(),
{
    if i == 0 {
    } else {
        let rest = ls.drop_first();
        assert(rest[i - 1] == ls[i]);
        assert forall|j: int| 0 <= j < i - 1 implies !line_matches(rest[j], dev) by {
            assert(rest[j] == ls[j + 1]);
        }
        lemma_first_dev_line_is(rest, dev, i - 1);
    }
}

/// What one reading of the counter table yields for a device: the cumulative
/// received and sent byte counters (fields 1 and 9 of the first line whose
/// trimmed text starts with the device name), `DeviceNotFound` if no line
/// matches, `MalformedCounters` if the matched record has fewer than ten
/// fields or a counter is not a `u64` number.
pub open spec fn spec_netdev_counters(content: Seq<char>, dev: Seq<char>) -> Result<
    (u64, u64),
    ProcError,
> {
    let ls = spec_lines(content);
    if !has_dev_line(ls, dev) {
        Err(ProcError::DeviceNotFound)
    } else {
        let f = spec_fields(spec_trim(ls[first_dev_line(ls, dev)]));
        if f.len() < 10 {
            Err(ProcError::MalformedCounters)
        } else if !(field_u64(f[1]) && field_u64(f[9])) {
            Err(ProcError::MalformedCounters)
        } else {
            Ok((dec_val(f[1]) as u64, dec_val(f[9]) as u64))
        }
    }
}

impl NetInfo {
    /// A fresh meter for `dev_name` with a blank sparkline of `graph_size`
    /// positions (ten when unset or zero), zero counters, and the first
    /// sample still outstanding.
    pub fn new(dev_name: String, graph_size_opt: Option<usize>) -> (r: Self)
        ensures
            r@.dev_name == dev_name@,
            r@.graph.len() == (match graph_size_opt {
                Some(g) => if g > 0 {
                    g as int
                } else {
                    10
                },
                None => 10,
            }),
            forall|j: int| 0 <= j < r@.graph.len() ==> r@.graph[j] == blank_item(),
            r@.down == 0 && r@.prev_down == 0 && r@.up == 0 && r@.prev_up == 0,
            r@.first_iteration == true,
            r@.errored == false,
    {
        let size: usize = match graph_size_opt {
            Some(g) => if g > 0 {
                g
            } else {
                10
            },
            None => 10,
        };
        let mut graph: Vec<GraphItem> = Vec::new();
        let mut i: usize = 0;
        while i < size
            invariant
                i <= size,
                graph@.len() == i,
                forall|j: int| 0 <= j < i ==> graph@[j] == blank_item(),
            decreases size - i,
        {
            graph.push(GraphItem { value: ' ', num_value: 0, value_type: GraphItemType::Both });
            i += 1;
        }
        Self {
            dev_name,
            graph,
            down: 0,
            prev_down: 0,
            up: 0,
            prev_up: 0,
            first_iteration: true,
            errored: false,
        }
    }

    /// Points the meter at another device; all other state is kept.
    pub fn set_dev_name(&mut self, dev_name: &str)
        ensures
            final(self)@ == (NetInfoView { dev_name: dev_name@, ..old(self)@ }),
    {
        self.dev_name = dev_name.to_owned();
    }

    /// The sparkline window.
    pub fn get_graph(&self) -> (r: &Vec<GraphItem>)
        ensures
            r@ == self@.graph,
    {
        &self.graph
    }

    /// Takes one reading of the device counter table (handed in as text).
    /// On the first successful reading the counters become the baseline
    /// (`prev_down`/`prev_up`) and no rate is implied; on later readings
    /// they become the current counters. A failure retires the meter for
    /// good: it keeps its state and every later reading fails at once
    /// without looking at the table.
    pub fn update(&mut self, contents: &str) -> (r: Result<(), ProcError>)
        ensures
            old(self)@.errored ==> r == Err::<(), ProcError>(ProcError::PermanentSourceFailure)
                && final(self)@ == old(self)@,
            !old(self)@.errored ==> match spec_netdev_counters(contents@, old(self)@.dev_name) {
                Ok((d, u)) => r is Ok && final(self)@ == (if old(self)@.first_iteration {
                    NetInfoView { prev_down: d, prev_up: u, first_iteration: false, ..old(self)@ }
                } else {
                    NetInfoView { down: d, up: u, first_iteration: false, ..old(self)@ }
                }),
                Err(e) => r == Err::<(), ProcError>(e) && final(self)@ == (NetInfoView {
                    errored: true,
                    ..old(self)@
                }),
            },
    {
        if self.errored {
            return Err(ProcError::PermanentSourceFailure);
        }
        let cv = chars_of(contents);
        let lines = split_lines(&cv);
        let dev_chars = chars_of(self.dev_name.as_str());
        let n = lines.len();
        let ghost ls = spec_lines(contents@);
        proof {
            assert(views_of(lines@) == ls);
        }
        let mut i: usize = 0;
        let mut found: Option<Vec<char>> = None;
        while i < n && found.is_none()
            invariant
                i <= n,
                n == lines@.len(),
                views_of(lines@) == ls,
                dev_chars@ == old(self)@.dev_name,
                found is None ==> forall|j: int| 0 <= j < i ==> !line_matches(ls[j], old(
                    self,
                )@.dev_name),
                found matches Some(t) ==> has_dev_line(ls, old(self)@.dev_name) && t@ == spec_trim(
                    ls[first_dev_line(ls, old(self)@.dev_name)],
                ),
                *self == *old(self),
            decreases n - i,
        {
            let trimmed = trim_chars(&lines[i]);
            proof {
                assert(lines@[i as int]@ == ls[i as int]);
            }
            if starts_with_chars(&trimmed, &dev_chars) {
                proof {
                    lemma_first_dev_line_is(ls, old(self)@.dev_name, i as int);
                }
                found = Some(trimmed);
            }
            i += 1;
        }
        match found {
            None => {
                proof {
                    if has_dev_line(ls, old(self)@.dev_name) {
                        let k = choose|k: int|
                            0 <= k < ls.len() && line_matches(ls[k], old(self)@.dev_name);
                        assert(!line_matches(ls[k], old(self)@.dev_name));
                    }
                }
                self.errored = true;
                Err(ProcError::DeviceNotFound)
            },
            Some(line) => {
                let fields = split_ws(&line);
                let ghost f = spec_fields(spec_trim(ls[first_dev_line(ls, old(self)@.dev_name)]));
                proof {
                    assert(views_of(fields@) == f);
                }
                if fields.len() < 10 {
                    self.errored = true;
                    return Err(ProcError::MalformedCounters);
                }
                proof {
                    assert(fields@[1]@ == f[1]);
                    assert(fields@[9]@ == f[9]);
                }
                let d_opt = parse_u64(&fields[1]);
                let u_opt = parse_u64(&fields[9]);
                match (d_opt, u_opt) {
                    (Some(d), Some(u)) => {
                        if self.first_iteration {
                            self.prev_down = d;
                            self.prev_up = u;
                        } else {
                            self.down = d;
                            self.up = u;
                        }
                        self.first_iteration = false;
                        Ok(())
                    },
                    _ => {
                        self.errored = true;
                        Err(ProcError::MalformedCounters)
                    },
                }
            },
        }
    }
}

/// The per-interval rate: the counter increase since the previous sample,
/// clamped to zero when the counter did not grow (or was reset).
pub open spec fn spec_rate(cur: u64, prev: u64) -> u64 {
    if cur > prev {
        (cur - prev) as u64
    } else {
        0
    }
}

/// The previous-counter value after a rate is taken: advanced to the current
/// counter exactly when the counter grew.
pub open spec fn spec_new_prev(cur: u64, prev: u64) -> u64 {
    if cur > prev {
        cur
    } else {
        prev
    }
}

/// The direction tint of a sample: whichever rate is larger, both when equal.
pub open spec fn spec_tint(down: u64, up: u64) -> GraphItemType {
    if down > up {
        GraphItemType::Download
    } else if down < up {
        GraphItemType::Upload
    } else {
        GraphItemType::Both
    }
}

/// The larger of the two rates.
pub open spec fn spec_max_rate(down: u64, up: u64) -> u64 {
    if down > up {
        down
    } else {
        up
    }
}

/// The sparkline window after one dynamic-mode insertion, before
/// re-quantization: the oldest sample dropped, the new one at the end.
pub open spec fn dyn_mid(g0: Seq<GraphItem>, dmax: u64, tint: GraphItemType) -> Seq<GraphItem> {
    g0.skip(1).push(GraphItem { value: ' ', num_value: dmax, value_type: tint })
}

/// The graph after one static-mode step: the oldest glyph dropped, the new
/// rate quantized against the fixed maximum `m` and appended.
pub open spec fn static_step(g0: Seq<GraphItem>, dmax: u64, m: u64, tint: GraphItemType) -> Seq<
    GraphItem,
> {
    g0.skip(1).push(
        GraphItem {
            value: glyph_char(spec_quantize_static(dmax as nat, m as nat) as int),
            num_value: 0,
            value_type: tint,
        },
    )
}

/// The graph after one dynamic-mode step with window maximum `hmax`: every
/// position re-quantized against `hmax`, values and tints kept.
pub open spec fn dyn_requantized(mid: Seq<GraphItem>, hmax: u64, g1: Seq<GraphItem>) -> bool {
    &&& g1.len() == mid.len()
    &&& forall|j: int|
        0 <= j < mid.len() ==> g1[j] == (GraphItem {
            value: glyph_char(spec_quantize_dyn(mid[j].num_value as nat, hmax as nat) as int),
            num_value: mid[j].num_value,
            value_type: mid[j].value_type,
        })
}

/// `idx` is the position of the first occurrence of the maximum rate in `mid`.
pub open spec fn is_first_max(mid: Seq<GraphItem>, idx: int) -> bool {
    &&& 0 <= idx < mid.len()
    &&& forall|j: int| 0 <= j < idx ==> mid[j].num_value < mid[idx].num_value
    &&& forall|j: int| 0 <= j < mid.len() ==> mid[j].num_value <= mid[idx].num_value
}

/// The dynamic sparkline law: one dynamic step keeps the window length, and
/// when the window maximum is positive, the glyph at the position holding
/// that maximum is the full block.
pub proof fn lemma_dyn_sparkline(
    g0: Seq<GraphItem>,
    g1: Seq<GraphItem>,
    dmax: u64,
    tint: GraphItemType,
    idx: int,
)
    requires
        g0.len() >= 1,
        is_first_max(dyn_mid(g0, dmax, tint), idx),
        dyn_requantized(dyn_mid(g0, dmax, tint), dyn_mid(g0, dmax, tint)[idx].num_value, g1),
    ensures
        g1.len() == g0.len(),
        dyn_mid(g0, dmax, tint)[idx].num_value > 0 ==> g1[idx].value == '\u{2588}',
{
    let mid = dyn_mid(g0, dmax, tint);
    let hmax = mid[idx].num_value;
    if hmax > 0 {
        lemma_quantize_full(hmax as nat);
        assert(g1[idx].value == glyph_char(spec_quantize_dyn(hmax as nat, hmax as nat) as int));
    }
}

impl NetInfo {
    /// Derives the per-interval rates from the counters and advances the
    /// previous counters to the current ones wherever a counter grew.
    pub fn compute_rates(&mut self) -> (r: (u64, u64))
        ensures
            r.0 == spec_rate(old(self)@.down, old(self)@.prev_down),
            r.1 == spec_rate(old(self)@.up, old(self)@.prev_up),
            final(self)@ == (NetInfoView {
                prev_down: spec_new_prev(old(self)@.down, old(self)@.prev_down),
                prev_up: spec_new_prev(old(self)@.up, old(self)@.prev_up),
                ..old(self)@
            }),
    {
        let down_diff: u64 = if self.down > self.prev_down {
            let value = self.down - self.prev_down;
            self.prev_down = self.down;
            value
        } else {
            0
        };
        let up_diff: u64 = if self.up > self.prev_up {
            let value = self.up - self.prev_up;
            self.prev_up = self.up;
            value
        } else {
            0
        };
        (down_diff, up_diff)
    }

    /// Advances the sparkline by one sample. In static mode (a fixed maximum
    /// is given) the new rate is quantized against it and appended; the
    /// returned index is zero and the returned text empty. In dynamic mode
    /// the new rate joins the window, the whole window is re-quantized
    /// against its new maximum, and the position of the first maximum and
    /// the maximum's formatted value are returned.
    pub fn update_graph(&mut self, down_rate: u64, up_rate: u64, graph_max_opt: Option<u64>) -> (r:
        (usize, Vec<char>))
        requires
            old(self)@.graph.len() >= 1,
        ensures
            ({
                let tint = spec_tint(down_rate, up_rate);
                let dmax = spec_max_rate(down_rate, up_rate);
                match graph_max_opt {
                    Some(m) => {
                        &&& final(self)@ == (NetInfoView {
                            graph: static_step(old(self)@.graph, dmax, m, tint),
                            ..old(self)@
                        })
                        &&& r.0 == 0
                        &&& r.1@ == Seq::<char>::empty()
                    },
                    None => {
                        let mid = dyn_mid(old(self)@.graph, dmax, tint);
                        let hmax = mid[r.0 as int].num_value;
                        &&& is_first_max(mid, r.0 as int)
                        &&& r.1@ == spec_rate_chars(hmax as nat)
                        &&& dyn_requantized(mid, hmax, final(self)@.graph)
                        &&& final(self)@ == (NetInfoView {
                            graph: final(self)@.graph,
                            ..old(self)@
                        })
                    },
                }
            }),
    {
        let tint = if down_rate > up_rate {
            GraphItemType::Download
        } else if down_rate < up_rate {
            GraphItemType::Upload
        } else {
            GraphItemType::Both
        };
        let dmax = if down_rate > up_rate {
            down_rate
        } else {
            up_rate
        };
        match graph_max_opt {
            Some(m) => {
                let level = quantize_static(dmax, m);
                self.graph.remove(0);
                self.graph.push(
                    GraphItem { value: glyph_for(level), num_value: 0, value_type: tint },
                );
                proof {
                    assert(self.graph@ =~= static_step(
                        old(self)@.graph,
                        dmax,
                        m,
                        spec_tint(down_rate, up_rate),
                    ));
                }
                (0, Vec::new())
            },
            None => {
                self.graph.remove(0);
                self.graph.push(GraphItem { value: ' ', num_value: dmax, value_type: tint });
                let ghost mid = dyn_mid(old(self)@.graph, dmax, spec_tint(down_rate, up_rate));
                proof {
                    assert(self.graph@ =~= mid);
                }
                let n = self.graph.len();
                let mut hmax: u64 = 0;
                let mut hidx: usize = 0;
                let mut j: usize = 0;
                while j < n
                    invariant
                        j <= n,
                        n == mid.len(),
                        n >= 1,
                        self.graph@ == mid,
                        self@ == (NetInfoView { graph: mid, ..old(self)@ }),
                        j == 0 ==> hmax == 0 && hidx == 0,
                        j > 0 ==> hidx < j && hmax == mid[hidx as int].num_value,
                        forall|k: int| 0 <= k < hidx ==> mid[k].num_value < hmax,
                        forall|k: int| 0 <= k < j ==> mid[k].num_value <= hmax,
                    decreases n - j,
                {
                    let v = self.graph[j].num_value;
                    if hmax < v {
                        hmax = v;
                        hidx = j;
                    }
                    j += 1;
                }
                let mut maxtext: Vec<char> = Vec::new();
                push_rate_chars(&mut maxtext, hmax);
                let mut k: usize = 0;
                while k < n
                    invariant
                        k <= n,
                        n == mid.len(),
                        self.graph@.len() == n,
                        self@ == (NetInfoView { graph: self.graph@, ..old(self)@ }),
                        hmax == mid[hidx as int].num_value,
                        hidx < n,
                        forall|i: int| 0 <= i < n ==> mid[i].num_value <= hmax,
                        forall|i: int| k <= i < n ==> self.graph@[i] == mid[i],
                        forall|i: int|
                            0 <= i < k ==> self.graph@[i] == (GraphItem {
                                value: glyph_char(
                                    spec_quantize_dyn(
                                        mid[i].num_value as nat,
                                        hmax as nat,
                                    ) as int,
                                ),
                                num_value: mid[i].num_value,
                                value_type: mid[i].value_type,
                            }),
                    decreases n - k,
                {
                    let it = self.graph[k];
                    let lvl = quantize_dyn(it.num_value, hmax);
                    let updated = GraphItem {
                        value: glyph_for(lvl),
                        num_value: it.num_value,
                        value_type: it.value_type,
                    };
                    let slot = &mut self.graph[k];
                    *slot = updated;
                    k += 1;
                }
                (hidx, maxtext)
            },
        }
    }

    /// One full formatting step: derives both rates, renders them as
    /// `"<down> <up>"` with unit scaling, and advances the sparkline. The
    /// returned triple is the rate text, the position of the dynamic
    /// window's first maximum (zero in static mode), and the formatted
    /// dynamic maximum (empty in static mode).
    pub fn get_netstring(&mut self, graph_max_opt: Option<u64>) -> (r: (String, usize, String))
        requires
            old(self)@.graph.len() >= 1,
        ensures
            ({
                let d_rate = spec_rate(old(self)@.down, old(self)@.prev_down);
                let u_rate = spec_rate(old(self)@.up, old(self)@.prev_up);
                let tint = spec_tint(d_rate, u_rate);
                let dmax = spec_max_rate(d_rate, u_rate);
                let withprev = (NetInfoView {
                    prev_down: spec_new_prev(old(self)@.down, old(self)@.prev_down),
                    prev_up: spec_new_prev(old(self)@.up, old(self)@.prev_up),
                    ..old(self)@
                });
                &&& r.0@ == spec_rate_chars(d_rate as nat) + seq![' '] + spec_rate_chars(
                    u_rate as nat,
                )
                &&& match graph_max_opt {
                    Some(m) => {
                        &&& final(self)@ == (NetInfoView {
                            graph: static_step(old(self)@.graph, dmax, m, tint),
                            ..withprev
                        })
                        &&& r.1 == 0
                        &&& r.2@ == Seq::<char>::empty()
                    },
                    None => {
                        let mid = dyn_mid(old(self)@.graph, dmax, tint);
                        let hmax = mid[r.1 as int].num_value;
                        &&& is_first_max(mid, r.1 as int)
                        &&& r.2@ == spec_rate_chars(hmax as nat)
                        &&& dyn_requantized(mid, hmax, final(self)@.graph)
                        &&& final(self)@ == (NetInfoView {
                            graph: final(self)@.graph,
                            ..withprev
                        })
                    },
                }
            }),
    {
        let (down_rate, up_rate) = self.compute_rates();
        let mut text: Vec<char> = Vec::new();
        push_rate_chars(&mut text, down_rate);
        text.push(' ');
        push_rate_chars(&mut text, up_rate);
        let (max_idx, max_text) = self.update_graph(down_rate, up_rate, graph_max_opt);
        (chars_to_string(&text), max_idx, chars_to_string(&max_text))
    }
}

/// A field parses as an unsigned 32-bit number.
pub open spec fn field_u32(f: Seq<char>) -> bool {
    f.len() > 0 && is_digits(f) && dec_val(f) <= u32::MAX
}

/// Scans the memory table line by line, keeping the latest `MemTotal:` and
/// `MemAvailable:` values (second field of each such line); the first such
/// line whose value does not parse as a `u32` aborts the scan.
pub open spec fn scan_mem(lines: Seq<Seq<char>>, total: u32, available: u32) -> Result<
    (u32, u32),
    ProcError,
>
    decreases lines.len(),
{
    if lines.len() == 0 {
        Ok((total, available))
    } else {
        let f = spec_fields(lines[0]);
        if spec_starts_with(lines[0], "MemTotal:"@) {
            if f.len() < 2 || !field_u32(f[1]) {
                Err(ProcError::MalformedData)
            } else {
                scan_mem(lines.drop_first(), dec_val(f[1]) as u32, available)
            }
        } else if spec_starts_with(lines[0], "MemAvailable:"@) {
            if f.len() < 2 || !field_u32(f[1]) {
                Err(ProcError::MalformedData)
            } else {
                scan_mem(lines.drop_first(), total, dec_val(f[1]) as u32)
            }
        } else {
            scan_mem(lines.drop_first(), total, available)
        }
    }
}

/// What the memory status line is for a given table text: the scanned totals
/// formatted as used/total (a missing entry counts as zero), or
/// `MalformedData` when a value does not parse or available exceeds total.
pub open spec fn spec_meminfo_result(content: Seq<char>) -> Result<Seq<char>, ProcError> {
    match scan_mem(spec_lines(content), 0, 0) {
        Ok((t, a)) => if a <= t {
            Ok(spec_meminfo_chars(t as nat, a as nat))
        } else {
            Err(ProcError::MalformedData)
        },
        Err(e) => Err(e),
    }
}

/// Builds the memory status line from the text of the memory table.
pub fn get_meminfo(contents: &str) -> (r: Result<String, ProcError>)
    ensures
        match r {
            Ok(s) => spec_meminfo_result(contents@) matches Ok(t) && s@ == t,
            Err(e) => spec_meminfo_result(contents@) == Err::<Seq<char>, ProcError>(e),
        },
{
    let cv = chars_of(contents);
    let lines = split_lines(&cv);
    let key_total = chars_of("MemTotal:");
    let key_avail = chars_of("MemAvailable:");
    let n = lines.len();
    let ghost ls = spec_lines(contents@);
    proof {
        assert(views_of(lines@) == ls);
    }
    let mut total: u32 = 0;
    let mut available: u32 = 0;
    let mut i: usize = 0;
    proof {
        assert(ls.skip(0) =~= ls);
    }
    while i < n
        invariant
            i <= n,
            n == lines@.len(),
            views_of(lines@) == ls,
            ls == spec_lines(contents@),
            key_total@ == "MemTotal:"@,
            key_avail@ == "MemAvailable:"@,
            scan_mem(ls, 0, 0) == scan_mem(ls.skip(i as int), total, available),
        decreases n - i,
    {
        proof {
            assert(lines@[i as int]@ == ls[i as int]);
            assert(ls.skip(i as int)[0] == ls[i as int]);
            assert(ls.skip(i as int).drop_first() =~= ls.skip(i + 1 as int));
        }
        if starts_with_chars(&lines[i], &key_total) {
            let fields = split_ws(&lines[i]);
            proof {
                assert(views_of(fields@) == spec_fields(ls[i as int]));
            }
            if fields.len() < 2 {
                return Err(ProcError::MalformedData);
            }
            proof {
                assert(fields@[1]@ == spec_fields(ls[i as int])[1]);
            }
            match parse_u32(&fields[1]) {
                Some(v) => {
                    total = v;
                },
                None => {
                    return Err(ProcError::MalformedData);
                },
            }
        } else if starts_with_chars(&lines[i], &key_avail) {
            let fields = split_ws(&lines[i]);
            proof {
                assert(views_of(fields@) == spec_fields(ls[i as int]));
            }
            if fields.len() < 2 {
                return Err(ProcError::MalformedData);
            }
            proof {
                assert(fields@[1]@ == spec_fields(ls[i as int])[1]);
            }
            match parse_u32(&fields[1]) {
                Some(v) => {
                    available = v;
                },
                None => {
                    return Err(ProcError::MalformedData);
                },
            }
        }
        i += 1;
    }
    proof {
        assert(ls.skip(n as int) =~= Seq::<Seq<char>>::empty());
    }
    if available > total {
        return Err(ProcError::MalformedData);
    }
    let out = crate::units::format_meminfo(total, available);
    Ok(chars_to_string(&out))
}

/// What the load-average line is for a given table text: its first three
/// whitespace-separated fields joined by single spaces, or `MalformedData`
/// when there are fewer than three.
pub open spec fn spec_loadavg_result(content: Seq<char>) -> Result<Seq<char>, ProcError> {
    let f = spec_fields(content);
    if f.len() < 3 {
        Err(ProcError::MalformedData)
    } else {
        Ok(f[0] + seq![' '] + f[1] + seq![' '] + f[2])
    }
}

/// Builds the load-average status text from the text of the load table.
pub fn get_loadavg(contents: &str) -> (r: Result<String, ProcError>)
    ensures
        match r {
            Ok(s) => spec_loadavg_result(contents@) matches Ok(t) && s@ == t,
            Err(e) => spec_loadavg_result(contents@) == Err::<Seq<char>, ProcError>(e),
        },
{
    let cv = chars_of(contents);
    let fields = split_ws(&cv);
    proof {
        assert(views_of(fields@) == spec_fields(contents@));
    }
    if fields.len() < 3 {
        return Err(ProcError::MalformedData);
    }
    let mut out: Vec<char> = Vec::new();
    proof {
        assert(fields@[0]@ == spec_fields(contents@)[0]);
        assert(fields@[1]@ == spec_fields(contents@)[1]);
        assert(fields@[2]@ == spec_fields(contents@)[2]);
    }
    push_chars(&mut out, &fields[0]);
    out.push(' ');
    push_chars(&mut out, &fields[1]);
    out.push(' ');
    push_chars(&mut out, &fields[2]);
    proof {
        assert(out@ =~= spec_fields(contents@)[0] + seq![' '] + spec_fields(contents@)[1]
            + seq![' '] + spec_fields(contents@)[2]);
    }
    Ok(chars_to_string(&out))
}

/// Appends every character of `v` to `out`.
fn push_chars(out: &mut Vec<char>, v: &Vec<char>)
    ensures
        final(out)@ == old(out)@ + v@,
{
    let n = v.len();
    let mut i: usize = 0;
    while i < n
        invariant
            i <= n,
            n == v@.len(),
            out@ == old(out)@ + v@.subrange(0, i as int),
        decreases n - i,
    {
        out.push(v[i]);
        proof {
            assert(out@ =~= old(out)@ + v@.subrange(0, i + 1 as int));
        }
        i += 1;
    }
    proof {
        assert(out@ =~= old(out)@ + v@);
    }
}

/// A counter reading folded into the meter state, as one successful `update`
/// leaves it: the first reading becomes the baseline, later ones the current
/// counters.
pub open spec fn ingest(v: NetInfoView, d: u64, u: u64) -> NetInfoView {
    if v.first_iteration {
        NetInfoView { prev_down: d, prev_up: u, first_iteration: false, ..v }
    } else {
        NetInfoView { down: d, up: u, first_iteration: false, ..v }
    }
}

/// The meter state after rates are taken, as `compute_rates` leaves it.
pub open spec fn rated(v: NetInfoView) -> NetInfoView {
    NetInfoView {
        prev_down: spec_new_prev(v.down, v.prev_down),
        prev_up: spec_new_prev(v.up, v.prev_up),
        ..v
    }
}

/// The rates one `compute_rates` call reports in state `v`.
pub open spec fn rates_of(v: NetInfoView) -> (u64, u64) {
    (spec_rate(v.down, v.prev_down), spec_rate(v.up, v.prev_up))
}

/// Runs the meter over a sequence of counter readings, ingesting each and
/// taking rates after it, and collects the reported rate pairs.
pub open spec fn meter_run(v: NetInfoView, samples: Seq<(u64, u64)>) -> Seq<(u64, u64)>
    decreases samples.len(),
{
    if samples.len() == 0 {
        seq![]
    } else {
        let v1 = ingest(v, samples[0].0, samples[0].1);
        seq![rates_of(v1)] + meter_run(rated(v1), samples.drop_first())
    }
}

/// A fresh meter's counters: everything zero, first reading outstanding.
pub open spec fn fresh_counters(v: NetInfoView) -> bool {
    v.down == 0 && v.prev_down == 0 && v.up == 0 && v.prev_up == 0 && v.first_iteration
}

proof fn lemma_meter_run_steady(v: NetInfoView, samples: Seq<(u64, u64)>, pd: u64, pu: u64)
    requires
        !v.first_iteration,
        v.prev_down == pd,
        v.prev_up == pu,
        samples.len() >= 1 ==> samples[0].0 >= pd && samples[0].1 >= pu,
        forall|i: int|
            1 <= i < samples.len() ==> (#[trigger] samples[i]).0 >= samples[i - 1].0 && samples[i].1
                >= samples[i - 1].1,
    ensures
        meter_run(v, samples).len() == samples.len(),
        samples.len() >= 1 ==> meter_run(v, samples)[0] == ((samples[0].0 - pd) as u64, (samples[0].1
            - pu) as u64),
        forall|i: int|
            1 <= i < samples.len() ==> meter_run(v, samples)[i] == ((samples[i].0 - samples[i
                - 1].0) as u64, (samples[i].1 - samples[i - 1].1) as u64),
    decreases samples.len(),
{
    if samples.len() >= 1 {
        let v1 = ingest(v, samples[0].0, samples[0].1);
        let rest = samples.drop_first();
        assert(rates_of(v1) == ((samples[0].0 - pd) as u64, (samples[0].1 - pu) as u64));
        assert(rated(v1).prev_down == samples[0].0);
        assert(rated(v1).prev_up == samples[0].1);
        assert(forall|i: int|
            1 <= i < rest.len() ==> #[trigger] rest[i] == samples[i + 1] && rest[i - 1]
                == samples[i]);
        lemma_meter_run_steady(rated(v1), rest, samples[0].0, samples[0].1);
        assert forall|i: int| 1 <= i < samples.len() implies meter_run(v, samples)[i] == ((
        samples[i].0 - samples[i - 1].0) as u64, (samples[i].1 - samples[i - 1].1) as u64) by {
            assert(meter_run(v, samples)[i] == meter_run(rated(v1), rest)[i - 1]);
            assert(rest[i - 1] == samples[i]);
            if i >= 2 {
                assert(rest[i - 2] == samples[i - 1]);
            }
        }
    }
}

/// The rate-sequence law: feeding a fresh meter a non-decreasing sequence of
/// cumulative counter readings, the first reported rate pair is zero and
/// every later one is exactly the difference to the previous reading.
pub proof fn lemma_rate_sequence(v: NetInfoView, samples: Seq<(u64, u64)>)
    requires
        fresh_counters(v),
        samples.len() >= 1,
        forall|i: int|
            1 <= i < samples.len() ==> (#[trigger] samples[i]).0 >= samples[i - 1].0 && samples[i].1
                >= samples[i - 1].1,
    ensures
        meter_run(v, samples).len() == samples.len(),
        meter_run(v, samples)[0] == (0u64, 0u64),
        forall|i: int|
            1 <= i < samples.len() ==> meter_run(v, samples)[i] == ((samples[i].0 - samples[i
                - 1].0) as u64, (samples[i].1 - samples[i - 1].1) as u64),
{
    let v1 = ingest(v, samples[0].0, samples[0].1);
    let rest = samples.drop_first();
    assert(v1.down == 0 && v1.up == 0);
    assert(rates_of(v1) == (0u64, 0u64));
    assert(rated(v1).prev_down == samples[0].0);
    assert(rated(v1).prev_up == samples[0].1);
    lemma_meter_run_steady(rated(v1), rest, samples[0].0, samples[0].1);
    assert forall|i: int| 1 <= i < samples.len() implies meter_run(v, samples)[i] == ((samples[i].0
        - samples[i - 1].0) as u64, (samples[i].1 - samples[i - 1].1) as u64) by {
        assert(meter_run(v, samples)[i] == meter_run(rated(v1), rest)[i - 1]);
        assert(rest[i - 1] == samples[i]);
        if i >= 2 {
            assert(rest[i - 2] == samples[i - 1]);
        }
    }
}

/// The counter-reset law: when a cumulative counter does not grow (a device
/// reset shows as a decrease), the reported rate for that direction is zero,
/// never a negative or wrapped value.
pub proof fn lemma_counter_reset(cur: u64, prev: u64)
    requires
        cur <= prev,
    ensures
        spec_rate(cur, prev) == 0,
{
}

} // verus!
