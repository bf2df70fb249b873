//! The per-tick update rules: given one tick's metric values (or failures),
//! insert the blocks on the first tick and mutate them in place on every
//! later one. The registry is empty exactly until the first tick has run, so
//! `is_empty`, sampled once at the start of a tick, selects between the two
//! regimes for every source of that tick.

use vstd::prelude::*;

use crate::builtin::{batt_pattern, spec_batt_color_chars, BattInfo};
use crate::external::captures_of;
use crate::proc::{
    dyn_mid, dyn_requantized, ingest, is_first_max, rated, spec_max_rate, spec_netdev_counters,
    spec_rate, spec_tint, static_step, GraphItem, GraphItemType, NetInfo, NetInfoView, ProcError,
};
use crate::swaybar_object::{
    first_idx, has_block, has_name, lemma_first_idx, lemma_first_idx_update, opt_str_view,
    same_but_text_color, SwaybarArray, SwaybarObject,
};
use crate::text::{chars_to_string, push_str_chars};
use crate::units::{push_rate_chars, spec_rate_chars};

verus! {

/// How the network blocks are configured: the fixed graph maximum (static
/// scaling) or dynamic scaling, whether the rolling maximum is shown, the
/// minimum width of the rate blocks, and the sparkline length.
#[derive(Clone, Copy, Debug)]
pub struct NetConfig {
    pub graph_max: Option<u64>,
    pub graph_is_dynamic: bool,
    pub show_dynamic_max: bool,
    pub width: Option<u16>,
    pub graph_size: usize,
}

/// A sparkline block exists when a fixed maximum is set or scaling is dynamic.
pub open spec fn graph_shown(cfg: NetConfig) -> bool {
    cfg.graph_max is Some || cfg.graph_is_dynamic
}

/// The rolling-maximum block exists in dynamic mode when asked for.
pub open spec fn dyn_max_shown(cfg: NetConfig) -> bool {
    cfg.graph_is_dynamic && cfg.show_dynamic_max
}

/// How many blocks the network source inserts on the first tick.
pub open spec fn net_boot_count(cfg: NetConfig) -> int {
    (if dyn_max_shown(cfg) {
        1int
    } else {
        0int
    }) + (if graph_shown(cfg) {
        1int
    } else {
        0int
    }) + 2
}

/// The attributes shared by every freshly created block: a white border, the
/// given name, and everything else unset.
pub open spec fn base_block(o: SwaybarObject, name: Seq<char>) -> bool {
    &&& o.short_text is None
    &&& o.background is None
    &&& opt_str_view(o.border) == Some("#ffffffff"@)
    &&& o.border_top is None
    &&& o.border_bottom is None
    &&& o.border_left is None
    &&& o.border_right is None
    &&& opt_str_view(o.name) == Some(name)
    &&& o.instance is None
    &&& o.urgent is None
    &&& o.separator is None
    &&& o.separator_block_width is None
}

/// A fresh block showing `text` in `color`, with no layout attributes.
pub open spec fn generic_block(
    o: SwaybarObject,
    name: Seq<char>,
    text: Seq<char>,
    color: Option<Seq<char>>,
) -> bool {
    &&& base_block(o, name)
    &&& o.full_text@ == text
    &&& opt_str_view(o.color) == color
    &&& o.min_width is None
    &&& o.align is None
    &&& o.markup is None
}

/// A fresh block showing the error message `msg` in red.
pub open spec fn error_block(o: SwaybarObject, name: Seq<char>, msg: Seq<char>) -> bool {
    generic_block(o, name, msg, Some("#ff2222ff"@))
}

/// `n` spaces.
pub open spec fn blanks(n: nat) -> Seq<char> {
    Seq::new(n, |i: int| ' ')
}

/// `n` zero digits (the placeholder that fixes a rate block's minimum width).
pub open spec fn zeros(n: nat) -> Seq<char> {
    Seq::new(n, |i: int| '0')
}

/// Shows `text` with `color` in the block named `name`: inserted on the
/// first tick, mutated in place afterwards; a lookup miss changes nothing.
pub fn apply_generic_block(
    array: &mut SwaybarArray,
    is_empty: bool,
    name: &str,
    text: String,
    color: Option<String>,
)
    requires
        is_empty ==> !has_block(old(array)@, name@),
    ensures
        is_empty ==> final(array)@.len() == old(array)@.len() + 1 && final(array)@.drop_last()
            == old(array)@ && generic_block(final(array)@.last(), name@, text@, opt_str_view(color)),
        !is_empty && has_block(old(array)@, name@) ==> ({
            let i = first_idx(old(array)@, name@);
            &&& final(array)@.len() == old(array)@.len()
            &&& (forall|j: int|
                0 <= j < old(array)@.len() && j != i ==> final(array)@[j] == old(array)@[j])
            &&& final(array)@[i].full_text@ == text@
            &&& final(array)@[i].color == color
            &&& same_but_text_color(old(array)@[i], final(array)@[i])
        }),
        !is_empty && !has_block(old(array)@, name@) ==> final(array)@ == old(array)@,
{
    if is_empty {
        let mut obj = SwaybarObject::from_string(name.to_owned(), text);
        obj.color = color;
        array.push_object(obj);
        proof {
            assert(final(array)@.drop_last() =~= old(array)@);
        }
    } else {
        match array.find_index(name) {
            Some(i) => {
                proof {
                    lemma_first_idx(old(array)@, name@);
                }
                let o = array.get_mut(i);
                o.update_as_generic(text, color);
            },
            None => {},
        }
    }
}

/// Shows the error message `msg` in red in the block named `name`.
pub fn apply_error_block(array: &mut SwaybarArray, is_empty: bool, name: &str, msg: String)
    requires
        is_empty ==> !has_block(old(array)@, name@),
    ensures
        is_empty ==> final(array)@.len() == old(array)@.len() + 1 && final(array)@.drop_last()
            == old(array)@ && error_block(final(array)@.last(), name@, msg@),
        !is_empty && has_block(old(array)@, name@) ==> ({
            let i = first_idx(old(array)@, name@);
            &&& final(array)@.len() == old(array)@.len()
            &&& (forall|j: int|
                0 <= j < old(array)@.len() && j != i ==> final(array)@[j] == old(array)@[j])
            &&& final(array)@[i].full_text@ == msg@
            &&& opt_str_view(final(array)@[i].color) == Some("#ff2222ff"@)
            &&& same_but_text_color(old(array)@[i], final(array)@[i])
        }),
        !is_empty && !has_block(old(array)@, name@) ==> final(array)@ == old(array)@,
{
    if is_empty {
        let obj = SwaybarObject::from_error_string(name.to_owned(), msg);
        array.push_object(obj);
        proof {
            assert(final(array)@.drop_last() =~= old(array)@);
        }
    } else {
        match array.find_index(name) {
            Some(i) => {
                proof {
                    lemma_first_idx(old(array)@, name@);
                }
                let o = array.get_mut(i);
                o.update_as_error(msg);
            },
            None => {},
        }
    }
}

/// The span color for a direction tint.
pub open spec fn tint_color(t: GraphItemType) -> Seq<char> {
    match t {
        GraphItemType::Download => "#ff8888ff"@,
        GraphItemType::Upload => "#88ff88ff"@,
        GraphItemType::Both => "#ffff88ff"@,
    }
}

/// Executable tint color matching `tint_color`.
pub fn tint_color_str(t: GraphItemType) -> (r: &'static str)
    ensures
        r@ == tint_color(t),
{
    match t {
        GraphItemType::Download => "#ff8888ff",
        GraphItemType::Upload => "#88ff88ff",
        GraphItemType::Both => "#ffff88ff",
    }
}

/// One sparkline position as markup: its glyph inside a span in its tint.
pub open spec fn span_of(it: GraphItem) -> Seq<char> {
    "<span color=\""@ + tint_color(it.value_type) + "\">"@ + seq![it.value] + "</span>"@
}

/// The whole sparkline as markup, one span per position.
pub open spec fn pango_of(g: Seq<GraphItem>) -> Seq<char>
    decreases g.len(),
{
    if g.len() == 0 {
        Seq::empty()
    } else {
        span_of(g[0]) + pango_of(g.drop_first())
    }
}

proof fn lemma_pango_snoc(g: Seq<GraphItem>, it: GraphItem)
    ensures
        pango_of(g.push(it)) == pango_of(g) + span_of(it),
    decreases g.len(),
{
    if g.len() == 0 {
        let rest = g.push(it).drop_first();
        assert(rest =~= Seq::<GraphItem>::empty());
        assert(g.push(it)[0] == it);
        assert(pango_of(g.push(it)) == span_of(it) + pango_of(rest));
        assert(pango_of(rest) == Seq::<char>::empty());
        assert(pango_of(g) == Seq::<char>::empty());
        assert(pango_of(g.push(it)) =~= pango_of(g) + span_of(it));
    } else {
        assert(g.push(it).drop_first() =~= g.drop_first().push(it));
        lemma_pango_snoc(g.drop_first(), it);
        assert(g.push(it)[0] == g[0]);
        assert(pango_of(g.push(it)) =~= pango_of(g) + span_of(it));
    }
}

/// Renders the sparkline as markup text.
pub fn render_graph_pango(g: &Vec<GraphItem>) -> (r: Vec<char>)
    ensures
        r@ == pango_of(g@),
{
    let mut out: Vec<char> = Vec::new();
    let n = g.len();
    let mut i: usize = 0;
    proof {
        assert(g@.take(0) =~= Seq::<GraphItem>::empty());
    }
    while i < n
        invariant
            i <= n,
            n == g@.len(),
            out@ == pango_of(g@.take(i as int)),
        decreases n - i,
    {
        let it = g[i];
        push_str_chars(&mut out, "<span color=\"");
        push_str_chars(&mut out, tint_color_str(it.value_type));
        push_str_chars(&mut out, "\">");
        out.push(it.value);
        push_str_chars(&mut out, "</span>");
        proof {
            assert(g@.take(i + 1 as int) =~= g@.take(i as int).push(g@[i as int]));
            lemma_pango_snoc(g@.take(i as int), g@[i as int]);
            assert(out@ =~= pango_of(g@.take(i + 1 as int)));
        }
        i += 1;
    }
    proof {
        assert(g@.take(n as int) =~= g@);
    }
    out
}

/// Builds the `0`-filled placeholder string that fixes a rate block's width.
fn width_placeholder(width: u16) -> (r: String)
    ensures
        r@ == zeros(width as nat),
{
    let mut out: Vec<char> = Vec::new();
    let mut i: u16 = 0;
    while i < width
        invariant
            i <= width,
            out@ == zeros(i as nat),
        decreases width - i,
    {
        out.push('0');
        proof {
            assert(out@ =~= zeros((i + 1) as nat));
        }
        i += 1;
    }
    chars_to_string(&out)
}

/// Builds the blank sparkline placeholder of the configured length.
fn blank_graph_text(n: usize) -> (r: String)
    ensures
        r@ == blanks(n as nat),
{
    let mut out: Vec<char> = Vec::new();
    let mut i: usize = 0;
    while i < n
        invariant
            i <= n,
            out@ == blanks(i as nat),
        decreases n - i,
    {
        out.push(' ');
        proof {
            assert(out@ =~= blanks((i + 1) as nat));
        }
        i += 1;
    }
    chars_to_string(&out)
}

/// The block named `name` in `s1` is `s0`'s block with new text and color.
pub open spec fn updated_text_color(
    s0: Seq<SwaybarObject>,
    s1: Seq<SwaybarObject>,
    name: Seq<char>,
    text: Seq<char>,
    color: Option<Seq<char>>,
) -> bool {
    let i = first_idx(s0, name);
    &&& s1[i].full_text@ == text
    &&& opt_str_view(s1[i].color) == color
    &&& same_but_text_color(s0[i], s1[i])
}

/// The positions a steady-state network tick may write: the first blocks of
/// `s` named after the network blocks that the configuration enables.
pub open spec fn net_written(cfg: NetConfig, s: Seq<SwaybarObject>, j: int) -> bool {
    ||| (dyn_max_shown(cfg) && has_block(s, "net_graph_dyn_max"@) && j == first_idx(
        s,
        "net_graph_dyn_max"@,
    ))
    ||| (graph_shown(cfg) && has_block(s, "net_graph"@) && j == first_idx(s, "net_graph"@))
    ||| (has_block(s, "net_down"@) && j == first_idx(s, "net_down"@))
    ||| (has_block(s, "net_up"@) && j == first_idx(s, "net_up"@))
}

/// Pushing a block that does not carry `name` keeps `name` absent.
proof fn lemma_boot_push_fresh(s0: Seq<SwaybarObject>, s1: Seq<SwaybarObject>, name: Seq<char>)
    requires
        s1.len() == s0.len() + 1,
        forall|j: int| 0 <= j < s0.len() ==> s1[j] == s0[j],
        !has_block(s0, name),
        !has_name(s1.last(), name),
    ensures
        !has_block(s1, name),
{
    if has_block(s1, name) {
        let k = choose|k: int| 0 <= k < s1.len() && has_name(s1[k], name);
        if k < s0.len() {
            assert(!has_name(s0[k], name));
        } else {
            assert(s1[k] == s1.last());
        }
    }
}

proof fn lemma_net_names_distinct()
    ensures
        "net_graph_dyn_max"@ != "net_graph"@,
        "net_graph_dyn_max"@ != "net_down"@,
        "net_graph_dyn_max"@ != "net_up"@,
        "net_graph"@ != "net_down"@,
        "net_graph"@ != "net_up"@,
        "net_down"@ != "net_up"@,
{
    reveal_strlit("net_graph_dyn_max");
    reveal_strlit("net_graph");
    reveal_strlit("net_down");
    reveal_strlit("net_up");
    assert("net_graph_dyn_max"@.len() == 17);
    assert("net_graph"@.len() == 9);
    assert("net_down"@.len() == 8);
    assert("net_up"@.len() == 6);
}

/// One successful network tick applied to the registry. On the first tick
/// the enabled blocks are appended in order (rolling maximum, sparkline,
/// down rate, up rate); afterwards the existing blocks are rewritten in
/// place and everything else is untouched. The dynamic rolling-maximum text
/// and tint come from the sparkline position holding the window maximum.
#[verifier::rlimit(100)]
#[verifier::spinoff_prover]
pub fn handle_net(
    is_empty: bool,
    net: &mut NetInfo,
    array: &mut SwaybarArray,
    cfg: NetConfig,
    contents: &str,
) -> (r: Result<(), ProcError>)
    requires
        old(net)@.graph.len() >= 1,
        is_empty ==> !has_block(old(array)@, "net_graph_dyn_max"@) && !has_block(
            old(array)@,
            "net_graph"@,
        ) && !has_block(old(array)@, "net_down"@) && !has_block(old(array)@, "net_up"@),
    ensures
        r matches Err(e) ==> final(array)@ == old(array)@ && (if old(net)@.errored {
            e == ProcError::PermanentSourceFailure && final(net)@ == old(net)@
        } else {
            spec_netdev_counters(contents@, old(net)@.dev_name) == Err::<(u64, u64), ProcError>(e)
                && final(net)@ == (NetInfoView { errored: true, ..old(net)@ })
        }),
        r is Ok ==> ({
            let counters = spec_netdev_counters(contents@, old(net)@.dev_name);
            let v1 = ingest(old(net)@, counters->Ok_0.0, counters->Ok_0.1);
            let d_rate = spec_rate(v1.down, v1.prev_down);
            let u_rate = spec_rate(v1.up, v1.prev_up);
            let tint = spec_tint(d_rate, u_rate);
            let dmax = spec_max_rate(d_rate, u_rate);
            let v2 = rated(v1);
            let mid = dyn_mid(old(net)@.graph, dmax, tint);
            &&& !old(net)@.errored
            &&& counters is Ok
            &&& (match cfg.graph_max {
                Some(m) => final(net)@ == (NetInfoView {
                    graph: static_step(old(net)@.graph, dmax, m, tint),
                    ..v2
                }),
                None => exists|idx: int|
                    #[trigger] is_first_max(mid, idx) && dyn_requantized(
                        mid,
                        mid[idx].num_value,
                        final(net)@.graph,
                    ) && final(net)@ == (NetInfoView { graph: final(net)@.graph, ..v2 }),
            })
            &&& (is_empty ==> ({
                let k = old(array)@.len() as int;
                let p_graph = k + (if dyn_max_shown(cfg) {
                    1int
                } else {
                    0int
                });
                let p_down = p_graph + (if graph_shown(cfg) {
                    1int
                } else {
                    0int
                });
                &&& final(array)@.len() == k + net_boot_count(cfg)
                &&& final(array)@.subrange(0, k) == old(array)@
                &&& (dyn_max_shown(cfg) ==> ({
                    let o = final(array)@[k];
                    &&& base_block(o, "net_graph_dyn_max"@)
                    &&& opt_str_view(o.color) == Some("#ffff88"@)
                    &&& o.min_width is None
                    &&& o.align is None
                    &&& o.markup is None
                    &&& (match cfg.graph_max {
                        Some(m) => o.full_text@ == Seq::<char>::empty(),
                        None => exists|idx: int|
                            #[trigger] is_first_max(mid, idx) && o.full_text@ == spec_rate_chars(
                                mid[idx].num_value as nat,
                            ),
                    })
                }))
                &&& (graph_shown(cfg) ==> ({
                    let o = final(array)@[p_graph];
                    &&& base_block(o, "net_graph"@)
                    &&& o.full_text@ == blanks(cfg.graph_size as nat)
                    &&& opt_str_view(o.markup) == Some("pango"@)
                    &&& o.color is None
                    &&& o.min_width is None
                    &&& o.align is None
                }))
                &&& ({
                    let o = final(array)@[p_down];
                    &&& base_block(o, "net_down"@)
                    &&& o.full_text@ == spec_rate_chars(d_rate as nat)
                    &&& opt_str_view(o.color) == Some("#ff8888ff"@)
                    &&& opt_str_view(o.min_width) == (match cfg.width {
                        Some(w) => Some(zeros(w as nat)),
                        None => None,
                    })
                    &&& opt_str_view(o.align) == Some("right"@)
                    &&& o.markup is None
                })
                &&& ({
                    let o = final(array)@[p_down + 1];
                    &&& base_block(o, "net_up"@)
                    &&& o.full_text@ == spec_rate_chars(u_rate as nat)
                    &&& opt_str_view(o.color) == Some("#88ff88ff"@)
                    &&& opt_str_view(o.min_width) == (match cfg.width {
                        Some(w) => Some(zeros(w as nat)),
                        None => None,
                    })
                    &&& opt_str_view(o.align) == Some("right"@)
                    &&& o.markup is None
                })
            }))
            &&& (!is_empty ==> ({
                let s0 = old(array)@;
                let s1 = final(array)@;
                &&& s1.len() == s0.len()
                &&& (forall|j: int|
                    0 <= j < s0.len() && !net_written(cfg, s0, j) ==> s1[j] == s0[j])
                &&& (dyn_max_shown(cfg) && has_block(s0, "net_graph_dyn_max"@) ==> ({
                    let i = first_idx(s0, "net_graph_dyn_max"@);
                    &&& same_but_text_color(s0[i], s1[i])
                    &&& (match cfg.graph_max {
                        Some(m) => s1[i].full_text@ == Seq::<char>::empty() && opt_str_view(
                            s1[i].color,
                        ) == Some(tint_color(final(net)@.graph[0].value_type)),
                        None => exists|idx: int|
                            #[trigger] is_first_max(mid, idx) && s1[i].full_text@
                                == spec_rate_chars(mid[idx].num_value as nat) && opt_str_view(
                                s1[i].color,
                            ) == Some(tint_color(mid[idx].value_type)),
                    })
                }))
                &&& (graph_shown(cfg) && has_block(s0, "net_graph"@) ==> ({
                    let i = first_idx(s0, "net_graph"@);
                    &&& same_but_text_color(s0[i], s1[i])
                    &&& s1[i].full_text@ == pango_of(final(net)@.graph)
                    &&& s1[i].color == s0[i].color
                }))
                &&& (has_block(s0, "net_down"@) ==> updated_text_color(
                    s0,
                    s1,
                    "net_down"@,
                    spec_rate_chars(d_rate as nat),
                    Some("#ff8888ff"@),
                ))
                &&& (has_block(s0, "net_up"@) ==> updated_text_color(
                    s0,
                    s1,
                    "net_up"@,
                    spec_rate_chars(u_rate as nat),
                    Some("#88ff88ff"@),
                ))
            }))
        }),
{
    match net.update(contents) {
        Err(e) => {
            return Err(e);
        },
        Ok(()) => {},
    }
    let (d_rate, u_rate) = net.compute_rates();
    let mut down_text: Vec<char> = Vec::new();
    push_rate_chars(&mut down_text, d_rate);
    let mut up_text: Vec<char> = Vec::new();
    push_rate_chars(&mut up_text, u_rate);
    let (max_idx, max_text) = net.update_graph(d_rate, u_rate, cfg.graph_max);
    proof {
        lemma_net_names_distinct();
    }
    if is_empty {
        let ghost s0 = array@;
        if cfg.graph_is_dynamic && cfg.show_dynamic_max {
            let mut obj = SwaybarObject::from_string(
                "net_graph_dyn_max".to_owned(),
                chars_to_string(&max_text),
            );
            obj.color = Some("#ffff88".to_owned());
            array.push_object(obj);
            proof {
                lemma_boot_push_fresh(s0, array@, "net_graph"@);
                lemma_boot_push_fresh(s0, array@, "net_down"@);
                lemma_boot_push_fresh(s0, array@, "net_up"@);
            }
        }
        let ghost s1 = array@;
        if cfg.graph_max.is_some() || cfg.graph_is_dynamic {
            let mut obj = SwaybarObject::from_string(
                "net_graph".to_owned(),
                blank_graph_text(cfg.graph_size),
            );
            obj.markup = Some("pango".to_owned());
            array.push_object(obj);
            proof {
                lemma_boot_push_fresh(s1, array@, "net_down"@);
                lemma_boot_push_fresh(s1, array@, "net_up"@);
            }
        }
        let ghost s2 = array@;
        let width_string: Option<String> = match cfg.width {
            Some(w) => Some(width_placeholder(w)),
            None => None,
        };
        let mut down_object = SwaybarObject::from_string(
            "net_down".to_owned(),
            chars_to_string(&down_text),
        );
        down_object.color = Some("#ff8888ff".to_owned());
        down_object.min_width = match &width_string {
            Some(s) => Some(s.clone()),
            None => None,
        };
        down_object.align = Some("right".to_owned());
        array.push_object(down_object);
        proof {
            lemma_boot_push_fresh(s2, array@, "net_up"@);
        }
        let mut up_object = SwaybarObject::from_string(
            "net_up".to_owned(),
            chars_to_string(&up_text),
        );
        up_object.color = Some("#88ff88ff".to_owned());
        up_object.min_width = width_string;
        up_object.align = Some("right".to_owned());
        array.push_object(up_object);
        proof {
            assert(final(array)@.subrange(0, s0.len() as int) =~= s0);
        }
    } else {
        let ghost s0 = array@;
        if cfg.graph_is_dynamic && cfg.show_dynamic_max {
            let color_str: String = {
                let g = net.get_graph();
                let t = if !g.is_empty() && max_idx < g.len() {
                    g[max_idx].get_value_type()
                } else {
                    GraphItemType::Both
                };
                tint_color_str(t).to_owned()
            };
            match array.find_index("net_graph_dyn_max") {
                Some(i) => {
                    proof {
                        lemma_first_idx(s0, "net_graph_dyn_max"@);
                    }
                    let o = array.get_mut(i);
                    o.full_text = chars_to_string(&max_text);
                    if cfg.graph_max.is_some() || cfg.graph_is_dynamic {
                        o.color = Some(color_str);
                    }
                },
                None => {},
            }
        }
        let ghost s1 = array@;
        proof {
            if has_block(s0, "net_graph_dyn_max"@) && dyn_max_shown(cfg) {
                lemma_first_idx_update(
                    s0,
                    first_idx(s0, "net_graph_dyn_max"@),
                    s1[first_idx(s0, "net_graph_dyn_max"@)],
                    "net_graph"@,
                );
                lemma_first_idx_update(
                    s0,
                    first_idx(s0, "net_graph_dyn_max"@),
                    s1[first_idx(s0, "net_graph_dyn_max"@)],
                    "net_down"@,
                );
                lemma_first_idx_update(
                    s0,
                    first_idx(s0, "net_graph_dyn_max"@),
                    s1[first_idx(s0, "net_graph_dyn_max"@)],
                    "net_up"@,
                );
                assert(s1 =~= s0.update(
                    first_idx(s0, "net_graph_dyn_max"@),
                    s1[first_idx(s0, "net_graph_dyn_max"@)],
                ));
            }
        }
        if cfg.graph_max.is_some() || cfg.graph_is_dynamic {
            let text = render_graph_pango(net.get_graph());
            match array.find_index("net_graph") {
                Some(i) => {
                    proof {
                        lemma_first_idx(s1, "net_graph"@);
                    }
                    let o = array.get_mut(i);
                    o.full_text = chars_to_string(&text);
                },
                None => {},
            }
        }
        let ghost s2 = array@;
        proof {
            if has_block(s1, "net_graph"@) && graph_shown(cfg) {
                lemma_first_idx_update(
                    s1,
                    first_idx(s1, "net_graph"@),
                    s2[first_idx(s1, "net_graph"@)],
                    "net_down"@,
                );
                lemma_first_idx_update(
                    s1,
                    first_idx(s1, "net_graph"@),
                    s2[first_idx(s1, "net_graph"@)],
                    "net_up"@,
                );
                assert(s2 =~= s1.update(first_idx(s1, "net_graph"@), s2[first_idx(s1, "net_graph"@)]));
            }
        }
        match array.find_index("net_down") {
            Some(i) => {
                proof {
                    lemma_first_idx(s2, "net_down"@);
                }
                let o = array.get_mut(i);
                o.update_as_net_down(chars_to_string(&down_text));
            },
            None => {},
        }
        let ghost s3 = array@;
        proof {
            if has_block(s2, "net_down"@) {
                lemma_first_idx_update(
                    s2,
                    first_idx(s2, "net_down"@),
                    s3[first_idx(s2, "net_down"@)],
                    "net_up"@,
                );
                assert(s3 =~= s2.update(first_idx(s2, "net_down"@), s3[first_idx(s2, "net_down"@)]));
            }
        }
        match array.find_index("net_up") {
            Some(i) => {
                proof {
                    lemma_first_idx(s3, "net_up"@);
                }
                let o = array.get_mut(i);
                o.update_as_net_up(chars_to_string(&up_text));
            },
            None => {},
        }
    }
    Ok(())
}

/// Marks every configured network block as failed: on the first tick the
/// blocks are inserted as error blocks, afterwards the existing ones are
/// rewritten to the fixed error text in red; everything else is untouched.
#[verifier::rlimit(100)]
#[verifier::spinoff_prover]
pub fn set_net_error(array: &mut SwaybarArray, is_empty: bool, cfg: NetConfig)
    requires
        is_empty ==> !has_block(old(array)@, "net_graph_dyn_max"@) && !has_block(
            old(array)@,
            "net_graph"@,
        ) && !has_block(old(array)@, "net_down"@) && !has_block(old(array)@, "net_up"@),
    ensures
        is_empty ==> ({
            let k = old(array)@.len() as int;
            let p_graph = k + (if dyn_max_shown(cfg) {
                1int
            } else {
                0int
            });
            let p_down = p_graph + (if graph_shown(cfg) {
                1int
            } else {
                0int
            });
            &&& final(array)@.len() == k + net_boot_count(cfg)
            &&& final(array)@.subrange(0, k) == old(array)@
            &&& (dyn_max_shown(cfg) ==> error_block(
                final(array)@[k],
                "net_graph_dyn_max"@,
                "net ERROR"@,
            ))
            &&& (graph_shown(cfg) ==> error_block(final(array)@[p_graph], "net_graph"@, "net ERROR"@))
            &&& error_block(final(array)@[p_down], "net_down"@, "Net ERROR"@)
            &&& error_block(final(array)@[p_down + 1], "net_up"@, "Net ERROR"@)
        }),
        !is_empty ==> ({
            let s0 = old(array)@;
            let s1 = final(array)@;
            &&& s1.len() == s0.len()
            &&& (forall|j: int| 0 <= j < s0.len() && !net_written(cfg, s0, j) ==> s1[j] == s0[j])
            &&& (dyn_max_shown(cfg) && has_block(s0, "net_graph_dyn_max"@) ==> updated_text_color(
                s0,
                s1,
                "net_graph_dyn_max"@,
                "Net ERROR"@,
                Some("#ff2222ff"@),
            ))
            &&& (graph_shown(cfg) && has_block(s0, "net_graph"@) ==> updated_text_color(
                s0,
                s1,
                "net_graph"@,
                "Net ERROR"@,
                Some("#ff2222ff"@),
            ))
            &&& (has_block(s0, "net_down"@) ==> updated_text_color(
                s0,
                s1,
                "net_down"@,
                "Net ERROR"@,
                Some("#ff2222ff"@),
            ))
            &&& (has_block(s0, "net_up"@) ==> updated_text_color(
                s0,
                s1,
                "net_up"@,
                "Net ERROR"@,
                Some("#ff2222ff"@),
            ))
        }),
{
    proof {
        lemma_net_names_distinct();
    }
    let ghost s0 = array@;
    if cfg.graph_is_dynamic && cfg.show_dynamic_max {
        let msg = if is_empty {
            "net ERROR"
        } else {
            "Net ERROR"
        };
        apply_error_block(array, is_empty, "net_graph_dyn_max", msg.to_owned());
    }
    let ghost s1 = array@;
    proof {
        if is_empty && dyn_max_shown(cfg) {
            assert(forall|j: int| 0 <= j < s0.len() ==> s1[j] == s0[j]) by {
                assert(forall|j: int| 0 <= j < s0.len() ==> s1.drop_last()[j] == s1[j]);
            }
            lemma_boot_push_fresh(s0, s1, "net_graph"@);
            lemma_boot_push_fresh(s0, s1, "net_down"@);
            lemma_boot_push_fresh(s0, s1, "net_up"@);
        }
        if !is_empty && dyn_max_shown(cfg) && has_block(s0, "net_graph_dyn_max"@) {
            let i = first_idx(s0, "net_graph_dyn_max"@);
            lemma_first_idx(s0, "net_graph_dyn_max"@);
            lemma_first_idx_update(s0, i, s1[i], "net_graph"@);
            lemma_first_idx_update(s0, i, s1[i], "net_down"@);
            lemma_first_idx_update(s0, i, s1[i], "net_up"@);
            assert(s1 =~= s0.update(i, s1[i]));
        }
    }
    if cfg.graph_max.is_some() || cfg.graph_is_dynamic {
        let msg = if is_empty {
            "net ERROR"
        } else {
            "Net ERROR"
        };
        apply_error_block(array, is_empty, "net_graph", msg.to_owned());
    }
    let ghost s2 = array@;
    proof {
        if is_empty && graph_shown(cfg) {
            assert(forall|j: int| 0 <= j < s1.len() ==> s2[j] == s1[j]) by {
                assert(forall|j: int| 0 <= j < s1.len() ==> s2.drop_last()[j] == s2[j]);
            }
            lemma_boot_push_fresh(s1, s2, "net_down"@);
            lemma_boot_push_fresh(s1, s2, "net_up"@);
        }
        if !is_empty && graph_shown(cfg) && has_block(s1, "net_graph"@) {
            let i = first_idx(s1, "net_graph"@);
            lemma_first_idx(s1, "net_graph"@);
            lemma_first_idx_update(s1, i, s2[i], "net_down"@);
            lemma_first_idx_update(s1, i, s2[i], "net_up"@);
            assert(s2 =~= s1.update(i, s2[i]));
        }
    }
    apply_error_block(array, is_empty, "net_down", "Net ERROR".to_owned());
    let ghost s3 = array@;
    proof {
        if is_empty {
            assert(forall|j: int| 0 <= j < s2.len() ==> s3[j] == s2[j]) by {
                assert(forall|j: int| 0 <= j < s2.len() ==> s3.drop_last()[j] == s3[j]);
            }
            lemma_boot_push_fresh(s2, s3, "net_up"@);
        }
        if !is_empty && has_block(s2, "net_down"@) {
            let i = first_idx(s2, "net_down"@);
            lemma_first_idx(s2, "net_down"@);
            lemma_first_idx_update(s2, i, s3[i], "net_up"@);
            assert(s3 =~= s2.update(i, s3[i]));
        }
    }
    apply_error_block(array, is_empty, "net_up", "Net ERROR".to_owned());
    proof {
        if is_empty {
            assert(final(array)@.subrange(0, s0.len() as int) =~= s0);
        } else {
            if has_block(s0, "net_graph_dyn_max"@) {
                lemma_first_idx(s0, "net_graph_dyn_max"@);
            }
            if has_block(s0, "net_graph"@) {
                lemma_first_idx(s0, "net_graph"@);
            }
            if has_block(s0, "net_down"@) {
                lemma_first_idx(s0, "net_down"@);
            }
            if has_block(s0, "net_up"@) {
                lemma_first_idx(s0, "net_up"@);
            }
        }
    }
}

/// What a successful battery tick leaves in the block: the engine matched
/// the fixed pattern against the tool's output, the capture list yielded a
/// text and a percentage, and the block shows that text in that percentage's
/// color.
pub open spec fn batt_block_shows_reading(o: SwaybarObject, output: Seq<char>) -> bool {
    &&& captures_of(batt_pattern(), output) matches Some(g) && BattInfo::spec_batt_outcome(g)
        matches Ok(tp) && o.full_text@ == tp.0 && opt_str_view(o.color) == Some(
        spec_batt_color_chars(tp.1),
    )
}

/// One battery tick. On the first tick the block is inserted, showing the
/// reading or the fixed error text; afterwards the existing block is
/// rewritten unless the source is already retired. A returned error is the
/// tick's failure, to be reported once by the caller.
pub fn handle_battery(
    batt: &mut BattInfo,
    array: &mut SwaybarArray,
    is_empty: bool,
    output: &str,
) -> (r: Option<crate::builtin::BattError>)
    requires
        is_empty ==> !has_block(old(array)@, "battinfo"@),
    ensures
        r is Some ==> final(batt).spec_error(),
        is_empty ==> ({
            let o = final(array)@.last();
            &&& final(array)@.len() == old(array)@.len() + 1
            &&& final(array)@.drop_last() == old(array)@
            &&& base_block(o, "battinfo"@)
            &&& (r is None ==> batt_block_shows_reading(o, output@))
            &&& (r is Some ==> o.full_text@ == "BATTINFO ERROR"@ && opt_str_view(o.color) == Some(
                "#ff2222ff"@,
            ))
        }),
        !is_empty && has_block(old(array)@, "battinfo"@) ==> ({
            let i = first_idx(old(array)@, "battinfo"@);
            let s1 = final(array)@;
            &&& s1.len() == old(array)@.len()
            &&& (forall|j: int| 0 <= j < s1.len() && j != i ==> s1[j] == old(array)@[j])
            &&& (old(batt).spec_error() ==> s1 == old(array)@ && r is None)
            &&& (!old(batt).spec_error() ==> same_but_text_color(old(array)@[i], s1[i]) && (
            r is None ==> batt_block_shows_reading(s1[i], output@)) && (r is Some ==> s1[i].full_text@
                == "BATTINFO ERROR"@ && opt_str_view(s1[i].color) == Some("#ff2222ff"@)))
        }),
        !is_empty && !has_block(old(array)@, "battinfo"@) ==> final(array)@ == old(array)@
            && r is None && *final(batt) == *old(batt),
{
    if is_empty {
        let mut new_object = SwaybarObject::new("battinfo".to_owned());
        match batt.update(output, &mut new_object) {
            Ok(()) => {
                array.push_object(new_object);
                proof {
                    assert(final(array)@.drop_last() =~= old(array)@);
                }
                None
            },
            Err(e) => {
                new_object.update_as_error("BATTINFO ERROR".to_owned());
                array.push_object(new_object);
                proof {
                    assert(final(array)@.drop_last() =~= old(array)@);
                }
                Some(e)
            },
        }
    } else {
        match array.find_index("battinfo") {
            Some(i) => {
                proof {
                    lemma_first_idx(old(array)@, "battinfo"@);
                }
                if batt.is_error_state() {
                    return None;
                }
                let o = array.get_mut(i);
                match batt.update(output, o) {
                    Ok(()) => None,
                    Err(e) => {
                        o.update_as_error("BATTINFO ERROR".to_owned());
                        Some(e)
                    },
                }
            },
            None => None,
        }
    }
}

} // verus!
