//! Display blocks and the name-indexed registry. A `SwaybarObject` is one
//! named, independently updatable segment of the status line; a
//! `SwaybarArray` is the ordered collection of all blocks for one run,
//! looked up by name and serialized as one JSON array line per tick.

use vstd::prelude::*;

use crate::json::{
    field_sep_bool, field_sep_str, field_sep_u16, json_escape, json_string,
    lemma_field_sep_bool_line_safe, lemma_field_sep_str_line_safe, lemma_field_sep_u16_line_safe,
    lemma_json_string_line_safe, lemma_line_safe_concat, line_safe, push_field_sep_bool,
    push_field_sep_str, push_field_sep_u16, push_json_string,
};
use crate::text::{chars_to_string, push_dec_u64, push_str_chars, spec_dec, str_eq};

verus! {

/// The header object that precedes the stream of block arrays.
pub struct SwaybarHeader {
    pub version: u32,
    pub click_events: Option<bool>,
    pub cont_signal: Option<u16>,
    pub stop_signal: Option<u16>,
}

/// One display block of the status line.
pub struct SwaybarObject {
    pub full_text: String,
    pub short_text: Option<String>,
    pub color: Option<String>,
    pub background: Option<String>,
    pub border: Option<String>,
    pub border_top: Option<u16>,
    pub border_bottom: Option<u16>,
    pub border_left: Option<u16>,
    pub border_right: Option<u16>,
    pub min_width: Option<String>,
    pub align: Option<String>,
    pub name: Option<String>,
    pub instance: Option<String>,
    pub urgent: Option<bool>,
    pub separator: Option<bool>,
    pub separator_block_width: Option<u16>,
    pub markup: Option<String>,
}

/// The ordered, name-addressable collection of blocks.
pub struct SwaybarArray {
    objects: Vec<SwaybarObject>,
}

/// The view of an optional string as an optional character sequence.
pub open spec fn opt_str_view(v: Option<String>) -> Option<Seq<char>> {
    match v {
        Some(s) => Some(s@),
        None => None,
    }
}

/// Whether block `o` carries the name `name`.
pub open spec fn has_name(o: SwaybarObject, name: Seq<char>) -> bool {
    match o.name {
        Some(n) => n@ == name,
        None => false,
    }
}

/// Whether some block in `s` carries the name `name`.
pub open spec fn has_block(s: Seq<SwaybarObject>, name: Seq<char>) -> bool {
    exists|i: int| 0 <= i < s.len() && has_name(s[i], name)
}

/// The position of the first block in `s` named `name` (meaningful only when
/// `has_block(s, name)` holds).
pub open spec fn first_idx(s: Seq<SwaybarObject>, name: Seq<char>) -> int
    decreases s.len(),
{
    if s.len() == 0 {
        0
    } else if has_name(s[0], name) {
        0
    } else {
        1 + first_idx(s.drop_first(), name)
    }
}

/// What `first_idx` returns: the first matching position.
pub proof fn lemma_first_idx(s: Seq<SwaybarObject>, name: Seq<char>)
    requires
        has_block(s, name),
    ensures
        0 <= first_idx(s, name) < s.len(),
        has_name(s[first_idx(s, name)], name),
        forall|j: int| 0 <= j < first_idx(s, name) ==> !has_name(s[j], name),
    decreases s.len(),
{
    if has_name(s[0], name) {
    } else {
        let rest = s.drop_first();
        assert(has_block(rest, name)) by {
            let i = choose|i: int| 0 <= i < s.len() && has_name(s[i], name);
            assert(rest[i - 1] == s[i]);
        }
        lemma_first_idx(rest, name);
        assert forall|j: int| 0 <= j < first_idx(s, name) implies !has_name(s[j], name) by {
            if j > 0 {
                assert(s[j] == rest[j - 1]);
            }
        }
    }
}

/// A first match at `i` pins `first_idx` down to `i`.
pub proof fn lemma_first_idx_is(s: Seq<SwaybarObject>, name: Seq<char>, i: int)
    requires
        0 <= i < s.len(),
        has_name(s[i], name),
        forall|j: int| 0 <= j < i ==> !has_name(s[j], name),
    ensures
        has_block(s, name),
        first_idx(s, name) == i,
    decreases s.len(),
{
    if i == 0 {
    } else {
        let rest = s.drop_first();
        assert(rest[i - 1] == s[i]);
        assert forall|j: int| 0 <= j < i - 1 implies !has_name(rest[j], name) by {
            assert(rest[j] == s[j + 1]);
        }
        lemma_first_idx_is(rest, name, i - 1);
    }
}

impl SwaybarHeader {
    /// A header asking for protocol version 1 with no optional features.
    pub fn new() -> (r: Self)
        ensures
            r.version == 1,
            r.click_events is None,
            r.cont_signal is None,
            r.stop_signal is None,
    {
        Self { version: 1, click_events: None, cont_signal: None, stop_signal: None }
    }

    /// Renders the header as one JSON object.
    pub fn to_json(&self) -> (r: String)
        ensures
            r@ == json_of_header(*self),
    {
        let mut out: Vec<char> = Vec::new();
        out.push('{');
        push_json_string(&mut out, "version");
        out.push(':');
        push_dec_u64(&mut out, self.version as u64);
        push_field_sep_bool(&mut out, "click_events", &self.click_events);
        push_field_sep_u16(&mut out, "cont_signal", &self.cont_signal);
        push_field_sep_u16(&mut out, "stop_signal", &self.stop_signal);
        out.push('}');
        proof {
            assert(out@ =~= json_of_header(*self));
        }
        chars_to_string(&out)
    }
}

/// The JSON object for a header.
pub open spec fn json_of_header(h: SwaybarHeader) -> Seq<char> {
    seq!['{'] + json_string("version"@) + seq![':'] + spec_dec(h.version as nat) + field_sep_bool(
        "click_events"@,
        h.click_events,
    ) + field_sep_u16("cont_signal"@, h.cont_signal) + field_sep_u16("stop_signal"@, h.stop_signal)
        + seq!['}']
}

/// The JSON object for one block: `full_text` first, then every set optional
/// attribute in declaration order; unset attributes are omitted entirely.
pub open spec fn json_of_object(o: SwaybarObject) -> Seq<char> {
    seq!['{'] + json_string("full_text"@) + seq![':'] + json_string(o.full_text@) + field_sep_str(
        "short_text"@,
        o.short_text,
    ) + field_sep_str("color"@, o.color) + field_sep_str("background"@, o.background)
        + field_sep_str("border"@, o.border) + field_sep_u16("border_top"@, o.border_top)
        + field_sep_u16("border_bottom"@, o.border_bottom) + field_sep_u16(
        "border_left"@,
        o.border_left,
    ) + field_sep_u16("border_right"@, o.border_right) + field_sep_str("min_width"@, o.min_width)
        + field_sep_str("align"@, o.align) + field_sep_str("name"@, o.name) + field_sep_str(
        "instance"@,
        o.instance,
    ) + field_sep_bool("urgent"@, o.urgent) + field_sep_bool("separator"@, o.separator)
        + field_sep_u16("separator_block_width"@, o.separator_block_width) + field_sep_str(
        "markup"@,
        o.markup,
    ) + seq!['}']
}

/// The comma-separated JSON objects for every block of `s`, each preceded by
/// a comma (the fragment that follows the first object of an array).
pub open spec fn json_tail(s: Seq<SwaybarObject>) -> Seq<char>
    decreases s.len(),
{
    if s.len() == 0 {
        Seq::empty()
    } else {
        seq![','] + json_of_object(s[0]) + json_tail(s.drop_first())
    }
}

/// The JSON array holding every block of `s` in order.
pub open spec fn json_of_array(s: Seq<SwaybarObject>) -> Seq<char> {
    seq!['['] + (if s.len() == 0 {
        Seq::<char>::empty()
    } else {
        json_of_object(s[0]) + json_tail(s.drop_first())
    }) + seq![']']
}

#[verifier::rlimit(50)]
pub proof fn lemma_json_tail_snoc(s: Seq<SwaybarObject>, o: SwaybarObject)
    ensures
        json_tail(s.push(o)) == json_tail(s) + seq![','] + json_of_object(o),
    decreases s.len(),
{
    if s.len() == 0 {
        let rest = s.push(o).drop_first();
        assert(rest =~= Seq::<SwaybarObject>::empty());
        assert(json_tail(rest) == Seq::<char>::empty());
        assert(s.push(o)[0] == o);
        assert(json_tail(s.push(o)) =~= json_tail(s) + seq![','] + json_of_object(o));
    } else {
        assert(s.push(o).drop_first() =~= s.drop_first().push(o));
        lemma_json_tail_snoc(s.drop_first(), o);
        assert(s.push(o)[0] == s[0]);
        assert(json_tail(s.push(o)) =~= json_tail(s) + seq![','] + json_of_object(o));
    }
}

/// Appends the JSON object for the block `o`.
#[verifier::rlimit(100)]
#[verifier::spinoff_prover]
pub fn push_object_json(out: &mut Vec<char>, o: &SwaybarObject)
    ensures
        final(out)@ == old(out)@ + json_of_object(*o),
{
    out.push('{');
    push_json_string(out, "full_text");
    out.push(':');
    push_json_string(out, o.full_text.as_str());
    push_field_sep_str(out, "short_text", &o.short_text);
    push_field_sep_str(out, "color", &o.color);
    push_field_sep_str(out, "background", &o.background);
    push_field_sep_str(out, "border", &o.border);
    push_field_sep_u16(out, "border_top", &o.border_top);
    push_field_sep_u16(out, "border_bottom", &o.border_bottom);
    push_field_sep_u16(out, "border_left", &o.border_left);
    push_field_sep_u16(out, "border_right", &o.border_right);
    push_field_sep_str(out, "min_width", &o.min_width);
    push_field_sep_str(out, "align", &o.align);
    push_field_sep_str(out, "name", &o.name);
    push_field_sep_str(out, "instance", &o.instance);
    push_field_sep_bool(out, "urgent", &o.urgent);
    push_field_sep_bool(out, "separator", &o.separator);
    push_field_sep_u16(out, "separator_block_width", &o.separator_block_width);
    push_field_sep_str(out, "markup", &o.markup);
    out.push('}');
    proof {
        assert(out@ =~= old(out)@ + json_of_object(*o));
    }
}

impl SwaybarObject {
    /// A block named `name` with empty text, a white border, and every other
    /// attribute unset.
    pub fn new(name: String) -> (r: Self)
        ensures
            r.full_text@ == Seq::<char>::empty(),
            r.short_text is None,
            r.color is None,
            r.background is None,
            opt_str_view(r.border) == Some("#ffffffff"@),
            r.border_top is None,
            r.border_bottom is None,
            r.border_left is None,
            r.border_right is None,
            r.min_width is None,
            r.align is None,
            opt_str_view(r.name) == Some(name@),
            r.instance is None,
            r.urgent is None,
            r.separator is None,
            r.separator_block_width is None,
            r.markup is None,
    {
        Self {
            full_text: String::new(),
            short_text: None,
            color: None,
            background: None,
            border: Some("#ffffffff".to_owned()),
            border_top: None,
            border_bottom: None,
            border_left: None,
            border_right: None,
            min_width: None,
            align: None,
            name: Some(name),
            instance: None,
            urgent: None,
            separator: None,
            separator_block_width: None,
            markup: None,
        }
    }

    /// A block named `name` showing `string`, with a white border.
    pub fn from_string(name: String, string: String) -> (r: Self)
        ensures
            r.full_text@ == string@,
            r.short_text is None,
            r.color is None,
            r.background is None,
            opt_str_view(r.border) == Some("#ffffffff"@),
            r.border_top is None,
            r.border_bottom is None,
            r.border_left is None,
            r.border_right is None,
            r.min_width is None,
            r.align is None,
            opt_str_view(r.name) == Some(name@),
            r.instance is None,
            r.urgent is None,
            r.separator is None,
            r.separator_block_width is None,
            r.markup is None,
    {
        Self {
            full_text: string,
            short_text: None,
            color: None,
            background: None,
            border: Some("#ffffffff".to_owned()),
            border_top: None,
            border_bottom: None,
            border_left: None,
            border_right: None,
            min_width: None,
            align: None,
            name: Some(name),
            instance: None,
            urgent: None,
            separator: None,
            separator_block_width: None,
            markup: None,
        }
    }

    /// A block named `name` showing the error message `msg` in red.
    pub fn from_error_string(name: String, msg: String) -> (r: Self)
        ensures
            r.full_text@ == msg@,
            r.short_text is None,
            opt_str_view(r.color) == Some("#ff2222ff"@),
            r.background is None,
            opt_str_view(r.border) == Some("#ffffffff"@),
            r.border_top is None,
            r.border_bottom is None,
            r.border_left is None,
            r.border_right is None,
            r.min_width is None,
            r.align is None,
            opt_str_view(r.name) == Some(name@),
            r.instance is None,
            r.urgent is None,
            r.separator is None,
            r.separator_block_width is None,
            r.markup is None,
    {
        Self {
            full_text: msg,
            short_text: None,
            color: Some("#ff2222ff".to_owned()),
            background: None,
            border: Some("#ffffffff".to_owned()),
            border_top: None,
            border_bottom: None,
            border_left: None,
            border_right: None,
            min_width: None,
            align: None,
            name: Some(name),
            instance: None,
            urgent: None,
            separator: None,
            separator_block_width: None,
            markup: None,
        }
    }

    /// Shows `metric` tinted in the download color.
    pub fn update_as_net_down(&mut self, metric: String)
        ensures
            final(self).full_text@ == metric@,
            opt_str_view(final(self).color) == Some("#ff8888ff"@),
            same_but_text_color(*old(self), *final(self)),
    {
        self.full_text = metric;
        self.color = Some("#ff8888ff".to_owned());
    }

    /// Shows `metric` tinted in the upload color.
    pub fn update_as_net_up(&mut self, metric: String)
        ensures
            final(self).full_text@ == metric@,
            opt_str_view(final(self).color) == Some("#88ff88ff"@),
            same_but_text_color(*old(self), *final(self)),
    {
        self.full_text = metric;
        self.color = Some("#88ff88ff".to_owned());
    }

    /// Shows a formatted time string, clearing any color.
    pub fn update_as_date(&mut self, time_text: String)
        ensures
            final(self).full_text@ == time_text@,
            final(self).color is None,
            same_but_text_color(*old(self), *final(self)),
    {
        self.full_text = time_text;
        self.color = None;
    }

    /// Shows `metric` with the given color (or none).
    pub fn update_as_generic(&mut self, metric: String, color: Option<String>)
        ensures
            final(self).full_text@ == metric@,
            final(self).color == color,
            same_but_text_color(*old(self), *final(self)),
    {
        self.full_text = metric;
        self.color = color;
    }

    /// Shows the error message `msg` in red.
    pub fn update_as_error(&mut self, msg: String)
        ensures
            final(self).full_text@ == msg@,
            opt_str_view(final(self).color) == Some("#ff2222ff"@),
            same_but_text_color(*old(self), *final(self)),
    {
        self.full_text = msg;
        self.color = Some("#ff2222ff".to_owned());
    }

    pub fn set_name(&mut self, name: Option<String>)
        ensures
            final(self).name == name,
            final(self).full_text == old(self).full_text,
            final(self).color == old(self).color,
            final(self).short_text == old(self).short_text,
            final(self).background == old(self).background,
            final(self).border == old(self).border,
            final(self).border_top == old(self).border_top,
            final(self).border_bottom == old(self).border_bottom,
            final(self).border_left == old(self).border_left,
            final(self).border_right == old(self).border_right,
            final(self).min_width == old(self).min_width,
            final(self).align == old(self).align,
            final(self).instance == old(self).instance,
            final(self).urgent == old(self).urgent,
            final(self).separator == old(self).separator,
            final(self).separator_block_width == old(self).separator_block_width,
            final(self).markup == old(self).markup,
    {
        self.name = name;
    }

    pub fn get_name(&self) -> (r: Option<&str>)
        ensures
            match self.name {
                Some(n) => r matches Some(s) && s@ == n@,
                None => r is None,
            },
    {
        match &self.name {
            Some(n) => Some(n.as_str()),
            None => None,
        }
    }
}

/// The fields a text/color update leaves untouched agree between `a` and `b`.
pub open spec fn same_but_text_color(a: SwaybarObject, b: SwaybarObject) -> bool {
    &&& a.short_text == b.short_text
    &&& a.background == b.background
    &&& a.border == b.border
    &&& a.border_top == b.border_top
    &&& a.border_bottom == b.border_bottom
    &&& a.border_left == b.border_left
    &&& a.border_right == b.border_right
    &&& a.min_width == b.min_width
    &&& a.align == b.align
    &&& a.name == b.name
    &&& a.instance == b.instance
    &&& a.urgent == b.urgent
    &&& a.separator == b.separator
    &&& a.separator_block_width == b.separator_block_width
    &&& a.markup == b.markup
}

impl View for SwaybarArray {
    type V = Seq<SwaybarObject>;

    closed spec fn view(&self) -> Seq<SwaybarObject> {
        self.objects@
    }
}

impl SwaybarArray {
    /// An empty registry.
    pub fn new() -> (r: Self)
        ensures
            r@ == Seq::<SwaybarObject>::empty(),
    {
        Self { objects: Vec::new() }
    }

    /// Appends a block at the end of the registry. Every name is inserted
    /// once: a caller may not push a block whose name some stored block
    /// already carries (a duplicate insertion is a programming error).
    pub fn push_object(&mut self, object: SwaybarObject)
        requires
            match object.name {
                Some(n) => !has_block(old(self)@, n@),
                None => true,
            },
        ensures
            final(self)@ == old(self)@.push(object),
    {
        self.objects.push(object);
    }

    /// The registry is empty exactly before the first insertion.
    pub fn is_empty(&self) -> (r: bool)
        ensures
            r == (self@.len() == 0),
    {
        self.objects.is_empty()
    }

    /// The number of blocks.
    pub fn len(&self) -> (r: usize)
        ensures
            r == self@.len(),
    {
        self.objects.len()
    }

    /// The block at position `i`.
    pub fn get(&self, i: usize) -> (r: &SwaybarObject)
        requires
            i < self@.len(),
        ensures
            *r == self@[i as int],
    {
        &self.objects[i]
    }

    /// The position of the first block named `name`, if any.
    pub fn find_index(&self, name: &str) -> (r: Option<usize>)
        ensures
            match r {
                Some(i) => has_block(self@, name@) && i as int == first_idx(self@, name@),
                None => !has_block(self@, name@),
            },
    {
        let n = self.objects.len();
        let mut i: usize = 0;
        while i < n
            invariant
                i <= n,
                n == self@.len(),
                forall|j: int| 0 <= j < i ==> !has_name(self@[j], name@),
            decreases n - i,
        {
            let found = match &self.objects[i].name {
                Some(obj_name) => str_eq(obj_name.as_str(), name),
                None => false,
            };
            if found {
                proof {
                    lemma_first_idx_is(self@, name@, i as int);
                }
                return Some(i);
            }
            i += 1;
        }
        proof {
            if has_block(self@, name@) {
                let k = choose|k: int| 0 <= k < self@.len() && has_name(self@[k], name@);
                assert(!has_name(self@[k], name@));
            }
        }
        None
    }

    /// A shared reference to the first block named `name`, if any.
    pub fn get_by_name(&self, name: &str) -> (r: Option<&SwaybarObject>)
        ensures
            match r {
                Some(o) => has_block(self@, name@) && *o == self@[first_idx(self@, name@)],
                None => !has_block(self@, name@),
            },
    {
        match self.find_index(name) {
            Some(i) => {
                proof {
                    assert(has_block(self@, name@));
                    lemma_first_idx(self@, name@);
                    assert(i as int == first_idx(self@, name@));
                }
                let o = &self.objects[i];
                proof {
                    assert(*o == self@[i as int]);
                }
                Some(o)
            },
            None => None,
        }
    }

    /// An exclusive reference to the first block named `name`, if any.
    /// When a block is found, the caller's writes through the reference land
    /// at its position and every other block is untouched.
    pub fn get_by_name_mut(&mut self, name: &str) -> (r: Option<&mut SwaybarObject>)
        ensures
            match r {
                Some(o) => has_block(old(self)@, name@) && *o == old(self)@[first_idx(
                    old(self)@,
                    name@,
                )] && final(self)@ == old(self)@.update(first_idx(old(self)@, name@), *final(o)),
                None => !has_block(old(self)@, name@) && final(self)@ == old(self)@,
            },
    {
        match self.find_index(name) {
            Some(i) => {
                proof {
                    assert(has_block(old(self)@, name@));
                    lemma_first_idx(old(self)@, name@);
                    assert(i as int == first_idx(old(self)@, name@));
                }
                let o = &mut self.objects[i];
                Some(o)
            },
            None => None,
        }
    }

    /// An exclusive reference to the block at position `i`; the caller's
    /// writes through it land at that position.
    pub fn get_mut(&mut self, i: usize) -> (r: &mut SwaybarObject)
        requires
            i < old(self)@.len(),
        ensures
            *r == old(self)@[i as int],
            final(self)@ == old(self)@.update(i as int, *final(r)),
    {
        &mut self.objects[i]
    }

    /// Renders the registry as one line of the wire protocol: the JSON array
    /// of all blocks in insertion order, followed by the separating comma.
    #[verifier::rlimit(50)]
    pub fn to_json_line(&self) -> (r: String)
        ensures
            r@ == json_of_array(self@) + seq![','],
    {
        let mut out: Vec<char> = Vec::new();
        out.push('[');
        let n = self.objects.len();
        let mut i: usize = 0;
        while i < n
            invariant
                i <= n,
                n == self@.len(),
                i == 0 ==> out@ == seq!['['],
                i > 0 ==> out@ == seq!['['] + json_of_object(self@[0]) + json_tail(
                    self@.subrange(1, i as int),
                ),
            decreases n - i,
        {
            if i > 0 {
                out.push(',');
                push_object_json(&mut out, &self.objects[i]);
                proof {
                    assert(self@.subrange(1, i + 1 as int) =~= self@.subrange(1, i as int).push(
                        self@[i as int],
                    ));
                    lemma_json_tail_snoc(self@.subrange(1, i as int), self@[i as int]);
                    assert(out@ =~= seq!['['] + json_of_object(self@[0]) + json_tail(
                        self@.subrange(1, i + 1 as int),
                    ));
                }
            } else {
                push_object_json(&mut out, &self.objects[i]);
                proof {
                    assert(self@.subrange(1, 1) =~= Seq::<SwaybarObject>::empty());
                    assert(out@ =~= seq!['['] + json_of_object(self@[0]) + json_tail(
                        self@.subrange(1, 1),
                    ));
                }
            }
            i += 1;
        }
        out.push(']');
        out.push(',');
        proof {
            if n == 0 {
                assert(out@ =~= json_of_array(self@) + seq![',']);
            } else {
                assert(self@.subrange(1, n as int) =~= self@.drop_first());
                assert(out@ =~= json_of_array(self@) + seq![',']);
            }
        }
        chars_to_string(&out)
    }
}

/// The single-line law for one block: its JSON object holds no raw newline,
/// whatever its texts hold, because every string is escaped.
pub proof fn lemma_object_line_safe(o: SwaybarObject)
    ensures
        line_safe(json_of_object(o)),
{
    lemma_json_string_line_safe("full_text"@);
    lemma_json_string_line_safe(o.full_text@);
    lemma_field_sep_str_line_safe("short_text"@, o.short_text);
    lemma_field_sep_str_line_safe("color"@, o.color);
    lemma_field_sep_str_line_safe("background"@, o.background);
    lemma_field_sep_str_line_safe("border"@, o.border);
    lemma_field_sep_u16_line_safe("border_top"@, o.border_top);
    lemma_field_sep_u16_line_safe("border_bottom"@, o.border_bottom);
    lemma_field_sep_u16_line_safe("border_left"@, o.border_left);
    lemma_field_sep_u16_line_safe("border_right"@, o.border_right);
    lemma_field_sep_str_line_safe("min_width"@, o.min_width);
    lemma_field_sep_str_line_safe("align"@, o.align);
    lemma_field_sep_str_line_safe("name"@, o.name);
    lemma_field_sep_str_line_safe("instance"@, o.instance);
    lemma_field_sep_bool_line_safe("urgent"@, o.urgent);
    lemma_field_sep_bool_line_safe("separator"@, o.separator);
    lemma_field_sep_u16_line_safe("separator_block_width"@, o.separator_block_width);
    lemma_field_sep_str_line_safe("markup"@, o.markup);
    let a1 = seq!['{'] + json_string("full_text"@);
    lemma_line_safe_concat(seq!['{'], json_string("full_text"@));
    let a2 = a1 + seq![':'];
    lemma_line_safe_concat(a1, seq![':']);
    let a3 = a2 + json_string(o.full_text@);
    lemma_line_safe_concat(a2, json_string(o.full_text@));
    let a4 = a3 + field_sep_str("short_text"@, o.short_text);
    lemma_line_safe_concat(a3, field_sep_str("short_text"@, o.short_text));
    let a5 = a4 + field_sep_str("color"@, o.color);
    lemma_line_safe_concat(a4, field_sep_str("color"@, o.color));
    let a6 = a5 + field_sep_str("background"@, o.background);
    lemma_line_safe_concat(a5, field_sep_str("background"@, o.background));
    let a7 = a6 + field_sep_str("border"@, o.border);
    lemma_line_safe_concat(a6, field_sep_str("border"@, o.border));
    let a8 = a7 + field_sep_u16("border_top"@, o.border_top);
    lemma_line_safe_concat(a7, field_sep_u16("border_top"@, o.border_top));
    let a9 = a8 + field_sep_u16("border_bottom"@, o.border_bottom);
    lemma_line_safe_concat(a8, field_sep_u16("border_bottom"@, o.border_bottom));
    let a10 = a9 + field_sep_u16("border_left"@, o.border_left);
    lemma_line_safe_concat(a9, field_sep_u16("border_left"@, o.border_left));
    let a11 = a10 + field_sep_u16("border_right"@, o.border_right);
    lemma_line_safe_concat(a10, field_sep_u16("border_right"@, o.border_right));
    let a12 = a11 + field_sep_str("min_width"@, o.min_width);
    lemma_line_safe_concat(a11, field_sep_str("min_width"@, o.min_width));
    let a13 = a12 + field_sep_str("align"@, o.align);
    lemma_line_safe_concat(a12, field_sep_str("align"@, o.align));
    let a14 = a13 + field_sep_str("name"@, o.name);
    lemma_line_safe_concat(a13, field_sep_str("name"@, o.name));
    let a15 = a14 + field_sep_str("instance"@, o.instance);
    lemma_line_safe_concat(a14, field_sep_str("instance"@, o.instance));
    let a16 = a15 + field_sep_bool("urgent"@, o.urgent);
    lemma_line_safe_concat(a15, field_sep_bool("urgent"@, o.urgent));
    let a17 = a16 + field_sep_bool("separator"@, o.separator);
    lemma_line_safe_concat(a16, field_sep_bool("separator"@, o.separator));
    let a18 = a17 + field_sep_u16("separator_block_width"@, o.separator_block_width);
    lemma_line_safe_concat(a17, field_sep_u16("separator_block_width"@, o.separator_block_width));
    let a19 = a18 + field_sep_str("markup"@, o.markup);
    lemma_line_safe_concat(a18, field_sep_str("markup"@, o.markup));
    lemma_line_safe_concat(a19, seq!['}']);
    assert(json_of_object(o) =~= a19 + seq!['}']);
}

proof fn lemma_json_tail_line_safe(s: Seq<SwaybarObject>)
    ensures
        line_safe(json_tail(s)),
    decreases s.len(),
{
    if s.len() == 0 {
    } else {
        lemma_object_line_safe(s[0]);
        lemma_json_tail_line_safe(s.drop_first());
        lemma_line_safe_concat(seq![','], json_of_object(s[0]));
        lemma_line_safe_concat(seq![','] + json_of_object(s[0]), json_tail(s.drop_first()));
        assert(json_tail(s) =~= (seq![','] + json_of_object(s[0])) + json_tail(s.drop_first()));
    }
}

/// The single-line law for one tick's output: the whole rendered array (and
/// so the line `to_json_line` returns, its trailing comma included) holds no
/// raw newline, so each tick stays one line of the stream.
pub proof fn lemma_array_line_safe(s: Seq<SwaybarObject>)
    ensures
        line_safe(json_of_array(s)),
        line_safe(json_of_array(s) + seq![',']),
{
    let body = if s.len() == 0 {
        Seq::<char>::empty()
    } else {
        json_of_object(s[0]) + json_tail(s.drop_first())
    };
    if s.len() > 0 {
        lemma_object_line_safe(s[0]);
        lemma_json_tail_line_safe(s.drop_first());
        lemma_line_safe_concat(json_of_object(s[0]), json_tail(s.drop_first()));
    }
    lemma_line_safe_concat(seq!['['], body);
    lemma_line_safe_concat(seq!['['] + body, seq![']']);
    assert(json_of_array(s) =~= (seq!['['] + body) + seq![']']);
    lemma_line_safe_concat(json_of_array(s), seq![',']);
}

/// The registry law for insertion: pushing a block does not disturb lookups
/// of other names; a name present before is found at the same position as
/// before, and a fresh name carried by the pushed block is found exactly at
/// the end. Looking up a name that no block carries finds nothing (per
/// `has_block` and the lookup contracts).
pub proof fn lemma_push_find(s: Seq<SwaybarObject>, b: SwaybarObject, name: Seq<char>)
    ensures
        has_block(s.push(b), name) == (has_block(s, name) || has_name(b, name)),
        has_block(s, name) ==> first_idx(s.push(b), name) == first_idx(s, name),
        !has_block(s, name) && has_name(b, name) ==> first_idx(s.push(b), name) == s.len(),
{
    let t = s.push(b);
    assert(t[s.len() as int] == b);
    assert(forall|j: int| 0 <= j < s.len() ==> t[j] == s[j]);
    if has_block(s, name) {
        lemma_first_idx(s, name);
        let f = first_idx(s, name);
        lemma_first_idx_is(t, name, f);
    } else {
        assert(forall|j: int| 0 <= j < s.len() ==> !has_name(t[j], name));
        if has_name(b, name) {
            lemma_first_idx_is(t, name, s.len() as int);
        } else {
            if has_block(t, name) {
                let k = choose|k: int| 0 <= k < t.len() && has_name(t[k], name);
                assert(!has_name(t[k], name));
            }
        }
    }
    if has_block(t, name) && !has_name(b, name) {
        let k = choose|k: int| 0 <= k < t.len() && has_name(t[k], name);
        assert(k < s.len() && s[k] == t[k]);
    }
}

/// The registry law for in-place updates: replacing a block with one of the
/// same name leaves every lookup undisturbed — the same names are found, at
/// the same positions.
pub proof fn lemma_first_idx_update(
    s: Seq<SwaybarObject>,
    i: int,
    o: SwaybarObject,
    name: Seq<char>,
)
    requires
        0 <= i < s.len(),
        o.name == s[i].name,
    ensures
        has_block(s.update(i, o), name) == has_block(s, name),
        has_block(s, name) ==> first_idx(s.update(i, o), name) == first_idx(s, name),
{
    let t = s.update(i, o);
    assert(forall|j: int| 0 <= j < s.len() ==> has_name(t[j], name) == has_name(s[j], name));
    if has_block(s, name) {
        let k = choose|k: int| 0 <= k < s.len() && has_name(s[k], name);
        assert(has_name(t[k], name));
        lemma_first_idx(s, name);
        lemma_first_idx_is(t, name, first_idx(s, name));
    } else if has_block(t, name) {
        let k = choose|k: int| 0 <= k < t.len() && has_name(t[k], name);
        assert(!has_name(s[k], name));
    }
}

/// The header law: a fresh header renders as exactly `{"version":1}`.
pub proof fn lemma_header_line(h: SwaybarHeader)
    requires
        h.version == 1,
        h.click_events is None,
        h.cont_signal is None,
        h.stop_signal is None,
    ensures
        json_of_header(h) == "{\"version\":1}"@,
{
    reveal_strlit("version");
    reveal_strlit("{\"version\":1}");
    assert(json_escape("version"@) =~= "version"@) by {
        reveal_with_fuel(json_escape, 9);
    }
    assert(json_of_header(h) =~= "{\"version\":1}"@);
}

/// The literal second line of the wire protocol, opening the endless array.
pub fn protocol_open_line() -> (r: String)
    ensures
        r@ == "["@,
{
    let mut out: Vec<char> = Vec::new();
    push_str_chars(&mut out, "[");
    chars_to_string(&out)
}

} // verus!
