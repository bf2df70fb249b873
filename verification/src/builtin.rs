//! The battery metric: scrapes the percentage out of the battery tool's
//! output with a fixed regular expression and derives the red-to-green
//! interpolated color. Once any step fails the source is marked errored and
//! never consulted again for the rest of the run.

use vstd::prelude::*;

use crate::external::{
    captures_of, compile_regex, group_views, regex_captures, CompiledRegex,
};
use crate::swaybar_object::{opt_str_view, same_but_text_color, SwaybarObject};
use crate::text::{
    chars_of, chars_to_string, dec_val, is_digits, parse_u8, push_hex_u8, push_str_chars,
    spec_hex_u8,
};

verus! {

/// The fixed expression the battery reading is scraped with: the first digit
/// run followed by a percent sign, and the rest of that line.
pub open spec fn batt_pattern() -> Seq<char> {
    "([0-9]+)%.*"@
}

/// Why no battery reading was produced: the source is retired, the fixed
/// expression did not compile or did not match, a capture is missing, or the
/// percentage does not fit an unsigned byte.
#[derive(Clone, Copy, Debug, PartialEq, Eq, Structural)]
pub enum BattError {
    ErrorState,
    NoRegex,
    NoMatch,
    NoFullCapture,
    NoPercentCapture,
    BadPercent,
}

impl BattError {
    /// A fixed diagnostic text for the error.
    pub fn message(&self) -> (r: String)
        ensures
            match self {
                BattError::ErrorState => r@ == "battinfo: in error state"@,
                BattError::NoRegex => r@ == "battinfo: regex failed to compile"@,
                BattError::NoMatch => r@ == "battinfo: regex captured nothing"@,
                BattError::NoFullCapture => r@ == "battinfo: no full regex capture"@,
                BattError::NoPercentCapture => r@ == "battinfo: no regex capture 1"@,
                BattError::BadPercent => r@ == "battinfo: percentage out of range"@,
            },
    {
        match self {
            BattError::ErrorState => "battinfo: in error state".to_owned(),
            BattError::NoRegex => "battinfo: regex failed to compile".to_owned(),
            BattError::NoMatch => "battinfo: regex captured nothing".to_owned(),
            BattError::NoFullCapture => "battinfo: no full regex capture".to_owned(),
            BattError::NoPercentCapture => "battinfo: no regex capture 1".to_owned(),
            BattError::BadPercent => "battinfo: percentage out of range".to_owned(),
        }
    }
}

/// The red component of the battery color: full up to 50%, then falling
/// linearly to zero at 100% (and zero above).
pub open spec fn spec_batt_red(p: u8) -> u8 {
    if p <= 50 {
        255
    } else if p >= 100 {
        0
    } else {
        (255 * (100 - p as int) / 50) as u8
    }
}

/// The green component of the battery color: rising linearly from zero at 0%
/// to full at 50%, full above.
pub open spec fn spec_batt_green(p: u8) -> u8 {
    if p > 50 {
        255
    } else {
        (255 * p as int / 50) as u8
    }
}

/// The battery color string: `#`, the red and green components as unpadded
/// lowercase hexadecimal, then `00ff` (no blue, full opacity).
pub open spec fn spec_batt_color_chars(p: u8) -> Seq<char> {
    seq!['#'] + spec_hex_u8(spec_batt_red(p) as int) + spec_hex_u8(spec_batt_green(p) as int)
        + "00ff"@
}

/// Computes the red and green components for a battery percentage.
pub fn batt_color_components(p: u8) -> (r: (u8, u8))
    ensures
        r.0 == spec_batt_red(p),
        r.1 == spec_batt_green(p),
{
    let red: u8 = if p <= 50 {
        255
    } else if p >= 100 {
        0
    } else {
        let v: u32 = 255 * (100 - p as u32) / 50;
        v as u8
    };
    let green: u8 = if p > 50 {
        255
    } else {
        let v: u32 = 255 * (p as u32) / 50;
        v as u8
    };
    (red, green)
}

/// Renders the battery color string for a percentage.
pub fn batt_color_string(p: u8) -> (r: String)
    ensures
        r@ == spec_batt_color_chars(p),
{
    let (red, green) = batt_color_components(p);
    let mut out: Vec<char> = Vec::new();
    out.push('#');
    push_hex_u8(&mut out, red);
    push_hex_u8(&mut out, green);
    push_str_chars(&mut out, "00ff");
    proof {
        assert(out@ =~= spec_batt_color_chars(p));
    }
    chars_to_string(&out)
}

/// The battery source: the percentage-scraping expression and the permanent
/// error flag.
pub struct BattInfo {
    regex: Option<CompiledRegex>,
    acpi_error: bool,
}

impl BattInfo {
    /// A stored expression always carries the fixed battery pattern.
    #[verifier::type_invariant]
    spec fn wf(self) -> bool {
        match self.regex {
            Some(cr) => cr@ == batt_pattern(),
            None => true,
        }
    }

    /// The source is retired: some earlier reading failed for good.
    pub closed spec fn spec_error(&self) -> bool {
        self.acpi_error
    }

    /// The fixed expression compiled successfully when the source was built.
    pub closed spec fn spec_has_regex(&self) -> bool {
        self.regex is Some
    }

    pub fn is_error_state(&self) -> (r: bool)
        ensures
            r == self.spec_error(),
    {
        self.acpi_error
    }

    /// What a capture list yields for the battery block: the whole match is
    /// the display text and the first group, read as a decimal byte, the
    /// percentage.
    pub open spec fn spec_batt_outcome(groups: Seq<Option<Seq<char>>>) -> Result<
        (Seq<char>, u8),
        BattError,
    > {
        if groups.len() == 0 || groups[0] is None {
            Err(BattError::NoFullCapture)
        } else if groups.len() < 2 || groups[1] is None {
            Err(BattError::NoPercentCapture)
        } else {
            let digits = groups[1]->Some_0;
            if digits.len() > 0 && is_digits(digits) && dec_val(digits) <= u8::MAX {
                Ok((groups[0]->Some_0, dec_val(digits) as u8))
            } else {
                Err(BattError::BadPercent)
            }
        }
    }

    /// Applies one capture list to the battery block: on success the block
    /// shows the whole match in the percentage's color; on failure the source
    /// is retired and the block untouched.
    pub fn apply_captures(&mut self, groups: &Vec<Option<String>>, object: &mut SwaybarObject) -> (r:
        Result<(), BattError>)
        ensures
            match Self::spec_batt_outcome(group_views(groups@)) {
                Ok((txt, p)) => r is Ok && final(object).full_text@ == txt && opt_str_view(
                    final(object).color,
                ) == Some(spec_batt_color_chars(p)) && same_but_text_color(
                    *old(object),
                    *final(object),
                ) && *final(self) == *old(self),
                Err(e) => r == Err::<(), BattError>(e) && final(self).spec_error() && *final(object)
                    == *old(object) && final(self).spec_has_regex() == old(self).spec_has_regex(),
            },
    {
        proof {
            use_type_invariant(&*self);
            assert(group_views(groups@).len() == groups@.len());
            assert(forall|i: int|
                0 <= i < groups@.len() ==> #[trigger] group_views(groups@)[i] == opt_str_view(
                    groups@[i],
                ));
        }
        if groups.len() == 0 {
            self.acpi_error = true;
            return Err(BattError::NoFullCapture);
        }
        let full: String = match &groups[0] {
            Some(s) => s.clone(),
            None => {
                self.acpi_error = true;
                return Err(BattError::NoFullCapture);
            },
        };
        if groups.len() < 2 {
            self.acpi_error = true;
            return Err(BattError::NoPercentCapture);
        }
        let digits: String = match &groups[1] {
            Some(s) => s.clone(),
            None => {
                self.acpi_error = true;
                return Err(BattError::NoPercentCapture);
            },
        };
        let digit_chars = chars_of(digits.as_str());
        match parse_u8(&digit_chars) {
            Some(p) => {
                let color = batt_color_string(p);
                object.update_as_generic(full, Some(color));
                Ok(())
            },
            None => {
                self.acpi_error = true;
                Err(BattError::BadPercent)
            },
        }
    }

    /// One battery reading from the battery tool's output text. A retired
    /// source fails at once without looking at the output; otherwise the
    /// fixed expression is matched against it: `NoMatch` comes back exactly
    /// when the engine reports no match, and on a match the block and the
    /// result follow `spec_batt_outcome` of the engine's capture list —
    /// success shows the whole match in the parsed percentage's color. Every
    /// failure retires the source.
    pub fn update(&mut self, output: &str, object: &mut SwaybarObject) -> (r: Result<
        (),
        BattError,
    >)
        ensures
            old(self).spec_error() <==> r == Err::<(), BattError>(BattError::ErrorState),
            !old(self).spec_error() ==> (r == Err::<(), BattError>(BattError::NoRegex) <==> !old(
                self,
            ).spec_has_regex()),
            !old(self).spec_error() && old(self).spec_has_regex() ==> ({
                let caps = captures_of(batt_pattern(), output@);
                &&& (r == Err::<(), BattError>(BattError::NoMatch) <==> caps is None)
                &&& (caps matches Some(g) ==> ({
                    &&& (r is Ok ==> (Self::spec_batt_outcome(g) matches Ok(tp)
                        && final(object).full_text@ == tp.0 && opt_str_view(final(object).color)
                        == Some(spec_batt_color_chars(tp.1)) && same_but_text_color(
                        *old(object),
                        *final(object),
                    )))
                    &&& (r matches Err(e) ==> Self::spec_batt_outcome(g) == Err::<
                        (Seq<char>, u8),
                        BattError,
                    >(e))
                }))
            }),
            r is Err ==> final(self).spec_error() && *final(object) == *old(object),
            r is Ok ==> *final(self) == *old(self) && !final(self).spec_error(),
    {
        proof {
            use_type_invariant(&*self);
        }
        if self.acpi_error {
            return Err(BattError::ErrorState);
        }
        let caps = match &self.regex {
            Some(re) => regex_captures(re, output),
            None => {
                self.acpi_error = true;
                return Err(BattError::NoRegex);
            },
        };
        match caps {
            None => {
                self.acpi_error = true;
                Err(BattError::NoMatch)
            },
            Some(groups) => self.apply_captures(&groups, object),
        }
    }
}

impl Default for BattInfo {
    /// A battery source with the percentage expression compiled and no error
    /// recorded.
    fn default() -> (r: Self)
        ensures
            !r.spec_error(),
    {
        BattInfo { regex: compile_regex("([0-9]+)%.*"), acpi_error: false }
    }
}

} // verus!
