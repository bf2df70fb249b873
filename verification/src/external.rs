//! Matching an external command's output against a user-supplied regular
//! expression. The regex engine is called through trusted wrappers; since a
//! match is a function of the pattern and the text alone, its capture list
//! carries a name (`captures_of`) that the contracts build on, and the
//! decision logic — which capture becomes the display text, which the color,
//! and when the pattern is rejected — is verified over that list.

use vstd::prelude::*;

use crate::swaybar_object::opt_str_view;
use crate::text::spec_trim;

verus! {

#[verifier::external_type_specification]
#[verifier::external_body]
pub struct ExRegex(regex::Regex);

/// What the regex engine returns for a pattern and a text: `None` when the
/// pattern does not match, otherwise the capture list — one entry per capture
/// group of the pattern, group 0 the whole match, `None` for a group that did
/// not participate. The engine is deterministic, so the list is a function of
/// the pattern and the text alone; it carries a name rather than a
/// definition.
pub uninterp spec fn captures_of(pattern: Seq<char>, text: Seq<char>) -> Option<
    Seq<Option<Seq<char>>>,
>;

/// A compiled regular expression, kept together with the pattern text it was
/// compiled from; its view is that pattern.
pub struct CompiledRegex {
    pattern: String,
    regex: regex::Regex,
}

impl View for CompiledRegex {
    type V = Seq<char>;

    closed spec fn view(&self) -> Seq<char> {
        self.pattern@
    }
}

/// Relies on `regex::Regex::new`: compiles the pattern, `None` when the
/// pattern is rejected. Nothing is assumed about which patterns compile.
#[verifier::external_body]
fn new_regex(pattern: &str) -> Option<regex::Regex> {
    regex::Regex::new(pattern).ok()
}

/// Compiles `pattern`, keeping the pattern text beside the engine's value;
/// `None` when the engine rejects the pattern.
pub fn compile_regex(pattern: &str) -> (r: Option<CompiledRegex>)
    ensures
        r matches Some(cr) ==> cr@ == pattern@,
{
    match new_regex(pattern) {
        Some(regex) => Some(CompiledRegex { pattern: pattern.to_owned(), regex }),
        None => None,
    }
}

/// The views of a capture list.
pub open spec fn group_views(groups: Seq<Option<String>>) -> Seq<Option<Seq<char>>> {
    groups.map_values(|g: Option<String>| opt_str_view(g))
}

/// Relies on `regex::Regex::captures`, `regex::Captures::{get, len}` and
/// `regex::Match::as_str`: the returned capture list is exactly
/// `captures_of` for the stored pattern and the text; on a match it has one
/// entry per capture group of the pattern, and group 0 (the whole match) is
/// always present.
#[verifier::external_body]
pub(crate) fn regex_captures(re: &CompiledRegex, text: &str) -> (r: Option<Vec<Option<String>>>)
    ensures
        match r {
            Some(groups) => captures_of(re@, text@) == Some(group_views(groups@)) && groups@.len()
                >= 1 && groups@[0] is Some,
            None => captures_of(re@, text@) is None,
        },
{
    let caps = re.regex.captures(text)?;
    let mut groups: Vec<Option<String>> = Vec::new();
    for i in 0..caps.len() {
        groups.push(caps.get(i).map(|m| m.as_str().to_owned()));
    }
    Some(groups)
}

/// Why a command's output yielded no metric: the expression did not match,
/// an expected capture is missing, or the expression has too many groups.
#[derive(Clone, Copy, Debug, PartialEq, Eq, Structural)]
pub enum ExternalError {
    NoMatch,
    NoFullCapture,
    NoGroupCapture,
    TooManyCaptures,
}

impl ExternalError {
    /// A fixed diagnostic text for the error.
    pub fn message(&self) -> (r: String)
        ensures
            match self {
                ExternalError::NoMatch => r@ == "Regex returned empty matches"@,
                ExternalError::NoFullCapture => r@ == "Failed to get regex 0"@,
                ExternalError::NoGroupCapture => r@ == "Failed to get regex 1"@,
                ExternalError::TooManyCaptures => r@
                    == "Too many captures in regex, up to 2 is allowed"@,
            },
    {
        match self {
            ExternalError::NoMatch => "Regex returned empty matches".to_owned(),
            ExternalError::NoFullCapture => "Failed to get regex 0".to_owned(),
            ExternalError::NoGroupCapture => "Failed to get regex 1".to_owned(),
            ExternalError::TooManyCaptures => "Too many captures in regex, up to 2 is allowed"
                .to_owned(),
        }
    }
}

/// The display text and optional color extracted from a command's output.
#[derive(Debug)]
pub struct ExternalRegexResult {
    pub matched: String,
    pub color: Option<String>,
}

/// What a capture list yields: with no explicit groups the whole match is
/// the text; with one or two groups the first is the text and the second, if
/// present, the color; three or more explicit groups are rejected, as is a
/// text group that did not participate in the match.
pub open spec fn spec_extract(groups: Seq<Option<Seq<char>>>) -> Result<
    (Seq<char>, Option<Seq<char>>),
    ExternalError,
> {
    if groups.len() == 0 {
        Err(ExternalError::NoFullCapture)
    } else if groups.len() == 1 {
        match groups[0] {
            Some(s) => Ok((s, None)),
            None => Err(ExternalError::NoFullCapture),
        }
    } else {
        match groups[1] {
            None => Err(ExternalError::NoGroupCapture),
            Some(s) => if groups.len() >= 4 {
                Err(ExternalError::TooManyCaptures)
            } else if groups.len() == 3 {
                Ok((s, groups[2]))
            } else {
                Ok((s, None))
            },
        }
    }
}

/// Turns a capture list into the display text and color, exactly as
/// `spec_extract` describes.
pub fn extract_from_captures(groups: &Vec<Option<String>>) -> (r: Result<
    ExternalRegexResult,
    ExternalError,
>)
    ensures
        match r {
            Ok(res) => spec_extract(group_views(groups@)) == Ok::<
                (Seq<char>, Option<Seq<char>>),
                ExternalError,
            >((res.matched@, opt_str_view(res.color))),
            Err(e) => spec_extract(group_views(groups@)) == Err::<
                (Seq<char>, Option<Seq<char>>),
                ExternalError,
            >(e),
        },
{
    proof {
        assert(group_views(groups@).len() == groups@.len());
        assert(forall|i: int|
            0 <= i < groups@.len() ==> #[trigger] group_views(groups@)[i] == opt_str_view(
                groups@[i],
            ));
    }
    if groups.len() == 0 {
        return Err(ExternalError::NoFullCapture);
    }
    if groups.len() == 1 {
        match &groups[0] {
            Some(s) => Ok(ExternalRegexResult { matched: s.clone(), color: None }),
            None => Err(ExternalError::NoFullCapture),
        }
    } else {
        match &groups[1] {
            None => Err(ExternalError::NoGroupCapture),
            Some(s) => {
                if groups.len() >= 4 {
                    return Err(ExternalError::TooManyCaptures);
                }
                let matched = s.clone();
                let color: Option<String> = if groups.len() == 3 {
                    match &groups[2] {
                        Some(c) => Some(c.clone()),
                        None => None,
                    }
                } else {
                    None
                };
                Ok(ExternalRegexResult { matched, color })
            },
        }
    }
}

/// Matches the trimmed command output against the expression and extracts
/// the display text and color. `NoMatch` comes back exactly when the engine
/// reports no match on the trimmed text; on a match, the result — success or
/// one of the other errors — is `spec_extract` of the engine's capture list.
pub fn get_cmd_output(re: &CompiledRegex, output: &str) -> (r: Result<
    ExternalRegexResult,
    ExternalError,
>)
    ensures
        captures_of(re@, spec_trim(output@)) is None ==> r == Err::<
            ExternalRegexResult,
            ExternalError,
        >(ExternalError::NoMatch),
        match r {
            Ok(res) => captures_of(re@, spec_trim(output@)) matches Some(g) && spec_extract(g)
                == Ok::<(Seq<char>, Option<Seq<char>>), ExternalError>(
                (res.matched@, opt_str_view(res.color)),
            ),
            Err(e) => if e == ExternalError::NoMatch {
                captures_of(re@, spec_trim(output@)) is None
            } else {
                captures_of(re@, spec_trim(output@)) matches Some(g) && spec_extract(g) == Err::<
                    (Seq<char>, Option<Seq<char>>),
                    ExternalError,
                >(e)
            },
        },
{
    let output_chars = crate::text::chars_of(output);
    let trimmed = crate::text::trim_chars(&output_chars);
    let trimmed_str = crate::text::chars_to_string(&trimmed);
    match regex_captures(re, trimmed_str.as_str()) {
        None => Err(ExternalError::NoMatch),
        Some(groups) => {
            let res = extract_from_captures(&groups);
            proof {
                if res is Err {
                    assert(res->Err_0 != ExternalError::NoMatch);
                }
            }
            res
        },
    }
}

} // verus!
