//! Regular-expression steps, backed by the `regex` crate.
//!
//! What a pattern matches takes the `regex` crate's whole syntax to state, so its outcomes
//! are named: `regex_build_error` for compiling, `regex_replace_all` for replacing. A
//! [`CompiledRegex`] can only be made by [`CompiledRegex::compile`], which records the pattern
//! and flags it was built from, so every replacement is tied to those.

use vstd::prelude::*;

verus! {

#[verifier::external_type_specification]
#[verifier::external_body]
pub struct ExRegex(regex::Regex);

/// What `RegexBuilder::new(pattern)` with these flags reports from `build()`: `None` when
/// the pattern compiles, otherwise the error's `Display` text.
pub uninterp spec fn regex_build_error(
    pattern: Seq<char>,
    ignore_case: bool,
    dotall: bool,
    multiline: bool,
) -> Option<Seq<char>>;

/// What `Regex::replace_all(s, replacement)` returns for the regex built from `pattern` and
/// these flags (with `$1` / `${name}` capture substitution in `replacement`).
pub uninterp spec fn regex_replace_all(
    pattern: Seq<char>,
    ignore_case: bool,
    dotall: bool,
    multiline: bool,
    s: Seq<char>,
    replacement: Seq<char>,
) -> Seq<char>;

/// `RegexBuilder::new(pattern).case_insensitive(..).dot_matches_new_line(..)
/// .multi_line(..).build()`, with the error turned into its `Display` text. Claims that it
/// succeeds exactly when `regex_build_error` is `None`, and fails with that text otherwise.
#[verifier::external_body]
fn build_regex(pattern: &str, ignore_case: bool, dotall: bool, multiline: bool) -> (r: Result<
    regex::Regex,
    String,
>)
    ensures
        r is Ok <==> regex_build_error(pattern@, ignore_case, dotall, multiline) is None,
        r matches Err(e) ==> regex_build_error(pattern@, ignore_case, dotall, multiline) == Some(
            e@,
        ),
{
    regex::RegexBuilder::new(pattern)
        .case_insensitive(ignore_case)
        .dot_matches_new_line(dotall)
        .multi_line(multiline)
        .build()
        .map_err(|e| e.to_string())
}

/// A regex together with the pattern and flags it was compiled from.
pub struct CompiledRegex {
    re: regex::Regex,
    pattern: String,
    ignore_case: bool,
    dotall: bool,
    multiline: bool,
}

impl CompiledRegex {
    pub closed spec fn spec_pattern(&self) -> Seq<char> {
        self.pattern@
    }

    pub closed spec fn spec_ignore_case(&self) -> bool {
        self.ignore_case
    }

    pub closed spec fn spec_dotall(&self) -> bool {
        self.dotall
    }

    pub closed spec fn spec_multiline(&self) -> bool {
        self.multiline
    }

    /// Compiles `pattern` with the given flags; the error is the `regex` crate's message.
    pub fn compile(pattern: &str, ignore_case: bool, dotall: bool, multiline: bool) -> (r: Result<
        CompiledRegex,
        String,
    >)
        ensures
            r is Ok <==> regex_build_error(pattern@, ignore_case, dotall, multiline) is None,
            r matches Err(e) ==> regex_build_error(pattern@, ignore_case, dotall, multiline)
                == Some(e@),
            r matches Ok(c) ==> c.spec_pattern() == pattern@ && c.spec_ignore_case() == ignore_case
                && c.spec_dotall() == dotall && c.spec_multiline() == multiline,
    {
        match build_regex(pattern, ignore_case, dotall, multiline) {
            Ok(re) => Ok(
                CompiledRegex {
                    re,
                    pattern: pattern.to_owned(),
                    ignore_case,
                    dotall,
                    multiline,
                },
            ),
            Err(e) => Err(e),
        }
    }

    /// `Regex::replace_all(s, replacement)`, owned. Claims the result named by
    /// `regex_replace_all` for the pattern and flags this regex was compiled from (the only
    /// constructor, `compile`, records exactly those).
    #[verifier::external_body]
    pub(crate) fn replace_all(&self, s: &str, replacement: &str) -> (r: String)
        ensures
            r@ == regex_replace_all(
                self.spec_pattern(),
                self.spec_ignore_case(),
                self.spec_dotall(),
                self.spec_multiline(),
                s@,
                replacement@,
            ),
    {
        self.re.replace_all(s, replacement).into_owned()
    }
}

} // verus!
