//! The tokenizer: a pattern matcher that cuts an expression into tokens.

use regex::Regex;
use vstd::prelude::*;

verus! {

/// `regex::Regex`, a compiled pattern. Nothing inside it is visible here; it
/// is only handed on to the calls below.
#[verifier::external_type_specification]
#[verifier::external_body]
pub struct ExRegex(Regex);

/// The grammar of tokens, as one pattern of ordered alternatives: a dice
/// term; an operator symbol; a versus clause, whose first group is the tag
/// and whose second is the target; a repeat clause; a number. Letters match
/// in either case, and blanks, which are white space of any script, may
/// stand between the parts of a dice term or of a repeat clause. In a versus clause the keyword is followed by blanks,
/// then by a tag if there is one, which a dash may part from the target; or
/// by a dash and the target at once.
pub const GRAMMAR: &'static str =
    r"[0-9]*\s*[dD]\s*[0-9]*(?:\s*[bBwW]\s*[0-9]+)?|[-+×xX*/\\÷%^]|[vV](?:[sS]|[eE][rR][sS][uU][sS])?(?:\s+(?:([^0-9]+?.*?)-?)??\s*|-)(-?[0-9]+)|[rR](?:[eE]|[eE][pP][eE][aA][tT])?\s*[0-9]+|-?[0-9]+";

/// The pattern text that a matcher was built from by `Regex::new`, with the
/// flags that `Regex::new` gives it and no others.
pub uninterp spec fn pattern_of(re: Regex) -> Seq<char>;

/// The texts of the successive non-overlapping matches of a pattern in a
/// haystack, leftmost first.
pub uninterp spec fn matched_texts(pattern: Seq<char>, haystack: Seq<char>) -> Seq<Seq<char>>;

/// The text of one capture group in the first match of a pattern in a
/// haystack; none where there is no match, no such group, or the group took
/// no part in the match.
pub uninterp spec fn captured_text(pattern: Seq<char>, haystack: Seq<char>, group: int) -> Option<
    Seq<char>,
>;

/// Whether `Regex::new` accepts a pattern: whether it is well formed and
/// the matcher built from it stays within the default size limit.
pub uninterp spec fn compiles(pattern: Seq<char>) -> bool;

/// Calls `Regex::new`, which decides by the pattern alone. A matcher comes
/// back exactly for a pattern that compiles, and was built from `pattern`.
#[verifier::external_body]
fn compile(pattern: &str) -> (r: Option<Regex>)
    ensures
        r.is_some() == compiles(pattern@),
        r matches Some(re) ==> pattern_of(re) == pattern@,
{
    Regex::new(pattern).ok()
}

/// Calls `Regex::find_iter` and copies out the text of every match, in order.
#[verifier::external_body]
fn find_all(re: &Regex, haystack: &str) -> (r: Vec<String>)
    ensures
        r@.len() == matched_texts(pattern_of(*re), haystack@).len(),
        forall|i: int|
            0 <= i < r@.len() ==> (#[trigger] r@[i])@ == matched_texts(
                pattern_of(*re),
                haystack@,
            )[i],
{
    re.find_iter(haystack).map(|m| m.as_str().to_string()).collect()
}

/// Calls `Regex::captures` and `Captures::get`, and copies out the text of
/// the group.
#[verifier::external_body]
fn capture(re: &Regex, haystack: &str, group: usize) -> (r: Option<String>)
    ensures
        match r {
            Some(s) => captured_text(pattern_of(*re), haystack@, group as int) == Some(s@),
            None => captured_text(pattern_of(*re), haystack@, group as int).is_none(),
        },
{
    re.captures(haystack).and_then(|c| c.get(group)).map(|m| m.as_str().to_string())
}

/// The tokens of an expression: the texts that `GRAMMAR` matches in it, in
/// order. What lies between them is skipped.
pub open spec fn tokens_of(text: Seq<char>) -> Seq<Seq<char>> {
    matched_texts(GRAMMAR@, text)
}

/// The tag that `GRAMMAR` captures in a versus clause.
pub open spec fn tag_in(token: Seq<char>) -> Option<Seq<char>> {
    captured_text(GRAMMAR@, token, 1)
}

/// The target that `GRAMMAR` captures in a versus clause.
pub open spec fn target_in(token: Seq<char>) -> Option<Seq<char>> {
    captured_text(GRAMMAR@, token, 2)
}

/// The compiled grammar. It is built once and only read afterwards, so one
/// tokenizer serves any number of expressions.
pub struct Tokenizer {
    matcher: Regex,
}

impl Tokenizer {
    /// The pattern that this tokenizer matches with.
    pub closed spec fn pattern(self) -> Seq<char> {
        pattern_of(self.matcher)
    }

    #[verifier::type_invariant]
    spec fn holds_grammar(self) -> bool {
        pattern_of(self.matcher) == GRAMMAR@
    }

    /// Compiles the grammar. A tokenizer comes back exactly where `GRAMMAR`
    /// compiles, and matches with `GRAMMAR`.
    pub fn new() -> (r: Option<Tokenizer>)
        ensures
            r.is_some() == compiles(GRAMMAR@),
            r matches Some(tokenizer) ==> tokenizer.pattern() == GRAMMAR@,
    {
        match compile(GRAMMAR) {
            Some(matcher) => Some(Tokenizer { matcher }),
            None => None,
        }
    }

    /// Cuts an expression into its tokens.
    pub fn tokens(&self, text: &str) -> (r: Vec<String>)
        ensures
            r@.len() == tokens_of(text@).len(),
            forall|i: int| 0 <= i < r@.len() ==> (#[trigger] r@[i])@ == tokens_of(text@)[i],
    {
        proof {
            use_type_invariant(self);
        }
        find_all(&self.matcher, text)
    }

    /// The tag of a versus clause, as captured.
    pub fn tag(&self, token: &str) -> (r: Option<String>)
        ensures
            match r {
                Some(s) => tag_in(token@) == Some(s@),
                None => tag_in(token@).is_none(),
            },
    {
        proof {
            use_type_invariant(self);
        }
        capture(&self.matcher, token, 1)
    }

    /// The target of a versus clause, as captured.
    pub fn target(&self, token: &str) -> (r: Option<String>)
        ensures
            match r {
                Some(s) => target_in(token@) == Some(s@),
                None => target_in(token@).is_none(),
            },
    {
        proof {
            use_type_invariant(self);
        }
        capture(&self.matcher, token, 2)
    }
}

} // verus!
