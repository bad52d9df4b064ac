//! Engine names, compared up to version suffixes.

use crate::fingerprint::{fingerprint, fingerprint_of};
use crate::text::{
    ascii_lower, ascii_lowercase, contains_text, is_substring, same_text, trim, trim_whitespace,
};
use vstd::prelude::*;
use vstd::std_specs::cmp::PartialEqSpec;

verus! {

/// A trailing version such as ` 2`, ` v1.2` or ` 2.0.1`.
pub const VERSION_SUFFIX: &'static str = r" v?(\d+)(\.\d+)?(\.\d+)?$";

/// A date-coded build tag such as ` 2025a`, wherever it stands.
pub const DATE_TAG: &'static str = r" \d{4}[a-zA-Z]";

/// What `regex::Regex::replace_all` leaves of `text` when every match of
/// `pattern` is replaced by the empty string.
pub uninterp spec fn regex_removed(pattern: Seq<char>, text: Seq<char>) -> Seq<char>;

/// Relies on `regex::Regex::new`, which compiles both patterns of this module,
/// and on `regex::Regex::replace_all` with an empty replacement: every
/// non-overlapping match of the pattern is taken out of the text.
#[verifier::external_body]
fn remove_matches(pattern: &str, text: &str) -> (r: String)
    requires
        pattern@ == VERSION_SUFFIX@ || pattern@ == DATE_TAG@,
    ensures
        r@ == regex_removed(pattern@, text@),
{
    regex::Regex::new(pattern).unwrap().replace_all(text, "").into_owned()
}

/// The normalized form of an engine's display name: lower-cased, without a
/// trailing version and without a date-coded build tag.
pub open spec fn normalized(raw: Seq<char>) -> Seq<char> {
    trim(regex_removed(DATE_TAG@, trim(regex_removed(VERSION_SUFFIX@, ascii_lower(raw)))))
}

/// The fingerprint of an engine name, taken over its normalized form.
pub open spec fn name_hash(raw: Seq<char>) -> u64 {
    fingerprint(seq![normalized(raw)])
}

/// An engine's display name, as the feed publishes it.
#[derive(Debug, Clone)]
pub struct EngineName(String);

impl View for EngineName {
    type V = Seq<char>;

    closed spec fn view(&self) -> Seq<char> {
        self.0@
    }
}

impl EngineName {
    /// Keeps `name` verbatim.
    pub fn new(name: &str) -> (r: EngineName)
        ensures
            r@ == name@,
    {
        EngineName(name.to_owned())
    }

    /// The display name as it was given.
    pub fn raw(&self) -> (r: &str)
        ensures
            r@ == self@,
    {
        self.0.as_str()
    }

    /// The normalized form of `name`.
    pub fn normalize(name: &str) -> (r: String)
        ensures
            r@ == normalized(name@),
    {
        let lower = ascii_lowercase(name);
        let without_version = remove_matches(VERSION_SUFFIX, lower.as_str());
        let trimmed = trim_whitespace(without_version.as_str());
        let without_tag = remove_matches(DATE_TAG, trimmed.as_str());
        trim_whitespace(without_tag.as_str())
    }

    /// Whether the normalized form of `name` occurs in this one's.
    pub fn matches(&self, name: &str) -> (r: bool)
        ensures
            r == is_substring(normalized(name@), normalized(self@)),
    {
        let own = Self::normalize(self.0.as_str());
        let other = Self::normalize(name);
        contains_text(own.as_str(), other.as_str())
    }

    /// The fingerprint of the normalized form.
    pub fn identity_hash(&self) -> (r: u64)
        ensures
            r == name_hash(self@),
    {
        let mut parts: Vec<String> = Vec::new();
        parts.push(Self::normalize(self.0.as_str()));
        proof {
            assert(crate::fingerprint::views(parts@) =~= seq![normalized(self@)]);
        }
        fingerprint_of(&parts)
    }
}

impl PartialEq for EngineName {
    fn eq(&self, other: &EngineName) -> (r: bool) {
        let a = Self::normalize(self.0.as_str());
        let b = Self::normalize(other.0.as_str());
        same_text(a.as_str(), b.as_str())
    }
}

impl vstd::std_specs::cmp::PartialEqSpecImpl for EngineName {
    open spec fn obeys_eq_spec() -> bool {
        true
    }

    open spec fn eq_spec(&self, other: &EngineName) -> bool {
        normalized(self@) == normalized(other@)
    }
}

impl Eq for EngineName {

}

/// Two engine names are equal exactly when their normalized forms are, and
/// equal names have equal fingerprints.
pub proof fn lemma_equal_names_hash_alike(a: EngineName, b: EngineName)
    ensures
        a.eq_spec(&b) <==> normalized(a@) == normalized(b@),
        a.eq_spec(&b) ==> name_hash(a@) == name_hash(b@),
{
}

} // verus!
