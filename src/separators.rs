use vstd::prelude::*;

verus! {

/// The pieces of `text` that lie between the matches of the regular
/// expression `pattern`, in order (empty pieces included); `None` where
/// `pattern` is not a valid regular expression or compiles past the default
/// size limit.
pub uninterp spec fn regex_split(pattern: Seq<char>, text: Seq<char>) -> Option<Seq<Seq<char>>>;

/// Relies on `regex::Regex::new`, which compiles `pattern` or returns an
/// error (invalid syntax, or over the default size limit), and on `regex::Regex::split`, which yields the parts of `text` that
/// no match covers. Both depend on their arguments alone.
#[verifier::external_body]
pub(crate) fn split_by_pattern(pattern: &str, text: &str) -> (r: Option<Vec<String>>)
    ensures
        r matches Some(v) ==> regex_split(pattern@, text@) == Some(
            v@.map_values(|t: String| t@),
        ),
        r is None ==> regex_split(pattern@, text@) is None,
{
    match regex::Regex::new(pattern) {
        Ok(re) => Some(re.split(text).map(String::from).collect()),
        Err(_) => None,
    }
}

} // verus!
