//! Deciding whether the value of an action matches a line of device output.

use vstd::prelude::*;
use vstd::string::StringExecFns;

verus! {

/// The error of `regex::Regex::new`.
#[verifier::external_type_specification]
#[verifier::external_body]
pub struct ExRegexError(regex::Error);

/// Whether `regex::Regex::new` accepts `pattern`.
pub uninterp spec fn regex_compiles(pattern: Seq<char>) -> bool;

/// The answer of `regex::Regex::is_match` for `haystack`, asked of the
/// expression that `regex::Regex::new` compiles from `pattern`.
pub uninterp spec fn regex_is_match(pattern: Seq<char>, haystack: Seq<char>) -> bool;

/// Compiles `pattern` with `regex::Regex::new` and asks the compiled
/// expression, with `regex::Regex::is_match`, whether it matches anywhere in
/// `haystack`. Trusted: the error is that of the compilation, and both
/// outcomes depend on the two texts alone.
#[verifier::external_body]
fn regex_search(pattern: &str, haystack: &str) -> (found: Result<bool, regex::Error>)
    ensures
        found is Ok <==> regex_compiles(pattern@),
        found matches Ok(b) ==> b == regex_is_match(pattern@, haystack@),
{
    regex::Regex::new(pattern).map(|re| re.is_match(haystack))
}

/// `needle` stands in `hay` at offset `i`.
pub open spec fn occurs_at(hay: Seq<char>, needle: Seq<char>, i: int) -> bool {
    0 <= i && i + needle.len() <= hay.len() && hay.subrange(i, i + needle.len()) == needle
}

/// `needle` stands somewhere in `hay`.
pub open spec fn contains_text(hay: Seq<char>, needle: Seq<char>) -> bool {
    exists|i: int| occurs_at(hay, needle, i)
}

/// The characters of `s`, in order.
pub fn chars_of(s: &str) -> (v: Vec<char>)
    ensures
        v@ == s@,
{
    let mut v: Vec<char> = Vec::new();
    for c in it: s.chars()
        invariant
            it.seq() == s@,
            v@ == it.seq().take(it.index() as int),
    {
        v.push(c);
    }
    assert(v@ == s@.take(s@.len() as int));
    v
}

/// The mark that makes the rest of a value a regular expression.
pub const REGEX_MARK: char = '^';

/// `value` begins with the mark, so that what follows it is a regular
/// expression; any other value is a literal text.
pub open spec fn is_regex(value: Seq<char>) -> bool {
    value.len() > 0 && value[0] == REGEX_MARK
}

/// A value can be tested against lines: a marked one holds an expression
/// that compiles.
pub open spec fn usable(value: Seq<char>) -> bool {
    is_regex(value) ==> regex_compiles(value.skip(1))
}

/// `value` matches `line`: the expression after the mark matches somewhere
/// in the line, or the literal text stands somewhere in it.
pub open spec fn value_matches(value: Seq<char>, line: Seq<char>) -> bool {
    if is_regex(value) {
        regex_is_match(value.skip(1), line)
    } else {
        contains_text(line, value)
    }
}

fn stands_at(hay: &Vec<char>, needle: &Vec<char>, i: usize) -> (b: bool)
    requires
        i + needle.len() <= hay.len(),
    ensures
        b == occurs_at(hay@, needle@, i as int),
{
    let mut j: usize = 0;
    while j < needle.len()
        invariant
            j <= needle.len(),
            i + needle.len() <= hay.len(),
            forall|k: int| 0 <= k < j ==> hay@[i + k] == needle@[k],
        decreases needle.len() - j,
    {
        if hay[i + j] != needle[j] {
            assert(hay@.subrange(i as int, i + needle@.len())[j as int] == hay@[i + j]);
            return false;
        }
        j += 1;
    }
    assert(hay@.subrange(i as int, i + needle@.len()) =~= needle@);
    true
}

/// Whether `needle` stands somewhere in `hay`. The empty text stands in
/// every text.
pub fn find_text(hay: &Vec<char>, needle: &Vec<char>) -> (found: bool)
    ensures
        found == contains_text(hay@, needle@),
{
    if needle.len() > hay.len() {
        return false;
    }
    let last: usize = hay.len() - needle.len();
    let mut i: usize = 0;
    loop
        invariant
            i <= last,
            last == hay.len() - needle.len(),
            forall|k: int| 0 <= k < i ==> !occurs_at(hay@, needle@, k),
        decreases last - i,
    {
        if stands_at(hay, needle, i) {
            return true;
        }
        if i == last {
            return false;
        }
        i += 1;
    }
}

/// Whether `value` can be tested against lines.
pub fn is_usable(value: &str) -> (b: bool)
    ensures
        b == usable(value@),
{
    let n: usize = value.unicode_len();
    if n > 0 && value.get_char(0) == REGEX_MARK {
        let pattern = value.substring_char(1, n);
        assert(pattern@ == value@.skip(1));
        regex_search(pattern, "").is_ok()
    } else {
        true
    }
}

/// A value that cannot be tested against lines: it is marked, and the
/// expression after the mark does not compile.
#[derive(Debug, Clone, PartialEq)]
pub struct MatchError {
    pub value: String,
}

/// Tests `value` against `line`: a marked value as a regular expression,
/// which may match anywhere in the line, and any other as a text that the
/// line has to hold. A marked value whose expression does not compile is
/// an error.
pub fn test_line(value: &str, line: &str) -> (r: Result<bool, MatchError>)
    ensures
        match r {
            Ok(b) => usable(value@) && b == value_matches(value@, line@),
            Err(e) => !usable(value@) && e.value@ == value@,
        },
{
    let n: usize = value.unicode_len();
    if n > 0 && value.get_char(0) == REGEX_MARK {
        let pattern = value.substring_char(1, n);
        assert(pattern@ == value@.skip(1));
        match regex_search(pattern, line) {
            Ok(found) => Ok(found),
            Err(_) => Err(MatchError { value: String::from_str(value) }),
        }
    } else {
        let hay = chars_of(line);
        let needle = chars_of(value);
        Ok(find_text(&hay, &needle))
    }
}

} // verus!
