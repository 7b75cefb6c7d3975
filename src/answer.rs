use vstd::prelude::*;

verus! {

/// Whether `c` has the Unicode `White_Space` property, as `char::is_whitespace`
/// decides it.
pub open spec fn is_white_space(c: char) -> bool {
    let u = c as u32;
    (0x09 <= u <= 0x0d) || u == 0x20 || u == 0x85 || u == 0xa0 || u == 0x1680 || (0x2000 <= u
        <= 0x200a) || u == 0x2028 || u == 0x2029 || u == 0x202f || u == 0x205f || u == 0x3000
}

/// The text with its leading whitespace removed.
pub open spec fn trim_start_of(s: Seq<char>) -> Seq<char>
    decreases s.len(),
{
    if s.len() > 0 && is_white_space(s[0]) {
        trim_start_of(s.drop_first())
    } else {
        s
    }
}

/// The text with its trailing whitespace removed.
pub open spec fn trim_end_of(s: Seq<char>) -> Seq<char>
    decreases s.len(),
{
    if s.len() > 0 && is_white_space(s.last()) {
        trim_end_of(s.drop_last())
    } else {
        s
    }
}

/// The text with leading and trailing whitespace removed.
pub open spec fn trim_of(s: Seq<char>) -> Seq<char> {
    trim_end_of(trim_start_of(s))
}

/// The text in lower case, as `str::to_lowercase` does.
pub uninterp spec fn lower_of(s: Seq<char>) -> Seq<char>;

/// Relies on `str::trim`, which removes leading and trailing characters for
/// which `char::is_whitespace` holds.
#[verifier::external_body]
fn trim_text(s: &str) -> (r: &str)
    ensures
        r@ == trim_of(s@),
{
    s.trim()
}

/// Relies on `str::to_lowercase`: the result depends on the characters alone.
#[verifier::external_body]
fn lowercase_text(s: &str) -> (r: String)
    ensures
        r@ == lower_of(s@),
{
    s.to_lowercase()
}

/// Whether an already trimmed and lower-cased answer is exactly `y`.
pub fn is_yes(normalized: &str) -> (r: bool)
    ensures
        r == (normalized@ == seq!['y']),
{
    let expected = "y".to_owned();
    let given = normalized.to_owned();
    proof {
        reveal_strlit("y");
        assert(expected@ =~= seq!['y']);
    }
    given == expected
}

/// Whether a line typed in answer to a yes/no question accepts: after trimming
/// and lower-casing it must read `y`; anything else declines.
pub fn answer_accepts(input: &str) -> (r: bool)
    ensures
        r == (lower_of(trim_of(input@)) == seq!['y']),
{
    let trimmed = trim_text(input);
    let lowered = lowercase_text(trimmed);
    is_yes(lowered.as_str())
}

} // verus!
