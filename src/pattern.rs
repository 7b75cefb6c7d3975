use vstd::prelude::*;

verus! {

/// Whether `glob::Pattern::new` accepts the pattern text.
pub uninterp spec fn glob_compiles(pattern: Seq<char>) -> bool;

/// Whether the pattern compiled from `pattern` matches `candidate` under the
/// default match options.
pub uninterp spec fn glob_matches(pattern: Seq<char>, candidate: Seq<char>) -> bool;

#[verifier::external_type_specification]
#[verifier::external_body]
pub struct ExPattern(glob::Pattern);

/// Relies on `glob::Pattern::new`: it succeeds exactly on the texts it accepts,
/// a fact about the text alone.
#[verifier::external_body]
fn compile(text: &str) -> (r: Option<glob::Pattern>)
    ensures
        r.is_some() == glob_compiles(text@),
{
    glob::Pattern::new(text).ok()
}

/// A compiled glob pattern together with the text it was compiled from.
///
/// The only constructor is [`Glob::new`], so `compiled` is always the result of
/// compiling `text`.
pub struct Glob {
    text: String,
    compiled: glob::Pattern,
}

impl View for Glob {
    type V = Seq<char>;

    closed spec fn view(&self) -> Seq<char> {
        self.text@
    }
}

/// Relies on `glob::Pattern::matches`: whether the pattern matches a string is
/// a fact about the pattern's text and the string alone.
#[verifier::external_body]
fn matches_text(g: &Glob, candidate: &str) -> (r: bool)
    ensures
        r == glob_matches(g@, candidate@),
{
    g.compiled.matches(candidate)
}

/// Relies on `glob::Pattern::matches_path`, which converts a path that is valid
/// UTF-8 back to its text and then behaves as `glob::Pattern::matches`.
#[verifier::external_body]
fn matches_path_text(g: &Glob, path: &str) -> (r: bool)
    ensures
        r == glob_matches(g@, path@),
{
    g.compiled.matches_path(std::path::Path::new(path))
}

impl Glob {
    /// Compiles `text`; `None` exactly when it is not a valid glob.
    pub fn new(text: &str) -> (r: Option<Glob>)
        ensures
            r.is_some() == glob_compiles(text@),
            r matches Some(g) ==> g@ == text@,
    {
        match compile(text) {
            Some(compiled) => Some(Glob { text: text.to_owned(), compiled }),
            None => None,
        }
    }

    /// The text the pattern was compiled from.
    pub fn as_str(&self) -> (r: &str)
        ensures
            r@ == self@,
    {
        self.text.as_str()
    }

    /// Whether the pattern matches a bare name.
    pub fn matches(&self, name: &str) -> (r: bool)
        ensures
            r == glob_matches(self@, name@),
    {
        matches_text(self, name)
    }

    /// Whether the pattern matches a full path written as text.
    pub fn matches_path(&self, path: &str) -> (r: bool)
        ensures
            r == glob_matches(self@, path@),
    {
        matches_path_text(self, path)
    }
}

/// The texts of `globs`, in order.
pub open spec fn texts(globs: Seq<Glob>) -> Seq<Seq<char>> {
    globs.map_values(|g: Glob| g@)
}

/// The texts among `raw` that compile, in their original order.
pub open spec fn valid_texts(raw: Seq<Seq<char>>) -> Seq<Seq<char>> {
    raw.filter(|t: Seq<char>| glob_compiles(t))
}

/// Compiles each text, silently dropping those that are not valid globs.
pub fn compile_all(raw: &Vec<String>) -> (r: Vec<Glob>)
    ensures
        texts(r@) == valid_texts(raw@.map_values(|s: String| s@)),
{
    let ghost src = raw@.map_values(|s: String| s@);
    let mut out: Vec<Glob> = Vec::new();
    let mut i: usize = 0;
    while i < raw.len()
        invariant
            i <= raw.len(),
            src == raw@.map_values(|s: String| s@),
            texts(out@) == valid_texts(src.subrange(0, i as int)),
        decreases raw.len() - i,
    {
        let ghost before = out@;
        proof {
            assert(src.subrange(0, i + 1) == src.subrange(0, i as int).push(src[i as int]));
            src.subrange(0, i as int).lemma_filter_push(src[i as int], |t: Seq<char>| glob_compiles(t));
        }
        match Glob::new(raw[i].as_str()) {
            Some(g) => {
                out.push(g);
                assert(texts(out@) == texts(before).push(src[i as int]));
            },
            None => {},
        }
        i = i + 1;
    }
    assert(src.subrange(0, raw.len() as int) == src);
    out
}

} // verus!
