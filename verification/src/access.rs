//! Access rules: each user has a file of glob patterns, one per line, and
//! may see exactly the notes whose paths match one of them.

use vstd::prelude::*;
use crate::paths::{join_segments, join_with_slash, path_view};

verus! {

/// Whether `glob::Pattern::new` accepts `pattern`.
pub uninterp spec fn glob_pattern_valid(pattern: Seq<char>) -> bool;

/// Whether the compiled `pattern` matches `path` (`glob::Pattern::matches`,
/// default match options).
pub uninterp spec fn glob_matches(pattern: Seq<char>, path: Seq<char>) -> bool;

/// Compiles `pattern` with `glob::Pattern::new` and reports whether it is a
/// valid pattern. Claimed: the answer is the named validity of the text.
#[verifier::external_body]
fn pattern_compiles(pattern: &str) -> (r: bool)
    ensures
        r == glob_pattern_valid(pattern@),
{
    glob::Pattern::new(pattern).is_ok()
}

/// Matches `path` against `pattern` with `glob::Pattern::matches`; the
/// pattern is compiled with `glob::Pattern::new` for the call. Claimed: the
/// answer is the named match of the two texts.
#[verifier::external_body]
fn pattern_matches(pattern: &str, path: &str) -> (r: bool)
    requires
        glob_pattern_valid(pattern@),
    ensures
        r == glob_matches(pattern@, path@),
{
    match glob::Pattern::new(pattern) {
        Ok(compiled) => compiled.matches(path),
        Err(_) => false,
    }
}

/// Whether `c` is one of the characters that a glob pattern treats
/// specially outside brackets.
pub open spec fn is_glob_meta(c: char) -> bool {
    c == '?' || c == '*' || c == '[' || c == ']'
}

/// `s` with each of `?`, `*`, `[`, `]` put in brackets.
pub open spec fn glob_escaped(s: Seq<char>) -> Seq<char>
    decreases s.len(),
{
    if s.len() == 0 {
        Seq::empty()
    } else {
        (if is_glob_meta(s[0]) {
            seq!['[', s[0], ']']
        } else {
            seq![s[0]]
        }) + glob_escaped(s.drop_first())
    }
}

/// Calls `glob::Pattern::escape`. Claimed, as its documentation and source
/// say: each of the metacharacters `?`, `*`, `[`, `]` is surrounded by
/// brackets and every other character is kept.
#[verifier::external_body]
fn escape_pattern(s: &str) -> (r: String)
    ensures
        r@ == glob_escaped(s@),
{
    glob::Pattern::escape(s)
}

/// Why an access file was refused.
#[derive(Debug, PartialEq, Eq)]
pub enum AccessError {
    /// The line with this index (from 0) is no valid glob pattern.
    InvalidPattern(usize),
}

/// The access rules of one user: the glob patterns of the user's access
/// file, each a valid pattern.
pub struct Access {
    globs: Vec<String>,
}

impl View for Access {
    type V = Seq<Seq<char>>;

    closed spec fn view(&self) -> Seq<Seq<char>> {
        self.globs@.map_values(|g: String| g@)
    }
}

/// Whether some pattern of `globs` matches `path`.
pub open spec fn any_matches(globs: Seq<Seq<char>>, path: Seq<char>) -> bool {
    exists|i: int| 0 <= i < globs.len() && glob_matches(#[trigger] globs[i], path)
}

impl Access {
    #[verifier::type_invariant]
    closed spec fn patterns_valid(self) -> bool {
        forall|i: int| 0 <= i < self.globs@.len() ==> glob_pattern_valid(#[trigger] self.globs@[i]@)
    }

    /// The name of the access file to read for a session: the user's own,
    /// or `default` when nobody is signed in. (Where the user has no file of
    /// their own, `default` is read instead.)
    pub fn config_name(username: Option<&str>) -> (r: String)
        ensures
            username matches Some(u) ==> r@ == u@,
            username is None ==> r@ == "default"@,
    {
        match username {
            Some(u) => u.to_owned(),
            None => "default".to_owned(),
        }
    }

    /// The access rules read from the lines of an access file: one pattern
    /// per line. Refused at the first line that is no valid pattern.
    pub fn from_lines(lines: Vec<String>) -> (r: Result<Access, AccessError>)
        ensures
            r matches Ok(a) ==> a@ == lines@.map_values(|l: String| l@),
            r is Ok <==> forall|i: int| 0 <= i < lines@.len() ==> glob_pattern_valid(#[trigger] lines@[i]@),
            r matches Err(AccessError::InvalidPattern(k)) ==> {
                &&& k < lines@.len()
                &&& !glob_pattern_valid(lines@[k as int]@)
                &&& forall|i: int| 0 <= i < k ==> glob_pattern_valid(#[trigger] lines@[i]@)
            },
    {
        let n = lines.len();
        for k in 0..n
            invariant
                n == lines@.len(),
                forall|i: int| 0 <= i < k ==> glob_pattern_valid(#[trigger] lines@[i]@),
        {
            if !pattern_compiles(lines[k].as_str()) {
                return Err(AccessError::InvalidPattern(k));
            }
        }
        Ok(Access { globs: lines })
    }

    /// Whether the rules let the user see `path`: some pattern matches it.
    pub fn matches(&self, path: &str) -> (r: bool)
        ensures
            r == any_matches(self@, path@),
    {
        proof {
            use_type_invariant(self);
        }
        let n = self.globs.len();
        for k in 0..n
            invariant
                n == self.globs@.len(),
                forall|i: int| 0 <= i < self.globs@.len() ==> glob_pattern_valid(#[trigger] self.globs@[i]@),
                forall|i: int| 0 <= i < k ==> !glob_matches(#[trigger] self@[i], path@),
        {
            if pattern_matches(self.globs[k].as_str(), path) {
                assert(self@[k as int] == self.globs@[k as int]@);
                return true;
            }
            assert(self@[k as int] == self.globs@[k as int]@);
        }
        false
    }

    /// Whether the rules let the user see the request whose URL path has the
    /// segments `segments`: the segments joined by `/` match some pattern.
    pub fn allows(&self, segments: &Vec<String>) -> (r: bool)
        ensures
            r == any_matches(self@, join_with_slash(path_view(*segments))),
    {
        let target = join_segments(segments);
        self.matches(target.as_str())
    }

    /// The patterns that list the notes the user may see below the
    /// directory `base`: each rule put under `base`, with `base` escaped so
    /// that its own characters match only themselves.
    pub fn search_patterns(&self, base: &str) -> (r: Vec<String>)
        ensures
            r@.len() == self@.len(),
            forall|i: int| 0 <= i < r@.len() ==> #[trigger] r@[i]@ == glob_escaped(base@) + seq!['/'] + self@[i],
    {
        let prefix = escape_pattern(base);
        let mut result: Vec<String> = Vec::new();
        let n = self.globs.len();
        for k in 0..n
            invariant
                n == self.globs@.len(),
                prefix@ == glob_escaped(base@),
                result@.len() == k,
                forall|i: int| 0 <= i < k ==> #[trigger] result@[i]@ == glob_escaped(base@) + seq!['/'] + self@[i],
        {
            let mut pattern = prefix.clone();
            let sep = "/";
            proof {
                reveal_strlit("/");
            }
            pattern.append(sep);
            pattern.append(self.globs[k].as_str());
            result.push(pattern);
        }
        result
    }
}

} // verus!
