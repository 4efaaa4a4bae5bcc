//! Path-pattern matching for the source locator: a pattern matches a relative
//! path literally, except that `*` stands for any run of characters within
//! one path component (it never crosses a `/`).

use vstd::prelude::*;

use crate::text::str_to_chars;

verus! {

/// The pattern from position `pi` on matches the path from position `si` on.
pub open spec fn glob_match_from(p: Seq<char>, s: Seq<char>, pi: int, si: int) -> bool
    decreases p.len() + s.len() - pi - si,
{
    if !(0 <= pi <= p.len() && 0 <= si <= s.len()) {
        false
    } else if pi == p.len() {
        si == s.len()
    } else if p[pi] == '*' {
        glob_match_from(p, s, pi + 1, si) || (si < s.len() && s[si] != '/' && glob_match_from(
            p,
            s,
            pi,
            si + 1,
        ))
    } else {
        si < s.len() && s[si] == p[pi] && glob_match_from(p, s, pi + 1, si + 1)
    }
}

/// The whole pattern matches the whole path.
pub open spec fn spec_glob_match(p: Seq<char>, s: Seq<char>) -> bool {
    glob_match_from(p, s, 0, 0)
}

fn glob_match_at(p: &[char], s: &[char], pi: usize, si: usize) -> (r: bool)
    requires
        pi <= p@.len(),
        si <= s@.len(),
    ensures
        r == glob_match_from(p@, s@, pi as int, si as int),
    decreases p@.len() + s@.len() - pi - si,
{
    if pi == p.len() {
        return si == s.len();
    }
    if p[pi] == '*' {
        if glob_match_at(p, s, pi + 1, si) {
            return true;
        }
        if si < s.len() && s[si] != '/' {
            return glob_match_at(p, s, pi, si + 1);
        }
        return false;
    }
    if si < s.len() && s[si] == p[pi] {
        return glob_match_at(p, s, pi + 1, si + 1);
    }
    false
}

/// Whether the glob pattern matches the path.
pub fn glob_matches(pattern: &str, path: &str) -> (r: bool)
    ensures
        r == spec_glob_match(pattern@, path@),
{
    let p = str_to_chars(pattern);
    let s = str_to_chars(path);
    glob_match_at(p.as_slice(), s.as_slice(), 0, 0)
}

} // verus!
