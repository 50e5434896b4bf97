//! The name under which a session's project is reported.
//!
//! The name is taken from the first source that has one: a name given by
//! the user, the root directory of the repository that the session runs
//! in, the directory that it runs in. Finding those is left to the caller;
//! which of them counts, and what part of it, is decided here.

use vstd::prelude::*;
use vstd::string::{StrSliceExecFns, StringExecFns};
use crate::detector::lines::{lemma_first_break_is, open_line};
use crate::detector::text::{char_is_whitespace, chars_of, is_whitespace};

verus! {

/// The name reported where no source has one.
pub open spec fn unknown_project() -> Seq<char> {
    "unknown"@
}

/// The number of white space characters that `s` starts with.
pub open spec fn leading_white(s: Seq<char>) -> int
    decreases s.len(),
{
    if s.len() == 0 || !is_whitespace(s[0]) {
        0
    } else {
        1 + leading_white(s.drop_first())
    }
}

/// The number of white space characters that `s` ends with.
pub open spec fn trailing_white(s: Seq<char>) -> int
    decreases s.len(),
{
    if s.len() == 0 || !is_whitespace(s.last()) {
        0
    } else {
        1 + trailing_white(s.drop_last())
    }
}

/// `s` without the white space at its start and at its end.
pub open spec fn trimmed(s: Seq<char>) -> Seq<char> {
    if leading_white(s) == s.len() {
        Seq::empty()
    } else {
        s.subrange(leading_white(s), s.len() - trailing_white(s))
    }
}

/// What follows the last separator of `path`; all of it where it has none.
pub open spec fn last_component(path: Seq<char>) -> Seq<char> {
    open_line(path, '/')
}

/// The name of the project: the name given by the user, else the last
/// component of the repository's root as the tool that was asked printed
/// it, else the name of the directory, else a fixed word.
pub open spec fn chosen_name(
    given: Option<Seq<char>>,
    repository_root: Option<Seq<char>>,
    directory: Option<Seq<char>>,
) -> Seq<char> {
    match given {
        Some(name) => name,
        None => match repository_root {
            Some(root) => last_component(trimmed(root)),
            None => match directory {
                Some(name) => name,
                None => unknown_project(),
            },
        },
    }
}

/// A position that only white space precedes, and that is the end or holds
/// something else, is where the leading white space ends.
proof fn lemma_leading_white_is(s: Seq<char>, n: int)
    requires
        0 <= n <= s.len(),
        forall|k: int| 0 <= k < n ==> is_whitespace(#[trigger] s[k]),
        n < s.len() ==> !is_whitespace(s[n]),
    ensures
        leading_white(s) == n,
    decreases s.len(),
{
    if n > 0 {
        let rest = s.drop_first();
        assert forall|k: int| 0 <= k < n - 1 implies is_whitespace(#[trigger] rest[k]) by {
            assert(rest[k] == s[k + 1]);
        }
        if n - 1 < rest.len() {
            assert(rest[n - 1] == s[n]);
        }
        lemma_leading_white_is(rest, n - 1);
    }
}

/// A position that only white space follows, and that is the start or
/// comes after something else, is where the trailing white space starts.
proof fn lemma_trailing_white_is(s: Seq<char>, n: int)
    requires
        0 <= n <= s.len(),
        forall|k: int| s.len() - n <= k < s.len() ==> is_whitespace(#[trigger] s[k]),
        n < s.len() ==> !is_whitespace(s[s.len() - n - 1]),
    ensures
        trailing_white(s) == n,
    decreases s.len(),
{
    if n > 0 {
        let rest = s.drop_last();
        assert forall|k: int| rest.len() - (n - 1) <= k < rest.len() implies is_whitespace(
            #[trigger] rest[k],
        ) by {
            assert(rest[k] == s[k]);
        }
        if n - 1 < rest.len() {
            assert(rest[rest.len() - (n - 1) - 1] == s[s.len() - n - 1]);
        }
        lemma_trailing_white_is(rest, n - 1);
    }
}

/// The last component of `text` once the white space around it is gone.
pub fn trimmed_last_component(text: &str) -> (name: String)
    ensures
        name@ == last_component(trimmed(text@)),
{
    let chars = chars_of(text);
    let n = chars.len();
    let mut from: usize = 0;
    while from < n && char_is_whitespace(chars[from])
        invariant
            n == chars.len(),
            0 <= from <= n,
            forall|k: int| 0 <= k < from ==> is_whitespace(#[trigger] chars@[k]),
        decreases n - from,
    {
        from = from + 1;
    }
    proof {
        lemma_leading_white_is(chars@, from as int);
    }
    let mut to: usize = n;
    while to > from && char_is_whitespace(chars[to - 1])
        invariant
            n == chars.len(),
            from <= to <= n,
            forall|k: int| to <= k < n ==> is_whitespace(#[trigger] chars@[k]),
        decreases to,
    {
        to = to - 1;
    }
    proof {
        if from < n {
            lemma_trailing_white_is(chars@, n - to);
        }
    }
    let ghost kept = chars@.subrange(from as int, to as int);
    assert(kept =~= trimmed(text@));
    let mut start: usize = from;
    let mut i: usize = from;
    proof {
        assert(kept.skip(0) =~= kept);
    }
    while i < to
        invariant
            n == chars.len(),
            from <= start <= i <= to <= n,
            kept == chars@.subrange(from as int, to as int),
            forall|k: int| start <= k < i ==> chars@[k] != '/',
            open_line(kept, '/') == open_line(kept.skip(start - from), '/'),
        decreases to - i,
    {
        if chars[i] == '/' {
            proof {
                let rest = kept.skip(start - from);
                assert forall|k: int| 0 <= k < i - start implies rest[k] != '/' by {
                    assert(rest[k] == chars@[start + k]);
                }
                assert(rest[i - start] == chars@[i as int]);
                lemma_first_break_is(rest, '/', i - start);
                assert(rest.skip(i - start + 1) =~= kept.skip(i + 1 - from));
            }
            start = i + 1;
        }
        i = i + 1;
    }
    proof {
        let rest = kept.skip(start - from);
        assert forall|k: int| 0 <= k < rest.len() implies rest[k] != '/' by {
            assert(rest[k] == chars@[start + k]);
        }
        lemma_first_break_is(rest, '/', rest.len() as int);
        assert(rest =~= text@.subrange(start as int, to as int));
    }
    String::from_str(text.substring_char(start, to))
}

/// The name under which the project is reported, from what the sources
/// gave: the name set by the user, the output of the tool that was asked
/// for the repository's root, the name of the current directory.
pub fn project_name(
    given: Option<String>,
    repository_root: Option<String>,
    directory: Option<String>,
) -> (name: String)
    ensures
        name@ == chosen_name(
            match given {
                Some(name) => Some(name@),
                None => None,
            },
            match repository_root {
                Some(root) => Some(root@),
                None => None,
            },
            match directory {
                Some(name) => Some(name@),
                None => None,
            },
        ),
{
    match given {
        Some(name) => name,
        None => match repository_root {
            Some(root) => trimmed_last_component(root.as_str()),
            None => match directory {
                Some(name) => name,
                None => String::from_str("unknown"),
            },
        },
    }
}

} // verus!
