//! Classification and decomposition of mapping keys.
//!
//! A key names a path: segments separated by `/`. The terminal segment (after
//! the last separator, or the whole key when none exists) decides placement:
//! if it contains a `.` the key is a file key, otherwise a folder key.

use vstd::prelude::*;

verus! {

/// Whether the terminal path component of `s` contains a `.`: scanning from
/// the end, a `.` is met before any `/`.
pub open spec fn is_file_key(s: Seq<char>) -> bool
    decreases s.len(),
{
    if s.len() == 0 {
        false
    } else if s.last() == '/' {
        false
    } else if s.last() == '.' {
        true
    } else {
        is_file_key(s.drop_last())
    }
}

/// The position of the first `/` in `s`, if any.
pub open spec fn find_sep(s: Seq<char>) -> Option<int>
    decreases s.len(),
{
    if s.len() == 0 {
        None
    } else if s[0] == '/' {
        Some(0)
    } else {
        match find_sep(s.drop_first()) {
            None => None,
            Some(i) => Some(i + 1),
        }
    }
}

/// `find_sep` returns the first separator position: a `/` stands there and
/// none before it; `None` means the key has no separator at all.
pub proof fn lemma_find_sep(s: Seq<char>)
    ensures
        match find_sep(s) {
            Some(i) => 0 <= i < s.len() && s[i] == '/' && (forall|j: int|
                0 <= j < i ==> s[j] != '/'),
            None => forall|j: int| 0 <= j < s.len() ==> s[j] != '/',
        },
    decreases s.len(),
{
    if s.len() > 0 && s[0] != '/' {
        let t = s.drop_first();
        lemma_find_sep(t);
        assert(forall|j: int| 1 <= j < s.len() ==> s[j] == t[j - 1]);
    }
}

/// Finds the first `/` of `s`, as `find_sep` describes it.
pub fn find_sep_str(s: &str) -> (r: Option<usize>)
    ensures
        match r {
            Some(i) => find_sep(s@) == Some(i as int),
            None => find_sep(s@) is None,
        },
    decreases s@.len(),
{
    let n = s.unicode_len();
    if n == 0 {
        None
    } else if s.get_char(0) == '/' {
        Some(0)
    } else {
        let rest = s.substring_char(1, n);
        proof {
            assert(rest@ =~= s@.drop_first());
        }
        match find_sep_str(rest) {
            None => None,
            Some(i) => {
                proof {
                    lemma_find_sep(rest@);
                }
                Some(i + 1)
            },
        }
    }
}

/// A borrowed mapping key, inspected as a path.
pub struct KeyPath<'a>(&'a str);

impl<'a> View for KeyPath<'a> {
    type V = Seq<char>;

    closed spec fn view(&self) -> Seq<char> {
        self.0@
    }
}

impl<'a> KeyPath<'a> {
    /// Wraps a key string for path inspection.
    pub fn new(s: &'a str) -> (r: Self)
        ensures
            r@ == s@,
    {
        KeyPath(s)
    }

    /// Checks if the file component contains a `.`
    pub fn is_file(&self) -> (r: bool)
        ensures
            r == is_file_key(self@),
    {
        let n = self.0.unicode_len();
        proof {
            assert(self.0@.take(n as int) =~= self.0@);
        }
        let mut i = n;
        while i > 0
            invariant
                i <= n,
                n == self.0@.len(),
                is_file_key(self.0@) == is_file_key(self.0@.take(i as int)),
            decreases i,
        {
            let c = self.0.get_char(i - 1);
            proof {
                assert(self.0@.take(i as int).len() == i);
                assert(self.0@.take(i as int).last() == self.0@[i - 1]);
            }
            if c == '/' {
                return false;
            }
            if c == '.' {
                return true;
            }
            proof {
                assert(self.0@.take(i as int).drop_last() =~= self.0@.take(i - 1));
            }
            i = i - 1;
        }
        proof {
            assert(self.0@.take(0).len() == 0);
        }
        false
    }
}

} // verus!
