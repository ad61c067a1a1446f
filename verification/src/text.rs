//! Verified string helpers: quote escaping for filter expressions, path
//! basename extraction, and removal of verbatim path markers.

use vstd::prelude::*;
use vstd::string::*;

verus! {

/// A string with every single quote doubled, so that it can stand between
/// single quotes inside a filter expression without ending the quoted value.
pub open spec fn escaped(s: Seq<char>) -> Seq<char>
    decreases s.len(),
{
    if s.len() == 0 {
        Seq::empty()
    } else {
        escaped(s.drop_last()) + (if s.last() == '\'' {
            seq!['\'', '\'']
        } else {
            seq![s.last()]
        })
    }
}

/// Doubles every single quote of `s`.
pub fn escape_quotes(s: &str) -> (r: String)
    ensures
        r@ == escaped(s@),
{
    let n = s.unicode_len();
    let mut out = String::new();
    let mut i: usize = 0;
    while i < n
        invariant
            i <= n,
            n == s@.len(),
            out@ == escaped(s@.subrange(0, i as int)),
        decreases n - i,
    {
        let c = s.get_char(i);
        if c == '\'' {
            out.append("''");
            proof {
                reveal_strlit("''");
                assert("''"@ =~= seq!['\'', '\'']);
            }
        } else {
            let piece = s.substring_char(i, i + 1);
            out.append(piece);
            proof {
                assert(piece@ =~= seq![s@[i as int]]);
            }
        }
        proof {
            assert(s@.subrange(0, i + 1).drop_last() =~= s@.subrange(0, i as int));
            assert(s@.subrange(0, i + 1).last() == s@[i as int]);
        }
        i = i + 1;
    }
    proof {
        assert(s@.subrange(0, n as int) =~= s@);
    }
    out
}

/// Path separators recognised when a file name is cut out of a path.
pub open spec fn is_path_separator(c: char) -> bool {
    c == '/' || c == '\\'
}

/// Index of the first character after the last path separator of `s`;
/// `0` when `s` holds no separator.
pub open spec fn basename_start(s: Seq<char>) -> int
    decreases s.len(),
{
    if s.len() == 0 {
        0
    } else if is_path_separator(s.last()) {
        s.len() as int
    } else {
        basename_start(s.drop_last())
    }
}

/// The characters of `s` after its last path separator.
pub open spec fn basename_of(s: Seq<char>) -> Seq<char> {
    s.subrange(basename_start(s), s.len() as int)
}

/// Cuts the file name out of a path: everything after the last `/` or `\`.
pub fn basename(s: &str) -> (r: String)
    ensures
        r@ == basename_of(s@),
{
    let n = s.unicode_len();
    let mut start: usize = 0;
    let mut i: usize = 0;
    while i < n
        invariant
            start <= i <= n,
            n == s@.len(),
            start as int == basename_start(s@.subrange(0, i as int)),
        decreases n - i,
    {
        let c = s.get_char(i);
        proof {
            assert(s@.subrange(0, i + 1).drop_last() =~= s@.subrange(0, i as int));
            assert(s@.subrange(0, i + 1).last() == s@[i as int]);
        }
        if c == '/' || c == '\\' {
            start = i + 1;
        }
        i = i + 1;
    }
    proof {
        assert(s@.subrange(0, n as int) =~= s@);
    }
    let sub = s.substring_char(start, n);
    String::from_str(sub)
}

/// The four-character verbatim path marker `\\?\`.
pub open spec fn verbatim_marker() -> Seq<char> {
    seq!['\\', '\\', '?', '\\']
}

/// `s` with every occurrence of the verbatim marker removed, scanning left to
/// right over non-overlapping occurrences.
pub open spec fn without_verbatim(s: Seq<char>) -> Seq<char>
    decreases s.len(),
{
    if s.len() == 0 {
        Seq::empty()
    } else if s.len() >= 4 && s.subrange(0, 4) == verbatim_marker() {
        without_verbatim(s.skip(4))
    } else {
        seq![s[0]] + without_verbatim(s.drop_first())
    }
}

/// Removes every verbatim path marker from `s`.
pub fn strip_verbatim_markers(s: &str) -> (r: String)
    ensures
        r@ == without_verbatim(s@),
{
    let n = s.unicode_len();
    let mut out = String::new();
    let mut i: usize = 0;
    proof {
        assert(s@.subrange(0, n as int) =~= s@);
        assert(Seq::<char>::empty() + without_verbatim(s@) =~= without_verbatim(s@));
    }
    while i < n
        invariant
            i <= n,
            n == s@.len(),
            without_verbatim(s@) == out@ + without_verbatim(s@.subrange(i as int, n as int)),
        decreases n - i,
    {
        let ghost rest = s@.subrange(i as int, n as int);
        if n - i >= 4 && s.get_char(i) == '\\' && s.get_char(i + 1) == '\\' && s.get_char(i + 2)
            == '?' && s.get_char(i + 3) == '\\' {
            proof {
                assert(rest.subrange(0, 4) =~= verbatim_marker());
                assert(rest.skip(4) =~= s@.subrange(i + 4, n as int));
            }
            i = i + 4;
        } else {
            let piece = s.substring_char(i, i + 1);
            out.append(piece);
            proof {
                assert(piece@ =~= seq![s@[i as int]]);
                if rest.len() >= 4 && rest.subrange(0, 4) == verbatim_marker() {
                    // the four-character comparison above ruled this case out
                    assert(rest[0] == '\\' && rest[1] == '\\' && rest[2] == '?' && rest[3]
                        == '\\');
                    assert(false);
                }
                assert(rest.drop_first() =~= s@.subrange(i + 1, n as int));
                assert(out@ + seq![s@[i as int]] + without_verbatim(s@.subrange(i + 1, n as int))
                    == out@ + (seq![rest[0]] + without_verbatim(rest.drop_first())));
            }
            i = i + 1;
        }
    }
    proof {
        assert(s@.subrange(n as int, n as int) =~= Seq::<char>::empty());
    }
    out
}

} // verus!
