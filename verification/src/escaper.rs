//! Escaping text for literal embedding in a document.

use vstd::prelude::*;
use vstd::string::StrSliceExecFns;
use vstd::string::StringExecFns;

use crate::grammar::is_special;

verus! {

/// What one character escapes to: a special character gains a leading
/// backslash, any other character stands unchanged.
pub open spec fn escaped_char(c: char) -> Seq<char> {
    if is_special(c) {
        seq!['\\', c]
    } else {
        seq![c]
    }
}

/// The escape of a whole text: each character escaped, in order.
pub open spec fn escaped(s: Seq<char>) -> Seq<char>
    decreases s.len(),
{
    if s.len() == 0 {
        Seq::empty()
    } else {
        escaped_char(s[0]) + escaped(s.subrange(1, s.len() as int))
    }
}

/// Escapes every delimiter and backslash of `text`, so that the result can
/// stand literally inside a document.  The function is total: it performs no
/// parsing and cannot fail.
pub fn escape(text: &str) -> (r: String)
    ensures
        r@ == escaped(text@),
{
    let n = text.unicode_len();
    let mut out = String::new();
    let mut i: usize = 0;
    proof {
        assert(text@.subrange(0, n as int) =~= text@);
        assert(Seq::<char>::empty() + escaped(text@) =~= escaped(text@));
    }
    while i < n
        invariant
            i <= n,
            n == text@.len(),
            escaped(text@) == out@ + escaped(text@.subrange(i as int, n as int)),
        decreases n - i,
    {
        let ghost out0: Seq<char> = out@;
        let ghost tail: Seq<char> = text@.subrange(i as int, n as int);
        let ghost tail1: Seq<char> = text@.subrange(i + 1, n as int);
        let c = text.get_char(i);
        proof {
            assert(tail[0] == text@[i as int]);
            assert(tail.subrange(1, tail.len() as int) =~= tail1);
            assert(escaped(tail) == escaped_char(c) + escaped(tail1));
        }
        let piece = text.substring_char(i, i + 1);
        proof {
            assert(piece@ =~= seq![c]);
        }
        if is_special_literal(c) {
            let slash = backslash_str();
            out.append(slash);
        }
        out.append(piece);
        proof {
            assert(out@ + escaped(tail1) =~= out0 + (escaped_char(c) + escaped(tail1)));
        }
        i = i + 1;
    }
    proof {
        assert(escaped(text@.subrange(n as int, n as int)) =~= Seq::<char>::empty());
        assert(out@ + Seq::<char>::empty() =~= out@);
    }
    out
}

/// Whether `c` is one of the five characters with delimiter or escape
/// meaning.
fn is_special_literal(c: char) -> (r: bool)
    ensures
        r == is_special(c),
{
    c == '\\' || c == '[' || c == ']' || c == '(' || c == ')'
}

/// A string holding the single backslash character.
fn backslash_str() -> (r: &'static str)
    ensures
        r@ == seq!['\\'],
{
    let r = "\\";
    proof {
        reveal_strlit("\\");
        assert(r@ =~= seq!['\\']);
    }
    r
}

} // verus!
