//! Text helpers shared by the parser, the file-name rules and the listings:
//! contracts for the two `std` character operations the crate needs, and the
//! path-basename split used for episode file names.

use vstd::prelude::*;

verus! {

/// Relies on `char::from_u32` of std: it returns the character with the given
/// code point exactly when that code point is a Unicode scalar value.
pub assume_specification[ char::from_u32 ](u: u32) -> (r: Option<char>)
    ensures
        (r is Some) <==> (u < 0xD800 || (0xE000 <= u && u <= 0x10FFFF)),
        r is Some ==> r->0 as u32 == u,
;

/// Relies on `String::push` of std: it appends the one character.
pub assume_specification[ String::push ](s: &mut String, c: char)
    ensures
        final(s)@ == old(s)@.push(c),
;

/// The position just after the last `/` of `s`, or `None` where `s` holds no
/// `/` at all.
pub open spec fn spec_after_last_slash(s: Seq<char>) -> Option<int>
    decreases s.len(),
{
    if s.len() == 0 {
        None
    } else if s[s.len() - 1] == '/' {
        Some(s.len() as int)
    } else {
        spec_after_last_slash(s.drop_last())
    }
}

/// The final path segment of `s`: everything after its last `/`, or `None`
/// where `s` holds no `/`.
pub open spec fn spec_basename(s: Seq<char>) -> Option<Seq<char>> {
    match spec_after_last_slash(s) {
        Some(i) => Some(s.subrange(i, s.len() as int)),
        None => None,
    }
}

/// Returns the text after the last `/` of `s`, or `None` where `s` holds no
/// `/`.
pub fn basename(s: &str) -> (r: Option<String>)
    ensures
        match r {
            Some(b) => Some(b@) == spec_basename(s@),
            None => spec_basename(s@) is None,
        },
{
    let len = s.unicode_len();
    proof {
        assert(s@.subrange(0, len as int) =~= s@);
    }
    let mut i = len;
    while i > 0
        invariant
            i <= len,
            len == s@.len(),
            spec_after_last_slash(s@.subrange(0, i as int)) == spec_after_last_slash(s@),
        decreases i,
    {
        proof {
            assert(s@.subrange(0, i as int).drop_last() =~= s@.subrange(0, i - 1));
        }
        if s.get_char(i - 1) == '/' {
            assert(s@.subrange(0, i as int)[i - 1] == s@[i - 1]);
            let b = s.substring_char(i, len);
            assert(b@ =~= s@.subrange(i as int, s@.len() as int));
            return Some(b.to_owned());
        }
        assert(s@.subrange(0, i as int)[i - 1] == s@[i - 1]);
        i = i - 1;
    }
    proof {
        assert(s@.subrange(0, 0) =~= Seq::<char>::empty());
    }
    None
}

} // verus!
