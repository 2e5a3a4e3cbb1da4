//! File system paths as text, joined as `PathBuf::push` does on Unix.

use vstd::prelude::*;
use crate::text::string_of;

verus! {

/// `part` appended to `base`: an absolute `part` replaces `base`; otherwise a
/// `/` goes between them unless `base` is empty or already ends with one.
pub open spec fn joined(base: Seq<char>, part: Seq<char>) -> Seq<char> {
    if part.len() > 0 && part[0] == '/' {
        part
    } else if base.len() == 0 || base.last() == '/' {
        base + part
    } else {
        base + seq!['/'] + part
    }
}

/// `base` joined with `part` (`Path::join`).
pub fn join(base: &str, part: &str) -> (r: String)
    ensures
        r@ == joined(base@, part@),
{
    let b = crate::text::chars_of(base);
    let p = crate::text::chars_of(part);
    if p.len() > 0 && p[0] == '/' {
        return string_of(&p);
    }
    let mut v: Vec<char> = Vec::new();
    let mut i: usize = 0;
    while i < b.len()
        invariant
            i <= b.len(),
            v@ == b@.take(i as int),
        decreases b.len() - i,
    {
        v.push(b[i]);
        proof {
            assert(v@ =~= b@.take(i + 1));
        }
        i = i + 1;
    }
    proof {
        assert(b@.take(i as int) =~= b@);
    }
    if b.len() > 0 && b[b.len() - 1] != '/' {
        v.push('/');
    }
    let ghost v0 = v@;
    let mut j: usize = 0;
    while j < p.len()
        invariant
            j <= p.len(),
            v@ == v0 + p@.take(j as int),
        decreases p.len() - j,
    {
        v.push(p[j]);
        proof {
            assert(v@ =~= v0 + p@.take(j + 1));
        }
        j = j + 1;
    }
    proof {
        assert(p@.take(j as int) =~= p@);
        assert(v@ =~= joined(base@, part@));
    }
    string_of(&v)
}

} // verus!
