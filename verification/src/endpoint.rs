//! Emulator endpoints.

use vstd::prelude::*;

use crate::text::to_chars;

verus! {

/// Whether `://` stands at index `i` of `s`.
pub open spec fn scheme_mark_at(s: Seq<char>, i: int) -> bool {
    0 <= i && i + 2 < s.len() && s[i] == ':' && s[i + 1] == '/' && s[i + 2] == '/'
}

/// Whether an endpoint names its scheme.
pub open spec fn has_scheme(s: Seq<char>) -> bool {
    exists|i: int| #[trigger] scheme_mark_at(s, i)
}

/// An endpoint with a scheme: its own, or else `http`.
pub open spec fn schemed(s: Seq<char>) -> Seq<char> {
    if has_scheme(s) {
        s
    } else {
        "http://"@ + s
    }
}

/// Adds `http://` to an endpoint that names no scheme.
pub fn ensure_scheme(host: &str) -> (r: String)
    ensures
        r@ == schemed(host@),
{
    let chars = to_chars(host);
    let mut i: usize = 0;
    while i < chars.len()
        invariant
            i <= chars@.len(),
            chars@ == host@,
            forall|k: int| 0 <= k < i ==> !#[trigger] scheme_mark_at(host@, k),
        decreases chars@.len() - i,
    {
        if chars.len() - i > 2 && chars[i] == ':' && chars[i + 1] == '/' && chars[i + 2] == '/' {
            assert(scheme_mark_at(host@, i as int));
            return host.to_owned();
        }
        i = i + 1;
    }
    assert(!has_scheme(host@));
    let mut out = "http://".to_owned();
    out.append(host);
    out
}

/// An endpoint names a scheme once it has been through, and going through again changes nothing.
pub proof fn lemma_schemed(s: Seq<char>)
    ensures
        has_scheme(schemed(s)),
        schemed(schemed(s)) == schemed(s),
{
    reveal_strlit("http://");
    if !has_scheme(s) {
        let t = "http://"@ + s;
        assert(scheme_mark_at(t, 4));
    }
}

} // verus!
