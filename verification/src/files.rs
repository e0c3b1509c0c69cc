//! Requests for static files, named `name.ext`.
use vstd::prelude::*;
use crate::text::{chars_of, scan_backward, string_of_range, trail_len, lemma_trail_len, CharClass};

verus! {

/// A request split at its last `'.'` into the name before it and the extension
/// after it (what `rsplitn(2, ".")` yields in reverse); `None` where it has no `'.'`.
pub open spec fn split_request(s: Seq<char>) -> Option<(Seq<char>, Seq<char>)> {
    let k = trail_len(s, CharClass::Except('.'));
    if k >= s.len() {
        None
    } else {
        Some((s.take(s.len() - k - 1), s.skip(s.len() - k)))
    }
}

/// Splits a requested file into its name and its extension.
pub fn split_file_request(req: &str) -> (parts: Option<(String, String)>)
    ensures
        match split_request(req@) {
            Some((name, ext)) => parts matches Some((n, e)) && n@ == name && e@ == ext,
            None => parts is None,
        },
{
    let cs = chars_of(req);
    let n = cs.len();
    let k = scan_backward(&cs, 0, n, CharClass::Except('.'));
    assert(cs@.subrange(0, n as int) == cs@);
    if k == 0 {
        None
    } else {
        let name = string_of_range(&cs, 0, k - 1);
        let ext = string_of_range(&cs, k, n);
        assert(cs@.take(k - 1) == cs@.subrange(0, k - 1));
        assert(cs@.skip(k as int) == cs@.subrange(k as int, n as int));
        Some((name, ext))
    }
}

/// Splitting undoes joining: a name, a `'.'` and an extension without `'.'` split
/// back into that name and that extension.
pub proof fn law_split_request_of_join(name: Seq<char>, ext: Seq<char>)
    requires
        !ext.contains('.'),
    ensures
        split_request(name + seq!['.'] + ext) == Some((name, ext)),
{
    let s = name + seq!['.'] + ext;
    let k = trail_len(s, CharClass::Except('.'));
    lemma_trail_len(s, CharClass::Except('.'));
    assert forall|j: int| s.len() - ext.len() <= j < s.len() implies s[j] != '.' by {
        assert(s[j] == ext[j - (s.len() - ext.len())]);
    }
    crate::text::lemma_trail_len_is(s, CharClass::Except('.'), ext.len() as int);
    assert(s.take(s.len() - k - 1) =~= name);
    assert(s.skip(s.len() - k) =~= ext);
}

/// Joining undoes splitting: a request that splits is its name, a `'.'` and its
/// extension, and the extension holds no `'.'`.
pub proof fn law_join_of_split_request(s: Seq<char>)
    requires
        split_request(s) is Some,
    ensures
        split_request(s) matches Some((name, ext)) && name + seq!['.'] + ext == s
            && !ext.contains('.'),
{
    let k = trail_len(s, CharClass::Except('.'));
    lemma_trail_len(s, CharClass::Except('.'));
    let name = s.take(s.len() - k - 1);
    let ext = s.skip(s.len() - k);
    assert(name + seq!['.'] + ext =~= s);
    assert forall|j: int| 0 <= j < ext.len() implies ext[j] != '.' by {
        assert(ext[j] == s[s.len() - k + j]);
    }
}

} // verus!
