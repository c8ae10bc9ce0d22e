//! Byte-level text predicates shared by the resolver and the command tree.
//!
//! Lines and names are compared as UTF-8 bytes. The separators are ASCII
//! bytes, which never occur inside a multi-byte character, so splitting the
//! bytes at them splits the text at the same places.

use vstd::prelude::*;

verus! {

/// A byte that separates the pieces of an input line: space, tab, line feed,
/// form feed or carriage return.
pub open spec fn is_blank(b: u8) -> bool {
    b == 0x20 || b == 0x09 || b == 0x0a || b == 0x0c || b == 0x0d
}

/// Decides whether `b` is a separator.
pub fn blank(b: u8) -> (r: bool)
    ensures
        r == is_blank(b),
{
    b == 0x20 || b == 0x09 || b == 0x0a || b == 0x0c || b == 0x0d
}

/// `prefix` is an initial segment of `text`.
pub open spec fn is_prefix(prefix: Seq<u8>, text: Seq<u8>) -> bool {
    prefix.len() <= text.len() && text.subrange(0, prefix.len() as int) == prefix
}

/// `s` holds at least one separator.
pub open spec fn has_blank(s: Seq<u8>) -> bool {
    exists|k: int| 0 <= k < s.len() && is_blank(s[k])
}

/// Offset at which the last token of `s` begins: just behind the last
/// separator, or 0 where `s` holds none.
pub open spec fn last_token_start(s: Seq<u8>) -> int
    decreases s.len(),
{
    if s.len() == 0 {
        0
    } else if is_blank(s.last()) {
        s.len() as int
    } else {
        last_token_start(s.drop_last())
    }
}

/// The tokens of `s`: the pieces between its separators, in order. Two
/// separators in a row, or one at either end, enclose an empty token, so the
/// result is never empty.
pub open spec fn tokens(s: Seq<u8>) -> Seq<Seq<u8>>
    decreases s.len(),
{
    let start = last_token_start(s);
    if 0 < start <= s.len() {
        tokens(s.subrange(0, start - 1)).push(s.subrange(start, s.len() as int))
    } else {
        seq![s]
    }
}

/// The last token starts within the text, right behind a separator or at the
/// very beginning, and holds no separator itself.
pub proof fn lemma_last_token_start_bounds(s: Seq<u8>)
    ensures
        0 <= last_token_start(s) <= s.len(),
        last_token_start(s) > 0 ==> is_blank(s[last_token_start(s) - 1]),
        forall|k: int| last_token_start(s) <= k < s.len() ==> !is_blank(s[k]),
        has_blank(s) <==> last_token_start(s) > 0,
    decreases s.len(),
{
    if s.len() > 0 && !is_blank(s.last()) {
        let init = s.drop_last();
        lemma_last_token_start_bounds(init);
        let t = last_token_start(init);
        assert(t > 0 ==> s[t - 1] == init[t - 1]);
        assert forall|k: int| t <= k < s.len() implies !is_blank(s[k]) by {
            if k < init.len() {
                assert(s[k] == init[k]);
            }
        }
        if has_blank(s) {
            let k = choose|k: int| 0 <= k < s.len() && is_blank(s[k]);
            assert(is_blank(init[k]));
        }
    }
}

/// An offset that sits right behind a separator (or at the beginning) with no
/// separator after it is where the last token starts.
pub proof fn lemma_last_token_start_is(s: Seq<u8>, start: int)
    requires
        0 <= start <= s.len(),
        start > 0 ==> is_blank(s[start - 1]),
        forall|k: int| start <= k < s.len() ==> !is_blank(s[k]),
    ensures
        last_token_start(s) == start,
    decreases s.len(),
{
    if s.len() > 0 && !is_blank(s.last()) {
        let init = s.drop_last();
        assert(start < s.len());
        assert(start > 0 ==> init[start - 1] == s[start - 1]);
        assert forall|k: int| start <= k < init.len() implies !is_blank(init[k]) by {
            assert(init[k] == s[k]);
        }
        lemma_last_token_start_is(init, start);
    }
}

/// There is always a last token, and it is the text from
/// `last_token_start` on.
pub proof fn lemma_tokens_last(s: Seq<u8>)
    ensures
        tokens(s).len() >= 1,
        tokens(s).last() == s.subrange(last_token_start(s), s.len() as int),
        has_blank(s) <==> tokens(s).len() > 1,
    decreases s.len(),
{
    lemma_last_token_start_bounds(s);
    let start = last_token_start(s);
    if start > 0 {
        lemma_tokens_last(s.subrange(0, start - 1));
    } else {
        assert(s.subrange(0, s.len() as int) =~= s);
    }
}

/// Decides whether `text` begins with `prefix`.
pub fn starts_with(text: &[u8], prefix: &[u8]) -> (r: bool)
    ensures
        r == is_prefix(prefix@, text@),
{
    if prefix.len() > text.len() {
        return false;
    }
    let mut i: usize = 0;
    while i < prefix.len()
        invariant
            i <= prefix.len() <= text.len(),
            forall|k: int| 0 <= k < i ==> text@[k] == prefix@[k],
        decreases prefix.len() - i,
    {
        if text[i] != prefix[i] {
            assert(text@.subrange(0, prefix@.len() as int)[i as int] != prefix@[i as int]);
            return false;
        }
        i += 1;
    }
    assert(text@.subrange(0, prefix@.len() as int) =~= prefix@);
    true
}

/// Decides whether two byte strings are the same.
pub fn same_bytes(a: &[u8], b: &[u8]) -> (r: bool)
    ensures
        r == (a@ == b@),
{
    if a.len() != b.len() {
        return false;
    }
    let mut i: usize = 0;
    while i < a.len()
        invariant
            i <= a.len() == b.len(),
            forall|k: int| 0 <= k < i ==> a@[k] == b@[k],
        decreases a.len() - i,
    {
        if a[i] != b[i] {
            return false;
        }
        i += 1;
    }
    assert(a@ =~= b@);
    true
}

/// Decides whether `bytes` hold a separator.
pub fn contains_blank(bytes: &[u8]) -> (r: bool)
    ensures
        r == has_blank(bytes@),
{
    let mut i: usize = 0;
    while i < bytes.len()
        invariant
            i <= bytes@.len(),
            forall|k: int| 0 <= k < i ==> !is_blank(bytes@[k]),
        decreases bytes@.len() - i,
    {
        if blank(bytes[i]) {
            return true;
        }
        i += 1;
    }
    false
}

} // verus!
