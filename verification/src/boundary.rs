//! The validated boundary: `compile`, `free` and `find` over validated views of
//! what a foreign caller hands in.
//!
//! A pointer that may be null is an `Option` here, a pointer with a length is
//! a slice, and the opaque handle is an owned `AifwRegex`.

use vstd::prelude::*;
use vstd::slice::slice_subrange;
use vstd::utf8::{decode_utf8, valid_utf8};
use crate::engine::{build, built, find, leftmost_match, parse, parsed, text_of};

verus! {

/// Result code of `aifw_regex_find`: a match was found and written out.
pub const MATCH: i32 = 1;

/// Result code of `aifw_regex_find`: the region searched holds no match.
pub const NO_MATCH: i32 = 0;

/// Result code of `aifw_regex_find`: a required argument was absent.
pub const ERROR: i32 = -1;

/// The handle of one compiled matcher. Made by `aifw_regex_compile`, owned by
/// the caller from then on, and given back to `aifw_regex_free`.
pub struct AifwRegex {
    re: regex_automata::meta::Regex,
}

impl AifwRegex {
    /// The engine's matcher that this handle owns.
    pub closed spec fn matcher(&self) -> regex_automata::meta::Regex {
        self.re
    }
}

/// The number of bytes before the first zero byte, or the whole length where
/// there is none.
pub open spec fn text_len(bytes: Seq<u8>) -> nat
    decreases bytes.len(),
{
    if bytes.len() == 0 || bytes[0] == 0 {
        0
    } else {
        1 + text_len(bytes.drop_first())
    }
}

/// The bytes of a terminated string: what stands before the terminator.
pub open spec fn text_bytes(bytes: Seq<u8>) -> Seq<u8> {
    bytes.take(text_len(bytes) as int)
}

/// The matcher that the engine makes of a pattern text, where it parses and
/// builds.
pub open spec fn compiled(text: Seq<char>) -> Option<regex_automata::meta::Regex> {
    match parsed(text) {
        Some(hir) => built(hir),
        None => None,
    }
}

/// What `aifw_regex_compile` owes for a pattern buffer: nothing for an absent
/// buffer or for text that is not well-formed UTF-8, else what the engine
/// makes of the decoded text.
pub open spec fn compile_result(pattern: Option<Seq<u8>>) -> Option<regex_automata::meta::Regex> {
    match pattern {
        None => None,
        Some(bytes) => if valid_utf8(text_bytes(bytes)) {
            compiled(decode_utf8(text_bytes(bytes)))
        } else {
            None
        },
    }
}

/// `text_len` is the place of the first zero byte: no byte before it is zero,
/// and it is either the length or the index of a zero byte.
pub proof fn lemma_text_len(bytes: Seq<u8>)
    ensures
        text_len(bytes) <= bytes.len(),
        forall|j: int| 0 <= j < text_len(bytes) ==> bytes[j] != 0,
        text_len(bytes) < bytes.len() ==> bytes[text_len(bytes) as int] == 0,
    decreases bytes.len(),
{
    if bytes.len() == 0 || bytes[0] == 0 {
    } else {
        let rest = bytes.drop_first();
        lemma_text_len(rest);
        assert forall|j: int| 0 <= j < text_len(bytes) implies bytes[j] != 0 by {
            if j > 0 {
                assert(bytes[j] == rest[j - 1]);
            }
        }
        if text_len(bytes) < bytes.len() {
            assert(bytes[text_len(bytes) as int] == rest[text_len(rest) as int]);
        }
    }
}

/// A prefix without a zero byte, followed by the end or by a zero byte, is
/// the text.
pub proof fn lemma_text_len_is(bytes: Seq<u8>, n: int)
    requires
        0 <= n <= bytes.len(),
        forall|j: int| 0 <= j < n ==> bytes[j] != 0,
        n < bytes.len() ==> bytes[n] == 0,
    ensures
        text_len(bytes) == n,
    decreases bytes.len(),
{
    if bytes.len() == 0 || bytes[0] == 0 {
    } else {
        let rest = bytes.drop_first();
        assert forall|j: int| 0 <= j < n - 1 implies rest[j] != 0 by {
            assert(rest[j] == bytes[j + 1]);
        }
        lemma_text_len_is(rest, n - 1);
    }
}

/// Scans a buffer for the terminator and returns the length of the text
/// before it.
pub fn scan_terminator(bytes: &[u8]) -> (n: usize)
    ensures
        n == text_len(bytes@),
{
    let mut i: usize = 0;
    while i < bytes.len() && bytes[i] != 0
        invariant
            i <= bytes@.len(),
            forall|j: int| 0 <= j < i ==> bytes@[j] != 0,
        decreases bytes@.len() - i,
    {
        i += 1;
    }
    proof {
        lemma_text_len_is(bytes@, i as int);
    }
    i
}

/// Wraps what the engine's build step returned: a handle for a matcher,
/// nothing for an error.
pub fn handle_of(
    outcome: Result<regex_automata::meta::Regex, regex_automata::meta::BuildError>,
) -> (handle: Option<AifwRegex>)
    ensures
        match outcome {
            Ok(matcher) => handle matches Some(h) && h.matcher() == matcher,
            Err(_) => handle is None,
        },
{
    match outcome {
        Ok(re) => Some(AifwRegex { re }),
        Err(_) => None,
    }
}

/// Compiles a pattern given as a zero-terminated byte string.
///
/// Returns no handle for an absent buffer, for text that is not well-formed
/// UTF-8, for a pattern that the engine does not parse and for one that it
/// does not build; in every other case the handle of the engine's matcher for
/// the text before the terminator.
pub fn aifw_regex_compile(pattern: Option<&[u8]>) -> (handle: Option<AifwRegex>)
    ensures
        match handle {
            Some(h) => pattern matches Some(bytes) && compile_result(Some(bytes@)) == Some(
                h.matcher(),
            ),
            None => match pattern {
                Some(bytes) => compile_result(Some(bytes@)) is None,
                None => true,
            },
        },
{
    let bytes = match pattern {
        Some(bytes) => bytes,
        None => return None,
    };
    let len = scan_terminator(bytes);
    proof {
        lemma_text_len(bytes@);
    }
    let text = match text_of(slice_subrange(bytes, 0, len)) {
        Some(text) => text,
        None => return None,
    };
    let hir = match parse(text) {
        Ok(hir) => hir,
        Err(_) => return None,
    };
    handle_of(build(&hir))
}

/// Releases a handle. An absent handle is accepted and nothing happens.
pub fn aifw_regex_free(handle: Option<AifwRegex>) {
    match handle {
        Some(h) => {
            let _released = h;
        },
        None => {},
    }
}

/// The offset at which a search starts: the requested one, or the haystack's
/// length where the request lies beyond it.
pub open spec fn clamped(start: u64, len: nat) -> nat {
    if start as nat <= len {
        start as nat
    } else {
        len
    }
}

/// What a search from `start` finds in a haystack, in offsets of the whole
/// haystack.
pub open spec fn search_from(matcher: regex_automata::meta::Regex, haystack: Seq<u8>, start: u64)
    -> Option<(int, int)> {
    let origin = clamped(start, haystack.len()) as int;
    match leftmost_match(matcher, haystack.skip(origin)) {
        Some(span) => Some((origin + span.0, origin + span.1)),
        None => None,
    }
}

/// When a pattern is compiled: exactly when its buffer is present, its text
/// is well-formed UTF-8, and the engine both parses and builds it. The handle
/// is then that of the engine's matcher for the text.
pub proof fn lemma_compile_outcome(bytes: Seq<u8>)
    ensures
        compile_result(None) is None,
        !valid_utf8(text_bytes(bytes)) ==> compile_result(Some(bytes)) is None,
        valid_utf8(text_bytes(bytes)) ==> compile_result(Some(bytes)) == compiled(
            decode_utf8(text_bytes(bytes)),
        ),
        parsed(decode_utf8(text_bytes(bytes))) is None ==> compile_result(Some(bytes)) is None,
        compile_result(Some(bytes)) is Some <==> {
            &&& valid_utf8(text_bytes(bytes))
            &&& parsed(decode_utf8(text_bytes(bytes))) is Some
            &&& built(parsed(decode_utf8(text_bytes(bytes))).unwrap()) is Some
        },
{
}

/// What stands behind the terminator plays no part: two buffers with the
/// same text compile alike.
pub proof fn lemma_compile_reads_text_only(a: Seq<u8>, b: Seq<u8>)
    requires
        text_bytes(a) == text_bytes(b),
    ensures
        compile_result(Some(a)) == compile_result(Some(b)),
{
}

/// A search from offset 0 reports the engine's leftmost-first match in the
/// whole haystack, at the offsets the engine gives.
pub proof fn lemma_find_from_origin(
    matcher: regex_automata::meta::Regex,
    haystack: Seq<u8>,
    span: (usize, usize),
)
    requires
        leftmost_match(matcher, haystack) == Some(span),
    ensures
        search_from(matcher, haystack, 0) == Some((span.0 as int, span.1 as int)),
{
    assert(haystack.skip(0) =~= haystack);
}

/// A start offset at or beyond the haystack's end is no error: the search
/// is that of the empty region at the end.
pub proof fn lemma_find_past_end_is_clamped(
    matcher: regex_automata::meta::Regex,
    haystack: Seq<u8>,
    start: u64,
)
    requires
        start >= haystack.len(),
    ensures
        search_from(matcher, haystack, start) == (match leftmost_match(matcher, Seq::<u8>::empty()) {
            Some(span) => Some((haystack.len() + span.0, haystack.len() + span.1)),
            None => None,
        }),
{
    assert(haystack.skip(haystack.len() as int) =~= Seq::<u8>::empty());
}

/// A search from the haystack's end or beyond finds nothing, for a matcher
/// that does not match the empty haystack.
pub proof fn lemma_find_past_end(
    matcher: regex_automata::meta::Regex,
    haystack: Seq<u8>,
    start: u64,
)
    requires
        start >= haystack.len(),
        leftmost_match(matcher, Seq::<u8>::empty()) is None,
    ensures
        search_from(matcher, haystack, start) is None,
{
    lemma_find_past_end_is_clamped(matcher, haystack, start);
}

/// Clamps a requested start offset to the haystack's length.
pub fn clamp_start(start: u64, len: usize) -> (origin: usize)
    ensures
        origin == clamped(start, len as nat),
{
    if start <= len as u64 {
        start as usize
    } else {
        len
    }
}

/// Reports what a search of the region from `origin` on returned: for a
/// match, writes its span in offsets of the whole haystack and returns
/// `MATCH`; else leaves both slots as they were and returns `NO_MATCH`.
pub fn report_match(
    origin: usize,
    found: Option<(usize, usize)>,
    out_start: &mut u64,
    out_end: &mut u64,
) -> (code: i32)
    requires
        found matches Some(span) ==> origin + span.0 <= usize::MAX && origin + span.1
            <= usize::MAX,
    ensures
        match found {
            Some(span) => code == MATCH && *final(out_start) == origin + span.0 && *final(out_end)
                == origin + span.1,
            None => code == NO_MATCH && *final(out_start) == *old(out_start) && *final(out_end)
                == *old(out_end),
        },
{
    match found {
        Some(span) => {
            *out_start = (origin + span.0) as u64;
            *out_end = (origin + span.1) as u64;
            MATCH
        },
        None => NO_MATCH,
    }
}

/// Searches a haystack from a start offset for the leftmost-first match.
///
/// Returns `ERROR`, writing nothing, where the handle, the haystack or a slot
/// is absent. Else searches the region from the clamped offset to the end:
/// on a match writes its span in offsets of the whole haystack and returns
/// `MATCH`; else writes nothing and returns `NO_MATCH`.
pub fn aifw_regex_find(
    handle: Option<&AifwRegex>,
    haystack: Option<&[u8]>,
    start: u64,
    out_start: Option<&mut u64>,
    out_end: Option<&mut u64>,
) -> (code: i32)
    ensures
        match (handle, haystack, out_start, out_end) {
            (Some(h), Some(hay), Some(s), Some(e)) => match search_from(h.matcher(), hay@, start) {
                Some(span) => {
                    &&& code == MATCH
                    &&& *final(s) == span.0
                    &&& *final(e) == span.1
                    &&& clamped(start, hay@.len()) <= span.0 <= span.1 <= hay@.len()
                },
                None => code == NO_MATCH && *final(s) == *s && *final(e) == *e,
            },
            (_, _, s, e) => {
                &&& code == ERROR
                &&& s matches Some(slot) ==> *final(slot) == *slot
                &&& e matches Some(slot) ==> *final(slot) == *slot
            },
        },
{
    let (h, hay, s, e) = match (handle, haystack, out_start, out_end) {
        (Some(h), Some(hay), Some(s), Some(e)) => (h, hay, s, e),
        _ => return ERROR,
    };
    let origin = clamp_start(start, hay.len());
    let region = slice_subrange(hay, origin, hay.len());
    let found = find(&h.re, region);
    report_match(origin, found, s, e)
}

} // verus!
