//! Span locator: given a file's raw text and a function name, finds the
//! first declaration of that exact name and computes the removable byte
//! range: from the start of the line holding the declaration (or its
//! documentation block, when one stands complete immediately above) through
//! the end of the line holding the end of the body (brace-delimited) or of
//! the declaration (semicolon-terminated).

use vstd::prelude::*;
use crate::scan::decl_at;
use crate::scan::decl_name;
use crate::scan::decl_end;
use crate::scan::lemma_decl_bounds;
use crate::scan::try_decl_at;
use crate::text::is_space_byte;
use crate::text::space_byte;
use crate::text::OPEN_BRACE;
use crate::text::CLOSE_BRACE;
use crate::text::SEMICOLON;
use crate::text::SLASH;
use crate::text::ASTERISK;
use crate::text::LINE_FEED;

verus! {

/// First position at or after `i` where a declaration header of exactly
/// `name` begins.
pub open spec fn find_decl_from(s: Seq<u8>, name: Seq<u8>, i: int) -> Option<int>
    decreases s.len() - i,
        when 0 <= i
{
    if i >= s.len() {
        None
    } else if decl_at(s, i) && decl_name(s, i) == name {
        Some(i)
    } else {
        find_decl_from(s, name, i + 1)
    }
}

pub proof fn lemma_find_decl_from(s: Seq<u8>, name: Seq<u8>, i: int)
    requires
        0 <= i,
    ensures
        match find_decl_from(s, name, i) {
            Some(p) => i <= p < s.len() && decl_at(s, p) && decl_name(s, p) == name,
            None => true,
        },
    decreases s.len() - i,
{
    if i < s.len() && !(decl_at(s, i) && decl_name(s, i) == name) {
        lemma_find_decl_from(s, name, i + 1);
    }
}

/// First position at or after `i` holding an opening brace or a semicolon.
pub open spec fn find_body_start(s: Seq<u8>, i: int) -> Option<int>
    decreases s.len() - i,
        when 0 <= i
{
    if i >= s.len() {
        None
    } else if s[i] == OPEN_BRACE || s[i] == SEMICOLON {
        Some(i)
    } else {
        find_body_start(s, i + 1)
    }
}

pub proof fn lemma_find_body_start(s: Seq<u8>, i: int)
    requires
        0 <= i,
    ensures
        match find_body_start(s, i) {
            Some(q) => i <= q < s.len() && (s[q] == OPEN_BRACE || s[q] == SEMICOLON),
            None => true,
        },
    decreases s.len() - i,
{
    if i < s.len() && !(s[i] == OPEN_BRACE || s[i] == SEMICOLON) {
        lemma_find_body_start(s, i + 1);
    }
}

/// The contribution of the byte at `k` to the brace-nesting depth.
pub open spec fn byte_depth(s: Seq<u8>, k: int) -> int {
    if s[k] == OPEN_BRACE {
        1
    } else if s[k] == CLOSE_BRACE {
        -1
    } else {
        0
    }
}

/// Scanning from `i` at nesting depth `depth`, the position just after the
/// brace that brings the depth back to zero, or None when the nesting never
/// closes before end of text.
pub open spec fn brace_scan(s: Seq<u8>, i: int, depth: int) -> Option<int>
    decreases s.len() - i,
        when 0 <= i
{
    if i >= s.len() {
        None
    } else if depth + byte_depth(s, i) == 0 {
        Some(i + 1)
    } else {
        brace_scan(s, i + 1, depth + byte_depth(s, i))
    }
}

/// Change of the brace-nesting depth over the range `[i, j)`.
pub open spec fn depth_change(s: Seq<u8>, i: int, j: int) -> int
    decreases j - i,
        when i <= j
{
    if j <= i {
        0
    } else {
        depth_change(s, i, j - 1) + byte_depth(s, j - 1)
    }
}

pub proof fn lemma_depth_change_left(s: Seq<u8>, i: int, j: int)
    requires
        i < j,
    ensures
        depth_change(s, i, j) == byte_depth(s, i) + depth_change(s, i + 1, j),
    decreases j - i,
{
    if i + 1 < j {
        lemma_depth_change_left(s, i, j - 1);
        assert(depth_change(s, i, j) == depth_change(s, i, j - 1) + byte_depth(s, j - 1));
        assert(depth_change(s, i + 1, j) == depth_change(s, i + 1, j - 1) + byte_depth(s, j - 1));
    } else {
        assert(depth_change(s, i, j) == depth_change(s, i, i) + byte_depth(s, i));
        assert(depth_change(s, i, i) == 0);
        assert(depth_change(s, i + 1, j) == 0);
    }
}

/// Brace-depth correctness: when the scan that enters a body at depth
/// `depth` returns `e`, the closing brace stands at `e - 1`, the nesting
/// depth stays positive strictly inside the range, and reaches zero exactly
/// at the close — nested brace-delimited blocks are consumed whole.
pub proof fn lemma_brace_scan_balanced(s: Seq<u8>, i: int, depth: int, e: int)
    requires
        0 <= i,
        depth >= 1,
        brace_scan(s, i, depth) == Some(e),
    ensures
        i < e <= s.len(),
        s[e - 1] == CLOSE_BRACE,
        depth + depth_change(s, i, e) == 0,
        forall|m: int| i <= m < e ==> depth + depth_change(s, i, m) >= 1,
    decreases s.len() - i,
{
    let d = depth + byte_depth(s, i);
    if d == 0 {
        assert(depth_change(s, i, i + 1) == depth_change(s, i, i) + byte_depth(s, i));
    } else {
        assert(d >= 1);
        lemma_brace_scan_balanced(s, i + 1, d, e);
        assert forall|m: int| i <= m < e implies depth + depth_change(s, i, m) >= 1 by {
            if m > i {
                lemma_depth_change_left(s, i, m);
            }
        }
        lemma_depth_change_left(s, i, e);
    }
}

/// `/**` stands at position `j`.
pub open spec fn doc_open_at(s: Seq<u8>, j: int) -> bool {
    &&& 0 <= j
    &&& j + 3 <= s.len()
    &&& s[j] == SLASH
    &&& s[j + 1] == ASTERISK
    &&& s[j + 2] == ASTERISK
}

/// Greatest position `j` with `j + 3 <= p` where `/**` stands at `j`.
pub open spec fn last_doc_open_before(s: Seq<u8>, p: int) -> Option<int>
    decreases p,
        when p <= s.len()
{
    if p < 3 {
        None
    } else if s[p - 3] == SLASH && s[p - 2] == ASTERISK && s[p - 1] == ASTERISK {
        Some(p - 3)
    } else {
        last_doc_open_before(s, p - 1)
    }
}

pub proof fn lemma_last_doc_open_before(s: Seq<u8>, p: int)
    requires
        0 <= p <= s.len(),
    ensures
        match last_doc_open_before(s, p) {
            Some(j) => 0 <= j && j + 3 <= p && doc_open_at(s, j),
            None => true,
        },
    decreases p,
{
    if p >= 3 && !(s[p - 3] == SLASH && s[p - 2] == ASTERISK && s[p - 1] == ASTERISK) {
        lemma_last_doc_open_before(s, p - 1);
    }
}

/// End of the range `[j, p)` after trailing whitespace is dropped.
pub open spec fn trim_end_idx(s: Seq<u8>, j: int, p: int) -> int
    decreases p - j,
        when j <= p
{
    if p <= j {
        j
    } else if is_space_byte(s[p - 1]) {
        trim_end_idx(s, j, p - 1)
    } else {
        p
    }
}

pub proof fn lemma_trim_end_idx(s: Seq<u8>, j: int, p: int)
    requires
        j <= p,
    ensures
        j <= trim_end_idx(s, j, p) <= p,
    decreases p - j,
{
    if p > j && is_space_byte(s[p - 1]) {
        lemma_trim_end_idx(s, j, p - 1);
    }
}

/// The text from the doc opener at `j` up to the declaration at `p`, with
/// trailing whitespace dropped, ends with `*/`: the block stands complete
/// between the opener and the declaration.
pub open spec fn doc_block_closed(s: Seq<u8>, j: int, p: int) -> bool {
    let e = trim_end_idx(s, j, p);
    e - j >= 2 && s[e - 2] == ASTERISK && s[e - 1] == SLASH
}

/// Start of the removable text once the documentation block is absorbed:
/// the position of the nearest `/**` above the declaration at `p` when the
/// text between the two is a complete block, else `p` itself.
pub open spec fn doc_adjusted_start(s: Seq<u8>, p: int) -> int {
    match last_doc_open_before(s, p) {
        Some(j) => if doc_block_closed(s, j, p) {
            j
        } else {
            p
        },
        None => p,
    }
}

/// Start of the line containing position `p`: one past the last line feed
/// before `p`, or the start of text.
pub open spec fn line_start_before(s: Seq<u8>, p: int) -> int
    decreases p,
        when 0 <= p
{
    if p <= 0 {
        0
    } else if s[p - 1] == LINE_FEED {
        p
    } else {
        line_start_before(s, p - 1)
    }
}

pub proof fn lemma_line_start_before(s: Seq<u8>, p: int)
    requires
        0 <= p,
    ensures
        0 <= line_start_before(s, p) <= p,
        line_start_before(s, p) == 0 || s[line_start_before(s, p) - 1] == LINE_FEED,
    decreases p,
{
    if p > 0 && s[p - 1] != LINE_FEED {
        lemma_line_start_before(s, p - 1);
    }
}

/// Start of the line following position `e`: one past the first line feed at
/// or after `e`, or the end of text.
pub open spec fn next_line_start(s: Seq<u8>, e: int) -> int
    decreases s.len() - e,
        when 0 <= e <= s.len()
{
    if e >= s.len() {
        s.len() as int
    } else if s[e] == LINE_FEED {
        e + 1
    } else {
        next_line_start(s, e + 1)
    }
}

pub proof fn lemma_next_line_start(s: Seq<u8>, e: int)
    requires
        0 <= e <= s.len(),
    ensures
        e <= next_line_start(s, e) <= s.len(),
    decreases s.len() - e,
{
    if e < s.len() && s[e] != LINE_FEED {
        lemma_next_line_start(s, e + 1);
    }
}

/// End of the declaration or body of the header at `p`: just after the
/// matching close brace of a brace-delimited body, or just after a
/// semicolon when one comes first; None when neither is found or the
/// nesting never closes.
pub open spec fn raw_span_end(s: Seq<u8>, p: int) -> Option<int> {
    match find_body_start(s, decl_end(s, p)) {
        None => None,
        Some(q) => if s[q] == SEMICOLON {
            Some(q + 1)
        } else {
            brace_scan(s, q + 1, 1)
        },
    }
}

/// The removable span `[start, end)` for the first declaration of `name` in
/// `s`: line-aligned at both ends, with a complete documentation block
/// immediately above the declaration absorbed.  None when `name` has no
/// declaration in `s` or its body's brace nesting never closes.
pub open spec fn find_span(s: Seq<u8>, name: Seq<u8>) -> Option<(int, int)> {
    match find_decl_from(s, name, 0) {
        None => None,
        Some(p) => match raw_span_end(s, p) {
            None => None,
            Some(e) => Some(
                (line_start_before(s, doc_adjusted_start(s, p)), next_line_start(s, e)),
            ),
        },
    }
}

/// First declaration header of exactly `name`: its start and the position
/// just after its opening parenthesis.
pub fn find_decl_exec(s: &[u8], name: &[u8]) -> (r: Option<(usize, usize)>)
    ensures
        match r {
            Some(t) => find_decl_from(s@, name@, 0) == Some(t.0 as int) && t.1 == decl_end(
                s@,
                t.0 as int,
            ) && decl_at(s@, t.0 as int),
            None => find_decl_from(s@, name@, 0) is None,
        },
{
    let ghost sv = s@;
    let mut i: usize = 0;
    while i < s.len()
        invariant
            sv == s@,
            0 <= i <= sv.len(),
            find_decl_from(sv, name@, 0) == find_decl_from(sv, name@, i as int),
        decreases sv.len() - i,
    {
        match try_decl_at(s, i) {
            Some(t) => {
                proof {
                    lemma_decl_bounds(sv, i as int);
                }
                if t.1 - t.0 == name.len() && crate::count::match_at(s, name, t.0) {
                    proof {
                        assert(t.0 + name@.len() == t.1);
                        assert(sv.subrange(t.0 as int, t.1 as int) == name@);
                        assert(decl_name(sv, i as int) == name@);
                    }
                    return Some((i, t.2));
                }
                proof {
                    if decl_name(sv, i as int) == name@ {
                        assert(t.1 - t.0 == name@.len());
                        assert(crate::count::contains_at(sv, name@, t.0 as int));
                    }
                }
            },
            None => {},
        }
        i = i + 1;
    }
    None
}

/// First position at or after `i` holding an opening brace or a semicolon.
fn find_body_start_exec(s: &[u8], i: usize) -> (r: Option<usize>)
    requires
        i <= s@.len(),
    ensures
        match r {
            Some(q) => find_body_start(s@, i as int) == Some(q as int) && i <= q < s@.len(),
            None => find_body_start(s@, i as int) is None,
        },
{
    let mut j = i;
    while j < s.len()
        invariant
            i <= j <= s@.len(),
            find_body_start(s@, i as int) == find_body_start(s@, j as int),
        decreases s@.len() - j,
    {
        if s[j] == OPEN_BRACE || s[j] == SEMICOLON {
            return Some(j);
        }
        j = j + 1;
    }
    None
}

/// Consumes matching braces from `start` at depth one; the position just
/// after the brace that closes the body, or None when the nesting never
/// closes.
fn brace_scan_exec(s: &[u8], start: usize) -> (r: Option<usize>)
    requires
        1 <= start <= s@.len(),
    ensures
        match r {
            Some(e) => brace_scan(s@, start as int, 1) == Some(e as int) && start < e <= s@.len(),
            None => brace_scan(s@, start as int, 1) is None,
        },
{
    let mut i = start;
    let mut depth: usize = 1;
    while i < s.len()
        invariant
            1 <= start <= i <= s@.len(),
            1 <= depth,
            depth <= 1 + i - start,
            brace_scan(s@, start as int, 1) == brace_scan(s@, i as int, depth as int),
        decreases s@.len() - i,
    {
        let b = s[i];
        if b == CLOSE_BRACE {
            if depth == 1 {
                return Some(i + 1);
            }
            depth = depth - 1;
        } else if b == OPEN_BRACE {
            depth = depth + 1;
        }
        i = i + 1;
    }
    None
}

/// Greatest position `j` with `j + 3 <= p` where `/**` stands at `j`.
fn last_doc_open_exec(s: &[u8], p: usize) -> (r: Option<usize>)
    requires
        p <= s@.len(),
    ensures
        match r {
            Some(j) => last_doc_open_before(s@, p as int) == Some(j as int) && j + 3 <= p,
            None => last_doc_open_before(s@, p as int) is None,
        },
{
    let mut q = p;
    while q >= 3
        invariant
            0 <= q <= p <= s@.len(),
            last_doc_open_before(s@, p as int) == last_doc_open_before(s@, q as int),
        decreases q,
    {
        if s[q - 3] == SLASH && s[q - 2] == ASTERISK && s[q - 1] == ASTERISK {
            return Some(q - 3);
        }
        q = q - 1;
    }
    None
}

/// Whether the text of `[j, p)` ends, after trailing whitespace, with `*/`.
fn doc_block_closed_exec(s: &[u8], j: usize, p: usize) -> (r: bool)
    requires
        j <= p <= s@.len(),
    ensures
        r == doc_block_closed(s@, j as int, p as int),
{
    let mut e = p;
    while e > j && space_byte(s[e - 1])
        invariant
            j <= e <= p <= s@.len(),
            trim_end_idx(s@, j as int, p as int) == trim_end_idx(s@, j as int, e as int),
        decreases e,
    {
        e = e - 1;
    }
    e - j >= 2 && s[e - 2] == ASTERISK && s[e - 1] == SLASH
}

/// Start of the line containing position `p`.
fn line_start_exec(s: &[u8], p: usize) -> (r: usize)
    requires
        p <= s@.len(),
    ensures
        r == line_start_before(s@, p as int),
        r <= p,
{
    let mut q = p;
    while q > 0
        invariant
            0 <= q <= p <= s@.len(),
            line_start_before(s@, p as int) == line_start_before(s@, q as int),
        decreases q,
    {
        if s[q - 1] == LINE_FEED {
            return q;
        }
        q = q - 1;
    }
    0
}

/// Start of the line following position `e`.
fn next_line_start_exec(s: &[u8], e: usize) -> (r: usize)
    requires
        e <= s@.len(),
    ensures
        r == next_line_start(s@, e as int),
        e <= r <= s@.len(),
{
    let mut q = e;
    while q < s.len()
        invariant
            e <= q <= s@.len(),
            next_line_start(s@, e as int) == next_line_start(s@, q as int),
        decreases s@.len() - q,
    {
        if s[q] == LINE_FEED {
            return q + 1;
        }
        q = q + 1;
    }
    q
}

/// Span locator: the removable span `[start, end)` for the first declaration
/// of `name` in `content`, line-aligned at both ends, a complete
/// documentation block immediately above the declaration absorbed.  None
/// when `name` has no declaration or its body's brace nesting never closes.
pub fn find_removal_span(content: &[u8], name: &[u8]) -> (r: Option<(usize, usize)>)
    ensures
        match r {
            Some(t) => find_span(content@, name@) == Some((t.0 as int, t.1 as int)) && t.0 <= t.1
                <= content@.len(),
            None => find_span(content@, name@) is None,
        },
{
    let ghost sv = content@;
    let pd = match find_decl_exec(content, name) {
        None => {
            return None;
        },
        Some(pd) => pd,
    };
    let p = pd.0;
    proof {
        lemma_find_decl_from(sv, name@, 0);
        lemma_decl_bounds(sv, p as int);
    }
    let q = match find_body_start_exec(content, pd.1) {
        None => {
            return None;
        },
        Some(q) => q,
    };
    let e = if content[q] == SEMICOLON {
        q + 1
    } else {
        match brace_scan_exec(content, q + 1) {
            None => {
                return None;
            },
            Some(e) => e,
        }
    };
    proof {
        assert(raw_span_end(sv, p as int) == Some(e as int));
    }
    let adjusted = match last_doc_open_exec(content, p) {
        Some(j) => if doc_block_closed_exec(content, j, p) {
            j
        } else {
            p
        },
        None => p,
    };
    proof {
        assert(adjusted == doc_adjusted_start(sv, p as int));
    }
    let a = line_start_exec(content, adjusted);
    let b = next_line_start_exec(content, e);
    proof {
        assert(a <= p < e <= b);
    }
    Some((a, b))
}

/// A found span is well-formed: within the text, ordered, and it contains
/// the declared name's bytes.
pub proof fn lemma_find_span_bounds(s: Seq<u8>, name: Seq<u8>)
    requires
        find_span(s, name) is Some,
    ensures
        ({
            let span = find_span(s, name)->Some_0;
            &&& 0 <= span.0 <= span.1 <= s.len()
            &&& (span.0 == 0 || s[span.0 - 1] == LINE_FEED)
            &&& exists|i: int|
                span.0 <= i && i + name.len() <= span.1 && crate::count::contains_at(s, name, i)
        }),
{
    let p = find_decl_from(s, name, 0)->Some_0;
    lemma_find_decl_from(s, name, 0);
    lemma_decl_bounds(s, p);
    let ns = crate::scan::decl_name_start(s, p);
    let ne = crate::scan::decl_name_end(s, p);
    let e = raw_span_end(s, p)->Some_0;
    lemma_find_body_start(s, decl_end(s, p));
    let q = find_body_start(s, decl_end(s, p))->Some_0;
    if s[q] != SEMICOLON {
        lemma_brace_scan_balanced(s, q + 1, 1, e);
    }
    lemma_last_doc_open_before(s, p);
    lemma_line_start_before(s, doc_adjusted_start(s, p));
    lemma_next_line_start(s, e);
    let a = line_start_before(s, doc_adjusted_start(s, p));
    let b = next_line_start(s, e);
    assert(a <= doc_adjusted_start(s, p) <= p);
    assert(ne <= q) by {
        crate::scan::lemma_space_run_end(s, ne);
    }
    assert(crate::count::contains_at(s, name, ns)) by {
        assert(s.subrange(ns, ne) == name);
        assert(ns + name.len() == ne);
    }
    assert(a <= ns && ne <= b);
}

} // verus!
