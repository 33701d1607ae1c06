//! Name matcher: finds the ordered sequence of function names declared in a
//! file's raw text.
//!
//! A declaration header is the keyword `function` standing on a word boundary,
//! followed by at least one whitespace byte, an identifier, optional
//! whitespace, and an opening parenthesis.  Matching is purely lexical: a
//! header inside a comment or a string literal is matched like any other.

use vstd::prelude::*;
use crate::text::is_ident_byte;
use crate::text::is_space_byte;
use crate::text::ident_byte;
use crate::text::space_byte;
use crate::text::OPEN_PAREN;

verus! {

/// End of the maximal run of whitespace bytes beginning at `i`.
pub open spec fn space_run_end(s: Seq<u8>, i: int) -> int
    decreases s.len() - i,
{
    if i < 0 || i >= s.len() {
        i
    } else if is_space_byte(s[i]) {
        space_run_end(s, i + 1)
    } else {
        i
    }
}

/// End of the maximal run of identifier bytes beginning at `i`.
pub open spec fn ident_run_end(s: Seq<u8>, i: int) -> int
    decreases s.len() - i,
{
    if i < 0 || i >= s.len() {
        i
    } else if is_ident_byte(s[i]) {
        ident_run_end(s, i + 1)
    } else {
        i
    }
}

pub proof fn lemma_space_run_end(s: Seq<u8>, i: int)
    requires
        0 <= i <= s.len(),
    ensures
        i <= space_run_end(s, i) <= s.len(),
        forall|j: int| i <= j < space_run_end(s, i) ==> is_space_byte(s[j]),
        space_run_end(s, i) < s.len() ==> !is_space_byte(s[space_run_end(s, i)]),
    decreases s.len() - i,
{
    if i < s.len() && is_space_byte(s[i]) {
        lemma_space_run_end(s, i + 1);
    }
}

pub proof fn lemma_ident_run_end(s: Seq<u8>, i: int)
    requires
        0 <= i <= s.len(),
    ensures
        i <= ident_run_end(s, i) <= s.len(),
        forall|j: int| i <= j < ident_run_end(s, i) ==> is_ident_byte(s[j]),
        ident_run_end(s, i) < s.len() ==> !is_ident_byte(s[ident_run_end(s, i)]),
    decreases s.len() - i,
{
    if i < s.len() && is_ident_byte(s[i]) {
        lemma_ident_run_end(s, i + 1);
    }
}

/// The keyword `function` stands at position `i`.
pub open spec fn keyword_at(s: Seq<u8>, i: int) -> bool {
    &&& 0 <= i
    &&& i + 8 <= s.len()
    &&& s[i] == 102u8  // f
    &&& s[i + 1] == 117u8  // u
    &&& s[i + 2] == 110u8  // n
    &&& s[i + 3] == 99u8  // c
    &&& s[i + 4] == 116u8  // t
    &&& s[i + 5] == 105u8  // i
    &&& s[i + 6] == 111u8  // o
    &&& s[i + 7] == 110u8  // n
}

/// Start of the declared name in a header at `i`: first byte after the
/// whitespace run that follows the keyword.
pub open spec fn decl_name_start(s: Seq<u8>, i: int) -> int {
    space_run_end(s, i + 8)
}

/// End of the declared name: end of the identifier run at its start.
pub open spec fn decl_name_end(s: Seq<u8>, i: int) -> int {
    ident_run_end(s, decl_name_start(s, i))
}

/// Position of the opening parenthesis of a header at `i`.
pub open spec fn decl_paren(s: Seq<u8>, i: int) -> int {
    space_run_end(s, decl_name_end(s, i))
}

/// A declaration header matches at position `i`.
pub open spec fn decl_at(s: Seq<u8>, i: int) -> bool {
    &&& keyword_at(s, i)
    &&& (i == 0 || !is_ident_byte(s[i - 1]))
    &&& decl_name_start(s, i) > i + 8
    &&& decl_name_end(s, i) > decl_name_start(s, i)
    &&& decl_paren(s, i) < s.len()
    &&& s[decl_paren(s, i)] == OPEN_PAREN
}

/// The name declared by the header at `i`.
pub open spec fn decl_name(s: Seq<u8>, i: int) -> Seq<u8> {
    s.subrange(decl_name_start(s, i), decl_name_end(s, i))
}

/// Position immediately after the opening parenthesis of the header at `i`.
pub open spec fn decl_end(s: Seq<u8>, i: int) -> int {
    decl_paren(s, i) + 1
}

pub proof fn lemma_decl_bounds(s: Seq<u8>, i: int)
    requires
        decl_at(s, i),
    ensures
        i + 8 < decl_name_start(s, i),
        decl_name_start(s, i) < decl_name_end(s, i),
        decl_name_end(s, i) <= decl_paren(s, i),
        decl_paren(s, i) < s.len(),
        decl_name(s, i).len() >= 1,
        forall|j: int| 0 <= j < decl_name(s, i).len() ==> is_ident_byte(decl_name(s, i)[j]),
{
    lemma_space_run_end(s, i + 8);
    lemma_ident_run_end(s, decl_name_start(s, i));
    lemma_space_run_end(s, decl_name_end(s, i));
}

/// The names of all declaration headers at positions at or after `i`, in
/// source order; scanning resumes after each header's opening parenthesis, so
/// matched headers do not overlap.
pub open spec fn decl_names_from(s: Seq<u8>, i: int) -> Seq<Seq<u8>>
    decreases s.len() - i,
        when 0 <= i
        via decl_names_from_decreases
{
    if i >= s.len() {
        seq![]
    } else if decl_at(s, i) {
        seq![decl_name(s, i)] + decl_names_from(s, decl_end(s, i))
    } else {
        decl_names_from(s, i + 1)
    }
}

#[via_fn]
proof fn decl_names_from_decreases(s: Seq<u8>, i: int) {
    if i < s.len() && decl_at(s, i) {
        lemma_decl_bounds(s, i);
    }
}

/// The ordered sequence of names declared in `s`, duplicates preserved.
pub open spec fn decl_names(s: Seq<u8>) -> Seq<Seq<u8>> {
    decl_names_from(s, 0)
}

/// Copy of the byte range `[a, b)` of `s`.
pub fn copy_range(s: &[u8], a: usize, b: usize) -> (r: Vec<u8>)
    requires
        a <= b <= s@.len(),
    ensures
        r@ == s@.subrange(a as int, b as int),
{
    let sub = vstd::slice::slice_subrange(s, a, b);
    vstd::slice::slice_to_vec(sub)
}

/// Executable scan to the end of the whitespace run beginning at `i`.
pub fn space_run_end_exec(s: &[u8], i: usize) -> (r: usize)
    requires
        i <= s@.len(),
    ensures
        r == space_run_end(s@, i as int),
        i <= r <= s@.len(),
{
    let mut j = i;
    while j < s.len() && space_byte(s[j])
        invariant
            i <= j <= s@.len(),
            space_run_end(s@, i as int) == space_run_end(s@, j as int),
        decreases s@.len() - j,
    {
        j = j + 1;
    }
    j
}

/// Executable scan to the end of the identifier run beginning at `i`.
pub fn ident_run_end_exec(s: &[u8], i: usize) -> (r: usize)
    requires
        i <= s@.len(),
    ensures
        r == ident_run_end(s@, i as int),
        i <= r <= s@.len(),
{
    let mut j = i;
    while j < s.len() && ident_byte(s[j])
        invariant
            i <= j <= s@.len(),
            ident_run_end(s@, i as int) == ident_run_end(s@, j as int),
        decreases s@.len() - j,
    {
        j = j + 1;
    }
    j
}

/// If a declaration header matches at `i`, return the name's start and end
/// and the position just after the header's opening parenthesis.
pub(crate) fn try_decl_at(s: &[u8], i: usize) -> (r: Option<(usize, usize, usize)>)
    requires
        i < s@.len(),
    ensures
        match r {
            Some(t) => decl_at(s@, i as int) && t.0 == decl_name_start(s@, i as int) && t.1
                == decl_name_end(s@, i as int) && t.2 == decl_end(s@, i as int),
            None => !decl_at(s@, i as int),
        },
{
    if s.len() - i < 8 {
        return None;
    }
    if !(s[i] == 102 && s[i + 1] == 117 && s[i + 2] == 110 && s[i + 3] == 99 && s[i + 4] == 116
        && s[i + 5] == 105 && s[i + 6] == 111 && s[i + 7] == 110) {
        return None;
    }
    if i > 0 && ident_byte(s[i - 1]) {
        return None;
    }
    let ns = space_run_end_exec(s, i + 8);
    if ns == i + 8 {
        return None;
    }
    let ne = ident_run_end_exec(s, ns);
    if ne == ns {
        return None;
    }
    let p = space_run_end_exec(s, ne);
    if p == s.len() || s[p] != OPEN_PAREN {
        return None;
    }
    Some((ns, ne, p + 1))
}

/// Name matcher: the ordered sequence of function names declared in
/// `content`, in source order, duplicates preserved.
pub fn extract_functions(content: &[u8]) -> (names: Vec<Vec<u8>>)
    ensures
        names.deep_view() == decl_names(content@),
        forall|k: int|
            0 <= k < names.deep_view().len() ==> #[trigger] names.deep_view()[k].len() >= 1,
{
    let ghost s = content@;
    let mut names: Vec<Vec<u8>> = Vec::new();
    let mut i: usize = 0;
    proof {
        assert(names.deep_view() =~= Seq::<Seq<u8>>::empty());
        assert(names.deep_view() + decl_names_from(s, 0) =~= decl_names(s));
    }
    while i < content.len()
        invariant
            s == content@,
            i <= s.len(),
            names.deep_view() + decl_names_from(s, i as int) == decl_names(s),
            forall|k: int|
                0 <= k < names.deep_view().len() ==> #[trigger] names.deep_view()[k].len() >= 1,
        decreases s.len() - i,
    {
        match try_decl_at(content, i) {
            Some(t) => {
                proof {
                    lemma_decl_bounds(s, i as int);
                }
                let name = copy_range(content, t.0, t.1);
                let ghost old_dv = names.deep_view();
                names.push(name);
                proof {
                    assert(name.deep_view() =~= name@);
                    assert(name@ == decl_name(s, i as int));
                    assert(decl_names_from(s, i as int) == seq![decl_name(s, i as int)]
                        + decl_names_from(s, decl_end(s, i as int)));
                    assert(names.deep_view() =~= old_dv.push(name.deep_view()));
                    assert(names.deep_view() + decl_names_from(s, t.2 as int) =~= old_dv
                        + decl_names_from(s, i as int));
                }
                i = t.2;
            },
            None => {
                i = i + 1;
            },
        }
    }
    proof {
        assert(names.deep_view() + decl_names_from(s, i as int) =~= names.deep_view());
    }
    names
}

} // verus!
