//! Deletion engine: applies the span locator to each name marked for
//! removal and excises each resolved span from a single in-memory buffer,
//! one at a time, in the order the names were supplied, so offsets are
//! always computed against the current buffer.

use vstd::prelude::*;
use crate::count::contains_at;
use crate::scan::decl_at;
use crate::scan::decl_name;
use crate::scan::decl_end;
use crate::scan::decl_names;
use crate::scan::decl_names_from;
use crate::scan::decl_name_start;
use crate::scan::decl_name_end;
use crate::scan::lemma_decl_bounds;
use crate::span::find_span;
use crate::span::find_removal_span;

verus! {

/// `s` with the byte range `[a, b)` removed.
pub open spec fn remove_span(s: Seq<u8>, a: int, b: int) -> Seq<u8> {
    s.subrange(0, a) + s.subrange(b, s.len() as int)
}

/// One deletion step: excise the located span of `name`, or leave `s`
/// unchanged when no span is found.
pub open spec fn remove_one(s: Seq<u8>, name: Seq<u8>) -> Seq<u8> {
    match find_span(s, name) {
        Some(t) => remove_span(s, t.0, t.1),
        None => s,
    }
}

/// The buffer after the names at or after `k` are processed in order, each
/// against the buffer as the previous removals left it.
pub open spec fn remove_all_from(s: Seq<u8>, names: Seq<Seq<u8>>, k: int) -> Seq<u8>
    decreases names.len() - k,
        when 0 <= k
{
    if k >= names.len() {
        s
    } else {
        remove_all_from(remove_one(s, names[k]), names, k + 1)
    }
}

/// The buffer after all names are processed in order.
pub open spec fn remove_all(s: Seq<u8>, names: Seq<Seq<u8>>) -> Seq<u8> {
    remove_all_from(s, names, 0)
}

/// The names at or after `k` whose span was found and excised, in
/// processing order.
pub open spec fn removed_names_from(s: Seq<u8>, names: Seq<Seq<u8>>, k: int) -> Seq<Seq<u8>>
    decreases names.len() - k,
        when 0 <= k
{
    if k >= names.len() {
        seq![]
    } else {
        let rest = removed_names_from(remove_one(s, names[k]), names, k + 1);
        if find_span(s, names[k]) is Some {
            seq![names[k]] + rest
        } else {
            rest
        }
    }
}

/// The names whose span was found and excised, in processing order.
pub open spec fn removed_names(s: Seq<u8>, names: Seq<Seq<u8>>) -> Seq<Seq<u8>> {
    removed_names_from(s, names, 0)
}

/// Deletion engine: excises the located span of each name in order from the
/// evolving buffer.  Returns the new buffer and the names actually removed
/// (those with a resolvable span), in order.
pub fn remove_unused_functions(content: &[u8], unused: &Vec<Vec<u8>>) -> (r: (Vec<u8>, Vec<
    Vec<u8>,
>))
    ensures
        r.0@ == remove_all(content@, unused.deep_view()),
        r.1.deep_view() == removed_names(content@, unused.deep_view()),
{
    let ghost names = unused.deep_view();
    let mut buf: Vec<u8> = vstd::slice::slice_to_vec(content);
    let mut removed: Vec<Vec<u8>> = Vec::new();
    let mut k: usize = 0;
    proof {
        assert(removed.deep_view() =~= Seq::<Seq<u8>>::empty());
        assert(removed.deep_view() + removed_names_from(content@, names, 0) =~= removed_names_from(
            content@,
            names,
            0,
        ));
    }
    while k < unused.len()
        invariant
            names == unused.deep_view(),
            names.len() == unused@.len(),
            0 <= k <= names.len(),
            remove_all_from(buf@, names, k as int) == remove_all(content@, names),
            removed.deep_view() + removed_names_from(buf@, names, k as int) == removed_names(
                content@,
                names,
            ),
        decreases names.len() - k,
    {
        proof {
            assert(unused@[k as int]@ == names[k as int]);
        }
        let ghost old_buf = buf@;
        match find_removal_span(buf.as_slice(), unused[k].as_slice()) {
            Some(t) => {
                let mut tail = crate::scan::copy_range(buf.as_slice(), t.1, buf.len());
                let mut head = crate::scan::copy_range(buf.as_slice(), 0, t.0);
                head.append(&mut tail);
                buf = head;
                proof {
                    assert(buf@ =~= remove_span(old_buf, t.0 as int, t.1 as int));
                    assert(buf@ == remove_one(old_buf, names[k as int]));
                }
                let name = unused[k].clone();
                let ghost old_dv = removed.deep_view();
                proof {
                    assert(name@ == names[k as int]);
                }
                removed.push(name);
                proof {
                    assert(removed.deep_view() =~= old_dv.push(names[k as int]));
                    assert(removed.deep_view() + removed_names_from(buf@, names, k + 1) =~= old_dv
                        + removed_names_from(old_buf, names, k as int));
                }
            },
            None => {
                proof {
                    assert(remove_one(buf@, names[k as int]) == buf@);
                }
            },
        }
        k = k + 1;
    }
    proof {
        assert(removed.deep_view() + removed_names_from(buf@, names, k as int)
            =~= removed.deep_view());
    }
    (buf, removed)
}

/// Round-trip safety: when no functions are selected for removal, the
/// deletion phase hands the buffer back byte-identical.
pub proof fn lemma_empty_selection_roundtrip(s: Seq<u8>, names: Seq<Seq<u8>>)
    requires
        names.len() == 0,
    ensures
        remove_all(s, names) == s,
{
}

/// A name reported by the name matcher stands somewhere in the text: a
/// declaration of `name` contains the bytes of `name`.
pub proof fn lemma_decl_name_occurs(s: Seq<u8>, name: Seq<u8>, i: int)
    requires
        0 <= i,
        decl_names_from(s, i).contains(name),
    ensures
        exists|p: int| #[trigger] contains_at(s, name, p),
    decreases s.len() - i,
{
    if i >= s.len() {
        assert(false);
    } else if decl_at(s, i) {
        lemma_decl_bounds(s, i);
        let rest = decl_names_from(s, decl_end(s, i));
        if name == decl_name(s, i) {
            let ns = decl_name_start(s, i);
            assert(contains_at(s, name, ns)) by {
                assert(s.subrange(ns, decl_name_end(s, i)) == name);
            }
        } else {
            let full = seq![decl_name(s, i)] + rest;
            let idx = choose|idx: int| 0 <= idx < full.len() && full[idx] == name;
            assert(rest[idx - 1] == name);
            assert(rest.contains(name));
            lemma_decl_name_occurs(s, name, decl_end(s, i));
        }
    } else {
        lemma_decl_name_occurs(s, name, i + 1);
    }
}

/// Deletion is idempotent on the set of remaining functions: when every
/// match of `name` in `s` lies inside the excised span `[a, b)` and no
/// match of `name` straddles the seam of the shrunken text, the shrunken
/// text holds no match of `name` at all, so a fresh analysis of it finds no
/// declaration of `name`.
pub proof fn lemma_removed_name_gone(s: Seq<u8>, name: Seq<u8>, a: int, b: int)
    requires
        name.len() >= 1,
        0 <= a <= b <= s.len(),
        forall|i: int| #[trigger] contains_at(s, name, i) ==> a <= i && i + name.len() <= b,
        forall|i: int|
            a - name.len() < i < a ==> !(#[trigger] contains_at(remove_span(s, a, b), name, i)),
    ensures
        forall|i: int| !(#[trigger] contains_at(remove_span(s, a, b), name, i)),
        !decl_names(remove_span(s, a, b)).contains(name),
{
    let t = remove_span(s, a, b);
    assert(t.len() == a + (s.len() - b));
    assert forall|i: int| !(#[trigger] contains_at(t, name, i)) by {
        if contains_at(t, name, i) {
            if i + name.len() <= a {
                assert(s.subrange(i, i + name.len()) =~= t.subrange(i, i + name.len()));
                assert(contains_at(s, name, i));
                assert(false);
            } else if i >= a {
                let j = b + i - a;
                assert(s.subrange(j, j + name.len()) =~= t.subrange(i, i + name.len()));
                assert(contains_at(s, name, j));
                assert(false);
            } else {
                assert(a - name.len() < i < a);
                assert(false);
            }
        }
    }
    if decl_names(t).contains(name) {
        lemma_decl_name_occurs(t, name, 0);
        assert(false);
    }
}

/// Deletion is idempotent on the set of remaining functions: when an
/// identifier name has exactly one match in the text (its declaration site)
/// and the locator resolves a span for it, the excised text holds no match
/// and no declaration of that name, so a fresh analysis finds none of it.
pub proof fn lemma_deletion_idempotent(s: Seq<u8>, name: Seq<u8>, p: int)
    requires
        name.len() >= 1,
        forall|j: int| 0 <= j < name.len() ==> crate::text::is_ident_byte(#[trigger] name[j]),
        find_span(s, name) is Some,
        contains_at(s, name, p),
        forall|q: int| q != p ==> !contains_at(s, name, q),
    ensures
        forall|i: int| !(#[trigger] contains_at(remove_one(s, name), name, i)),
        !decl_names(remove_one(s, name)).contains(name),
{
    let t = find_span(s, name)->Some_0;
    crate::span::lemma_find_span_bounds(s, name);
    let i = choose|i: int|
        t.0 <= i && i + name.len() <= t.1 && #[trigger] contains_at(s, name, i);
    assert(i == p);
    let rm = remove_span(s, t.0, t.1);
    assert(remove_one(s, name) == rm);
    // No match can straddle the seam: the span is line-aligned, so the byte
    // just before it is a line feed, which no identifier name contains.
    assert forall|m: int| t.0 - name.len() < m < t.0 implies !(#[trigger] contains_at(
        rm,
        name,
        m,
    )) by {
        if contains_at(rm, name, m) {
            assert(t.0 >= 1);
            assert(rm[t.0 - 1] == s[t.0 - 1]);
            assert(s[t.0 - 1] == crate::text::LINE_FEED);
            assert(rm.subrange(m, m + name.len())[t.0 - 1 - m] == rm[t.0 - 1]);
            assert(name[t.0 - 1 - m] == crate::text::LINE_FEED);
            assert(crate::text::is_ident_byte(name[t.0 - 1 - m]));
            assert(false);
        }
    }
    lemma_removed_name_gone(s, name, t.0, t.1);
}

} // verus!
