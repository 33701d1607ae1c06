//! Occurrence counter: counts non-overlapping literal matches of a function
//! name across the raw text of every source file under the configured root.
//!
//! The count is a deliberately coarse approximation of "used": it includes
//! the declaration site itself, and a match inside a comment or a string
//! literal counts like any other.

use vstd::prelude::*;

verus! {

/// `name` matches literally at position `i` of `s`.
pub open spec fn contains_at(s: Seq<u8>, name: Seq<u8>, i: int) -> bool {
    &&& 0 <= i
    &&& i + name.len() <= s.len()
    &&& s.subrange(i, i + name.len()) == name
}

/// Number of non-overlapping literal matches of `name` in `s` at or after
/// `i`, counted left to right; a found match resumes just after its end.
pub open spec fn occurrences_from(s: Seq<u8>, name: Seq<u8>, i: int) -> nat
    decreases s.len() - i,
        when 0 <= i && name.len() >= 1
{
    if i + name.len() > s.len() {
        0
    } else if s.subrange(i, i + name.len()) == name {
        1 + occurrences_from(s, name, i + name.len())
    } else {
        occurrences_from(s, name, i + 1)
    }
}

/// Number of non-overlapping literal matches of `name` in `s`.
pub open spec fn occurrences(s: Seq<u8>, name: Seq<u8>) -> nat {
    occurrences_from(s, name, 0)
}

/// Sum of the occurrence counts of `name` over the files at or after index
/// `k`.
pub open spec fn total_occurrences_from(files: Seq<Seq<u8>>, name: Seq<u8>, k: int) -> nat
    decreases files.len() - k,
        when 0 <= k
{
    if k >= files.len() {
        0
    } else {
        occurrences(files[k], name) + total_occurrences_from(files, name, k + 1)
    }
}

/// Sum of the occurrence counts of `name` over all files.
pub open spec fn total_occurrences(files: Seq<Seq<u8>>, name: Seq<u8>) -> nat {
    total_occurrences_from(files, name, 0)
}

/// `n` capped at the largest `usize` value.
pub open spec fn capped(n: nat) -> nat {
    if n > usize::MAX as nat {
        usize::MAX as nat
    } else {
        n
    }
}

/// The count from `i` is zero exactly when no match stands at or after `i`.
pub proof fn lemma_occurrences_zero(s: Seq<u8>, name: Seq<u8>, i: int)
    requires
        0 <= i,
        name.len() >= 1,
    ensures
        (occurrences_from(s, name, i) == 0) <==> (forall|p: int|
            i <= p ==> !contains_at(s, name, p)),
    decreases s.len() - i,
{
    if i + name.len() > s.len() {
    } else if s.subrange(i, i + name.len()) == name {
        assert(contains_at(s, name, i));
    } else {
        lemma_occurrences_zero(s, name, i + 1);
        assert(!contains_at(s, name, i));
    }
}

proof fn lemma_occurrences_unique_from(s: Seq<u8>, name: Seq<u8>, p: int, i: int)
    requires
        0 <= i <= p,
        name.len() >= 1,
        contains_at(s, name, p),
        forall|q: int| q != p ==> !contains_at(s, name, q),
    ensures
        occurrences_from(s, name, i) == 1,
    decreases p - i,
{
    if i == p {
        lemma_occurrences_zero(s, name, i + name.len() as int);
        assert forall|q: int| i + name.len() <= q implies !contains_at(s, name, q) by {
            assert(q != p);
        }
        assert(occurrences_from(s, name, i + name.len() as int) == 0);
    } else {
        assert(!contains_at(s, name, i));
        assert(s.subrange(i, i + name.len()) != name);
        lemma_occurrences_unique_from(s, name, p, i + 1);
    }
}

proof fn lemma_single_occurrence_total(
    files: Seq<Seq<u8>>,
    name: Seq<u8>,
    k: int,
    p: int,
    m: int,
)
    requires
        name.len() >= 1,
        0 <= k < files.len(),
        0 <= m <= files.len(),
        contains_at(files[k], name, p),
        forall|q: int| q != p ==> !contains_at(files[k], name, q),
        forall|j: int, q: int|
            0 <= j < files.len() && j != k ==> !(#[trigger] contains_at(files[j], name, q)),
    ensures
        total_occurrences_from(files, name, m) == if m <= k {
            1nat
        } else {
            0nat
        },
    decreases files.len() - m,
{
    if m < files.len() {
        lemma_single_occurrence_total(files, name, k, p, m + 1);
        if m == k {
            lemma_occurrences_unique_from(files[k], name, p, 0);
        } else {
            lemma_occurrences_zero(files[m], name, 0);
            assert(occurrences(files[m], name) == 0);
        }
    }
}

/// A name with exactly one literal match anywhere under the root — its one
/// declaration and no other reference — has total occurrence count one.
pub proof fn lemma_single_occurrence_counts_one(files: Seq<Seq<u8>>, name: Seq<u8>, k: int, p: int)
    requires
        name.len() >= 1,
        0 <= k < files.len(),
        contains_at(files[k], name, p),
        forall|q: int| q != p ==> !contains_at(files[k], name, q),
        forall|j: int, q: int|
            0 <= j < files.len() && j != k ==> !(#[trigger] contains_at(files[j], name, q)),
    ensures
        total_occurrences(files, name) == 1,
        capped(total_occurrences(files, name)) == 1,
{
    lemma_single_occurrence_total(files, name, k, p, 0);
}

/// `name` matches literally at position `i` of `s` (executable).
pub fn match_at(s: &[u8], name: &[u8], i: usize) -> (r: bool)
    requires
        i <= s@.len(),
    ensures
        r == contains_at(s@, name@, i as int),
{
    if name.len() > s.len() - i {
        return false;
    }
    let mut j: usize = 0;
    while j < name.len()
        invariant
            0 <= j <= name@.len(),
            i + name@.len() <= s@.len() <= usize::MAX,
            forall|m: int| 0 <= m < j ==> s@[i + m] == name@[m],
        decreases name@.len() - j,
    {
        if s[i + j] != name[j] {
            assert(s@.subrange(i as int, i + name@.len()) != name@) by {
                assert(s@.subrange(i as int, i + name@.len())[j as int] != name@[j as int]);
            }
            return false;
        }
        j = j + 1;
    }
    proof {
        assert(s@.subrange(i as int, i + name@.len()) =~= name@);
    }
    true
}

/// Number of non-overlapping literal matches of `name` in `content`.
pub fn count_occurrences(content: &[u8], name: &[u8]) -> (r: usize)
    requires
        name@.len() >= 1,
    ensures
        r == occurrences(content@, name@),
{
    let mut count: usize = 0;
    let mut i: usize = 0;
    while i < content.len()
        invariant
            name@.len() >= 1,
            0 <= i <= content@.len(),
            count <= i,
            count + occurrences_from(content@, name@, i as int) == occurrences(content@, name@),
        decreases content@.len() - i,
    {
        if match_at(content, name, i) {
            count = count + 1;
            i = i + name.len();
        } else {
            i = i + 1;
        }
    }
    count
}

/// Total occurrence count of `name` across all file contents, capped at the
/// largest `usize` value.
pub fn count_total_occurrences(files: &Vec<Vec<u8>>, name: &[u8]) -> (r: usize)
    requires
        name@.len() >= 1,
    ensures
        r as nat == capped(total_occurrences(files.deep_view(), name@)),
{
    let ghost fs = files.deep_view();
    let mut total: usize = 0;
    let mut k: usize = 0;
    proof {
        assert(fs.len() == files@.len());
    }
    while k < files.len()
        invariant
            name@.len() >= 1,
            fs == files.deep_view(),
            fs.len() == files@.len(),
            0 <= k <= fs.len(),
            total as nat + total_occurrences_from(fs, name@, k as int) >= total_occurrences(
                fs,
                name@,
            ) || total == usize::MAX,
            capped(total as nat + total_occurrences_from(fs, name@, k as int)) == capped(
                total_occurrences(fs, name@),
            ),
        decreases fs.len() - k,
    {
        proof {
            assert(files@[k as int]@ == fs[k as int]);
        }
        let c = count_occurrences(files[k].as_slice(), name);
        total = if total > usize::MAX - c {
            usize::MAX
        } else {
            total + c
        };
        k = k + 1;
    }
    total
}

/// Occurrence counter: for each name, the total count of non-overlapping
/// literal matches of that name across all file contents, capped at the
/// largest `usize` value.
pub fn count_function_occurrences(files: &Vec<Vec<u8>>, names: &Vec<Vec<u8>>) -> (counts: Vec<
    usize,
>)
    requires
        forall|k: int|
            0 <= k < names.deep_view().len() ==> #[trigger] names.deep_view()[k].len() >= 1,
    ensures
        counts.len() == names.len(),
        forall|k: int|
            0 <= k < names.len() ==> #[trigger] counts@[k] as nat == capped(
                total_occurrences(files.deep_view(), names.deep_view()[k]),
            ),
{
    let mut counts: Vec<usize> = Vec::new();
    let mut k: usize = 0;
    while k < names.len()
        invariant
            forall|m: int|
                0 <= m < names.deep_view().len() ==> #[trigger] names.deep_view()[m].len() >= 1,
            0 <= k <= names@.len(),
            names.deep_view().len() == names@.len(),
            counts.len() == k,
            forall|m: int|
                0 <= m < k ==> #[trigger] counts@[m] as nat == capped(
                    total_occurrences(files.deep_view(), names.deep_view()[m]),
                ),
        decreases names@.len() - k,
    {
        proof {
            assert(names@[k as int]@ == names.deep_view()[k as int]);
        }
        let c = count_total_occurrences(files, names[k].as_slice());
        counts.push(c);
        k = k + 1;
    }
    counts
}

} // verus!
