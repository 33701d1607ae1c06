//! Usage classifier: combines a name's occurrence count with the ignore
//! patterns into a keep/remove decision.  A name is kept when its count is
//! above one or when any ignore pattern matches it; ignore patterns take
//! precedence over the count.
//!
//! Ignore patterns are regular expressions supplied by the caller; the regex
//! crate compiles and matches them.  A pattern that does not compile is
//! skipped.

use vstd::prelude::*;

verus! {

/// Whether the regex crate accepts `pattern` as a valid pattern; the answer
/// depends on the pattern text alone.
pub uninterp spec fn pattern_compiles(pattern: Seq<char>) -> bool;

/// Whether the pattern matches somewhere in the byte text `text`; the answer
/// depends on the pattern and the text alone.
pub uninterp spec fn pattern_matches(pattern: Seq<char>, text: Seq<u8>) -> bool;

#[verifier::external_type_specification]
#[verifier::external_body]
pub struct ExRegex(regex::bytes::Regex);

/// An ignore pattern compiled by the regex crate, together with the pattern
/// text it was compiled from.
pub(crate) struct CompiledPattern {
    regex: regex::bytes::Regex,
    source: String,
}

impl CompiledPattern {
    /// The pattern text this value was compiled from.
    pub(crate) closed spec fn source(self) -> Seq<char> {
        self.source@
    }
}

/// Relies on regex::bytes::Regex::new: it returns Ok exactly on the pattern
/// texts the regex crate accepts, and acceptance depends on the pattern text
/// alone.
#[verifier::external_body]
pub(crate) fn compile_pattern(pattern: &str) -> (r: Option<CompiledPattern>)
    ensures
        r is Some <==> pattern_compiles(pattern@),
        r is Some ==> r->Some_0.source() == pattern@,
{
    match regex::bytes::Regex::new(pattern) {
        Ok(regex) => Some(CompiledPattern { regex, source: pattern.to_string() }),
        Err(_) => None,
    }
}

/// Relies on regex::bytes::Regex::is_match: whether the compiled pattern
/// matches anywhere in `text`; the answer depends on the pattern text and
/// `text` alone.
#[verifier::external_body]
pub(crate) fn pattern_is_match(p: &CompiledPattern, text: &[u8]) -> (r: bool)
    ensures
        r == pattern_matches(p.source(), text@),
{
    p.regex.is_match(text)
}

/// A name is ignored when some pattern in the list both compiles and matches
/// it.
pub open spec fn spec_ignored(name: Seq<u8>, patterns: Seq<Seq<char>>) -> bool {
    exists|j: int|
        0 <= j < patterns.len() && pattern_compiles(#[trigger] patterns[j]) && pattern_matches(
            patterns[j],
            name,
        )
}

/// The keep/remove decision for one name: removed when its occurrence count
/// is at most one and no ignore pattern matches it; kept otherwise.
pub open spec fn spec_unused(name: Seq<u8>, count: nat, patterns: Seq<Seq<char>>) -> bool {
    count <= 1 && !spec_ignored(name, patterns)
}

/// Whether `name` matches any of the ignore patterns.  A pattern that the
/// regex crate rejects is skipped.
pub fn should_ignore_function(name: &[u8], ignore_patterns: &Vec<String>) -> (r: bool)
    ensures
        r == spec_ignored(name@, ignore_patterns.deep_view()),
{
    let ghost ps = ignore_patterns.deep_view();
    let mut j: usize = 0;
    while j < ignore_patterns.len()
        invariant
            ps == ignore_patterns.deep_view(),
            ps.len() == ignore_patterns@.len(),
            0 <= j <= ps.len(),
            forall|m: int|
                0 <= m < j ==> !(pattern_compiles(#[trigger] ps[m]) && pattern_matches(
                    ps[m],
                    name@,
                )),
        decreases ps.len() - j,
    {
        proof {
            assert(ignore_patterns@[j as int]@ == ps[j as int]);
        }
        match compile_pattern(ignore_patterns[j].as_str()) {
            Some(cp) => {
                if pattern_is_match(&cp, name) {
                    return true;
                }
            },
            None => {},
        }
        j = j + 1;
    }
    false
}

/// The subsequence of `names` at or after index `k` that the classifier
/// marks for removal, in source order, duplicates preserved.
pub open spec fn spec_select_unused(
    names: Seq<Seq<u8>>,
    counts: Seq<usize>,
    patterns: Seq<Seq<char>>,
    k: int,
) -> Seq<Seq<u8>>
    decreases names.len() - k,
        when 0 <= k
{
    if k >= names.len() {
        seq![]
    } else {
        let rest = spec_select_unused(names, counts, patterns, k + 1);
        if spec_unused(names[k], counts[k] as nat, patterns) {
            seq![names[k]] + rest
        } else {
            rest
        }
    }
}

/// Usage classifier: the names marked for removal, in source order.
pub fn select_unused(
    names: &Vec<Vec<u8>>,
    counts: &Vec<usize>,
    ignore_patterns: &Vec<String>,
) -> (unused: Vec<Vec<u8>>)
    requires
        counts@.len() == names@.len(),
    ensures
        unused.deep_view() == spec_select_unused(
            names.deep_view(),
            counts@,
            ignore_patterns.deep_view(),
            0,
        ),
{
    let ghost ns = names.deep_view();
    let ghost cs = counts@;
    let ghost ps = ignore_patterns.deep_view();
    let mut unused: Vec<Vec<u8>> = Vec::new();
    let mut k: usize = 0;
    proof {
        assert(unused.deep_view() =~= Seq::<Seq<u8>>::empty());
        assert(unused.deep_view() + spec_select_unused(ns, cs, ps, 0) =~= spec_select_unused(
            ns,
            cs,
            ps,
            0,
        ));
    }
    while k < names.len()
        invariant
            ns == names.deep_view(),
            cs == counts@,
            ps == ignore_patterns.deep_view(),
            ns.len() == names@.len(),
            cs.len() == ns.len(),
            0 <= k <= ns.len(),
            unused.deep_view() + spec_select_unused(ns, cs, ps, k as int) == spec_select_unused(
                ns,
                cs,
                ps,
                0,
            ),
        decreases ns.len() - k,
    {
        proof {
            assert(names@[k as int]@ == ns[k as int]);
        }
        let ignored = should_ignore_function(names[k].as_slice(), ignore_patterns);
        if counts[k] <= 1 && !ignored {
            let name = names[k].clone();
            let ghost old_dv = unused.deep_view();
            proof {
                assert(name@ == ns[k as int]);
            }
            unused.push(name);
            proof {
                assert(unused.deep_view() =~= old_dv.push(ns[k as int]));
                assert(unused.deep_view() + spec_select_unused(ns, cs, ps, k + 1) =~= old_dv
                    + spec_select_unused(ns, cs, ps, k as int));
            }
        }
        k = k + 1;
    }
    proof {
        assert(unused.deep_view() + spec_select_unused(ns, cs, ps, k as int) =~= unused.deep_view());
    }
    unused
}

/// Ignore patterns take precedence over the occurrence count: a name matched
/// by an ignore pattern is never in the removal list, whatever the counts.
pub proof fn lemma_ignored_never_selected(
    names: Seq<Seq<u8>>,
    counts: Seq<usize>,
    patterns: Seq<Seq<char>>,
    name: Seq<u8>,
    k: int,
)
    requires
        0 <= k,
        spec_ignored(name, patterns),
    ensures
        !spec_select_unused(names, counts, patterns, k).contains(name),
    decreases names.len() - k,
{
    if k < names.len() {
        lemma_ignored_never_selected(names, counts, patterns, name, k + 1);
        let rest = spec_select_unused(names, counts, patterns, k + 1);
        if spec_unused(names[k], counts[k] as nat, patterns) {
            let sel = seq![names[k]] + rest;
            assert(names[k] != name);
            assert forall|i: int| 0 <= i < sel.len() implies sel[i] != name by {
                if i > 0 {
                    assert(sel[i] == rest[i - 1]);
                    assert(rest.contains(rest[i - 1]));
                }
            }
        } else {
            assert(spec_select_unused(names, counts, patterns, k) == rest);
        }
    }
}

} // verus!
