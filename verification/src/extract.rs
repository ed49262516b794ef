//! The entry extractor.
//!
//! One extraction pass over the rendered page yields a [`Fragment`]: the raw
//! link targets of whatever anchor elements are currently visible. A
//! candidate identifier is the third `/`-separated segment of such a target
//! (for `https://host/name/`, that is the account handle), brought into
//! normal form. Malformed or empty targets yield no identifier; extraction
//! never fails.

use vstd::prelude::*;
use crate::ident::{is_identifier, lemma_normalized_is_identifier, normalize, normalized, ids_equal};

verus! {

broadcast use
    vstd::seq_lib::group_seq_lib_default,
    vstd::seq_lib::group_seq_properties,
    vstd::set::group_set_axioms;

/// The views of a sequence of byte vectors.
pub open spec fn views_of(s: Seq<Vec<u8>>) -> Seq<Seq<u8>> {
    s.map_values(|v: Vec<u8>| v@)
}

/// One raw batch of rendered content: the link targets found by a single
/// extraction pass. Transient and possibly malformed; it is consumed by
/// [`extract`] and never persisted.
pub struct Fragment {
    pub links: Vec<Vec<u8>>,
}

impl View for Fragment {
    type V = Seq<Seq<u8>>;

    open spec fn view(&self) -> Seq<Seq<u8>> {
        views_of(self.links@)
    }
}

/// The `/`-separated segments of a byte string, in the manner of splitting
/// a path: the empty string has one (empty) segment, and every delimiter
/// starts a new one.
pub open spec fn split_slash(s: Seq<u8>) -> Seq<Seq<u8>>
    decreases s.len(),
{
    if s.len() == 0 {
        seq![Seq::<u8>::empty()]
    } else {
        let init = split_slash(s.drop_last());
        if s.last() == 47 {
            init.push(Seq::<u8>::empty())
        } else {
            init.update(init.len() - 1, init.last().push(s.last()))
        }
    }
}

/// Splitting always yields at least one segment.
pub proof fn lemma_split_nonempty(s: Seq<u8>)
    ensures
        split_slash(s).len() >= 1,
    decreases s.len(),
{
    if s.len() > 0 {
        lemma_split_nonempty(s.drop_last());
    }
}

/// The segment a candidate identifier is read from: index 3 of the split,
/// or empty when the target has fewer segments.
pub open spec fn third_segment(s: Seq<u8>) -> Seq<u8> {
    let parts = split_slash(s);
    if parts.len() > 3 {
        parts[3]
    } else {
        Seq::<u8>::empty()
    }
}

/// The candidate identifier of one link target: its third segment in
/// normal form (possibly empty, in which case the target is discarded).
pub open spec fn candidate(link: Seq<u8>) -> Seq<u8> {
    normalized(third_segment(link))
}

/// The candidates of all link targets of a fragment, in order.
pub open spec fn candidates_of(links: Seq<Seq<u8>>) -> Seq<Seq<u8>> {
    links.map_values(|l: Seq<u8>| candidate(l))
}

/// The set of identifiers one fragment contributes: every non-empty
/// candidate of its link targets.
pub open spec fn extracted_ids(links: Seq<Seq<u8>>) -> Set<Seq<u8>> {
    candidates_of(links).to_set().remove(Seq::<u8>::empty())
}

/// A fragment contributes finitely many identifiers.
pub proof fn lemma_extracted_ids_finite(links: Seq<Seq<u8>>)
    ensures
        extracted_ids(links).finite(),
{
    assert(candidates_of(links).to_set().finite());
}

/// Law: an empty fragment contributes no identifiers at all.
pub proof fn lemma_empty_fragment_extracts_nothing(links: Seq<Seq<u8>>)
    requires
        links.len() == 0,
    ensures
        extracted_ids(links) == Set::<Seq<u8>>::empty(),
{
    assert(extracted_ids(links) =~= Set::<Seq<u8>>::empty());
}

/// Split a byte string at every `/`.
fn split_segments(s: &Vec<u8>) -> (parts: Vec<Vec<u8>>)
    ensures
        views_of(parts@) == split_slash(s@),
        parts@.len() >= 1,
{
    let mut parts: Vec<Vec<u8>> = Vec::new();
    parts.push(Vec::new());
    proof {
        assert(views_of(parts@) =~= split_slash(s@.take(0)));
    }
    let mut i: usize = 0;
    while i < s.len()
        invariant
            i <= s.len(),
            parts@.len() >= 1,
            views_of(parts@) == split_slash(s@.take(i as int)),
        decreases s.len() - i,
    {
        let ghost pre = views_of(parts@);
        let ghost prefix = s@.take(i as int);
        proof {
            lemma_split_nonempty(prefix);
            assert(s@.take(i + 1).drop_last() =~= prefix);
            assert(s@.take(i + 1).last() == s@[i as int]);
        }
        if s[i] == 47 {
            parts.push(Vec::new());
            proof {
                assert(views_of(parts@) =~= pre.push(Seq::<u8>::empty()));
            }
        } else {
            let b = s[i];
            let mut lastp = parts.pop().unwrap();
            lastp.push(b);
            parts.push(lastp);
            proof {
                assert(views_of(parts@) =~= pre.update(pre.len() - 1, pre.last().push(s@[i as int])));
            }
        }
        i += 1;
    }
    proof {
        assert(s@.take(i as int) =~= s@);
    }
    parts
}

/// The candidate identifier of one raw link target, as bytes; empty when
/// the target is malformed or has no third segment.
pub fn candidate_of(link: &Vec<u8>) -> (id: Vec<u8>)
    ensures
        id@ == candidate(link@),
{
    let parts = split_segments(link);
    if parts.len() > 3 {
        proof {
            assert(parts@[3]@ == views_of(parts@)[3]);
        }
        normalize(&parts[3])
    } else {
        let empty_raw: Vec<u8> = Vec::new();
        normalize(&empty_raw)
    }
}

/// Whether `ids` already holds the bytes of `x`.
pub fn contains_id(ids: &Vec<Vec<u8>>, x: &Vec<u8>) -> (r: bool)
    ensures
        r <==> views_of(ids@).contains(x@),
{
    let mut i: usize = 0;
    while i < ids.len()
        invariant
            i <= ids.len(),
            forall|k: int| 0 <= k < i ==> views_of(ids@)[k] != x@,
        decreases ids.len() - i,
    {
        if ids_equal(&ids[i], x) {
            proof {
                assert(views_of(ids@)[i as int] == x@);
            }
            return true;
        }
        i += 1;
    }
    false
}

/// Extract the identifiers of one fragment: the non-empty normalized
/// candidates of its link targets, each reported once.
///
/// The result is a duplicate-free list of valid identifiers whose set is
/// exactly `extracted_ids` of the fragment; a fragment with no usable link
/// targets yields the empty list, never an error.
pub fn extract(fragment: &Fragment) -> (ids: Vec<Vec<u8>>)
    ensures
        views_of(ids@).no_duplicates(),
        forall|k: int| 0 <= k < ids@.len() ==> is_identifier(#[trigger] views_of(ids@)[k]),
        views_of(ids@).to_set() == extracted_ids(fragment@),
{
    let mut ids: Vec<Vec<u8>> = Vec::new();
    proof {
        assert(views_of(ids@).to_set() =~= extracted_ids(fragment@.take(0)));
    }
    let mut i: usize = 0;
    while i < fragment.links.len()
        invariant
            i <= fragment.links.len(),
            views_of(ids@).no_duplicates(),
            forall|k: int| 0 <= k < ids@.len() ==> is_identifier(#[trigger] views_of(ids@)[k]),
            views_of(ids@).to_set() == extracted_ids(fragment@.take(i as int)),
        decreases fragment.links.len() - i,
    {
        let ghost pre = views_of(ids@);
        let ghost prefix = fragment@.take(i as int);
        let c = candidate_of(&fragment.links[i]);
        proof {
            assert(fragment@[i as int] == fragment.links@[i as int]@);
            assert(fragment@.take(i + 1) =~= prefix.push(fragment@[i as int]));
            assert(candidates_of(fragment@.take(i + 1)) =~= candidates_of(prefix).push(c@));
        }
        if c.len() > 0 {
            if !contains_id(&ids, &c) {
                proof {
                    lemma_normalized_is_identifier(third_segment(fragment@[i as int]));
                    assert(forall|k: int| 0 <= k < pre.len() ==> pre[k] != c@);
                }
                ids.push(c);
                proof {
                    assert(views_of(ids@) =~= pre.push(c@));
                    pre.lemma_push_to_set_commute(c@);
                    candidates_of(prefix).lemma_push_to_set_commute(c@);
                    assert(views_of(ids@).to_set() =~= extracted_ids(fragment@.take(i + 1)));
                }
            } else {
                proof {
                    candidates_of(prefix).lemma_push_to_set_commute(c@);
                    assert(views_of(ids@).contains(c@));
                    assert(views_of(ids@).to_set().contains(c@));
                    assert(extracted_ids(prefix).contains(c@));
                    assert(candidates_of(prefix).to_set().contains(c@));
                    assert(views_of(ids@).to_set() =~= extracted_ids(fragment@.take(i + 1)));
                }
            }
        } else {
            proof {
                assert(views_of(ids@).to_set() =~= extracted_ids(fragment@.take(i + 1)));
            }
        }
        i += 1;
    }
    proof {
        assert(fragment@.take(i as int) =~= fragment@);
    }
    ids
}

} // verus!
