use vstd::prelude::*;

use crate::paths::{has_image_extension, is_image_path};
use crate::strutil::{
    lemma_lex_le_total, lemma_lex_le_trans, lemma_views_push, lemma_views_remove, lex_le, str_le,
    views,
};

verus! {

broadcast use vstd::seq_lib::group_to_multiset_ensures, vstd::multiset::group_multiset_axioms;

/// A directory listing reduced to the entries that name image files.
pub open spec fn image_filter(s: Seq<Seq<char>>) -> Seq<Seq<char>> {
    s.filter(|p: Seq<char>| is_image_path(p))
}

/// Ranked newest-name-first: every later element is lexicographically no
/// greater than any earlier one.
pub open spec fn sorted_desc(s: Seq<Seq<char>>) -> bool {
    forall|i: int, j: int| 0 <= i <= j < s.len() ==> #[trigger] lex_le(s[j], s[i])
}

/// The entries of a directory listing that name image files, in their
/// original order.
pub fn filter_image_entries(entries: &Vec<String>) -> (r: Vec<String>)
    ensures
        views(r@) == image_filter(views(entries@)),
{
    let mut out: Vec<String> = Vec::new();
    let mut i: usize = 0;
    proof {
        reveal(Seq::filter);
        assert(views(entries@).take(0) =~= Seq::<Seq<char>>::empty());
        assert(views(out@) =~= image_filter(views(entries@).take(0)));
    }
    while i < entries.len()
        invariant
            i <= entries@.len(),
            views(out@) == image_filter(views(entries@).take(i as int)),
        decreases entries@.len() - i,
    {
        let ghost out0 = out@;
        let keep = has_image_extension(entries[i].as_str());
        if keep {
            let s = entries[i].clone();
            out.push(s);
        }
        i += 1;
        proof {
            reveal(Seq::filter);
            let vs = views(entries@);
            assert(vs.take(i as int).drop_last() =~= vs.take(i - 1));
            assert(vs.take(i as int).last() == vs[i - 1]);
            if keep {
                lemma_views_push(out0, entries@[i - 1]);
                assert(views(out@) =~= image_filter(vs.take(i as int)));
            } else {
                assert(views(out@) =~= image_filter(vs.take(i as int)));
            }
        }
    }
    proof {
        assert(views(entries@).take(entries@.len() as int) =~= views(entries@));
    }
    out
}

/// The listing order of the image sequence: sorted by path string, largest
/// first, so that lexicographically later (typically newer) names come
/// first.
pub fn sort_paths_desc(paths: Vec<String>) -> (r: Vec<String>)
    ensures
        sorted_desc(views(r@)),
        views(r@).to_multiset() == views(paths@).to_multiset(),
{
    let mut rest = paths;
    let mut out: Vec<String> = Vec::new();
    proof {
        let m0 = views(out@).to_multiset();
        assert forall|a: Seq<char>| m0.count(a) == 0 by {
            assert(!views(out@).contains(a));
        }
        assert(m0.add(views(rest@).to_multiset()) =~= views(rest@).to_multiset());
    }
    while rest.len() > 0
        invariant
            views(out@).to_multiset().add(views(rest@).to_multiset()) == views(
                paths@,
            ).to_multiset(),
            sorted_desc(views(out@)),
            forall|i: int, j: int|
                0 <= i < views(out@).len() && 0 <= j < views(rest@).len() ==> #[trigger] lex_le(
                    views(rest@)[j],
                    views(out@)[i],
                ),
        decreases rest@.len(),
    {
        let mut m: usize = 0;
        let mut k: usize = 1;
        proof {
            lemma_lex_le_total(views(rest@)[0], views(rest@)[0]);
        }
        while k < rest.len()
            invariant
                rest@.len() > 0,
                m < k,
                k <= rest@.len(),
                forall|j: int|
                    0 <= j < k ==> #[trigger] lex_le(views(rest@)[j], views(rest@)[m as int]),
            decreases rest@.len() - k,
        {
            if str_le(rest[m].as_str(), rest[k].as_str()) {
                proof {
                    let vr = views(rest@);
                    assert forall|j: int| 0 <= j < k + 1 implies #[trigger] lex_le(
                        vr[j],
                        vr[k as int],
                    ) by {
                        if j < k {
                            lemma_lex_le_trans(vr[j], vr[m as int], vr[k as int]);
                        } else {
                            lemma_lex_le_total(vr[k as int], vr[k as int]);
                        }
                    }
                }
                m = k;
            } else {
                proof {
                    let vr = views(rest@);
                    lemma_lex_le_total(vr[m as int], vr[k as int]);
                }
            }
            k += 1;
        }
        let ghost r0 = rest@;
        let ghost vo0 = views(out@);
        let ghost vr0 = views(rest@);
        let ghost a = views(rest@)[m as int];
        let ghost o0 = out@;
        let x = rest.remove(m);
        out.push(x);
        proof {
            lemma_views_remove(r0, m as int);
            lemma_views_push(o0, r0[m as int]);
            assert(views(out@) =~= vo0.push(a));
            let vo1 = views(out@);
            let vr1 = views(rest@);
            assert(vr1 =~= vr0.remove(m as int));
            // index mapping for the shortened remainder
            assert forall|j: int| 0 <= j < vr1.len() implies vr1[j] == if j < m {
                vr0[j]
            } else {
                vr0[j + 1]
            } by {}
            // the multiset balance is kept
            assert(vr0.contains(a));
            assert(vr0.to_multiset().count(a) > 0);
            assert(vo1.to_multiset().add(vr1.to_multiset()) =~= vo0.to_multiset().add(
                vr0.to_multiset(),
            ));
            // the output stays sorted
            assert forall|i: int, j: int| 0 <= i <= j < vo1.len() implies #[trigger] lex_le(
                vo1[j],
                vo1[i],
            ) by {
                if j == vo0.len() && i < vo0.len() {
                    assert(lex_le(vr0[m as int], vo0[i]));
                } else if j == vo0.len() && i == vo0.len() {
                    lemma_lex_le_total(a, a);
                }
            }
            // everything still unsorted is no greater than anything placed
            assert forall|i: int, j: int|
                0 <= i < vo1.len() && 0 <= j < vr1.len() implies #[trigger] lex_le(
                vr1[j],
                vo1[i],
            ) by {
                let j0 = if j < m { j } else { j + 1 };
                assert(vr1[j] == vr0[j0]);
                if i < vo0.len() {
                    assert(lex_le(vr0[j0], vo0[i]));
                } else {
                    assert(lex_le(vr0[j0], vr0[m as int]));
                }
            }
        }
    }
    proof {
        let mr = views(rest@).to_multiset();
        assert forall|b: Seq<char>| mr.count(b) == 0 by {
            assert(!views(rest@).contains(b));
        }
        assert(views(out@).to_multiset().add(mr) =~= views(out@).to_multiset());
    }
    out
}

/// The image sequence of a directory listing: the entries that name image
/// files, sorted by path string and reversed, so that lexicographically
/// larger (typically newer) names come first.
pub fn order_image_paths(entries: Vec<String>) -> (r: Vec<String>)
    ensures
        sorted_desc(views(r@)),
        views(r@).to_multiset() == image_filter(views(entries@)).to_multiset(),
{
    let filtered = filter_image_entries(&entries);
    sort_paths_desc(filtered)
}

} // verus!
