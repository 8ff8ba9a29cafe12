use vstd::prelude::*;

use crate::paths::{uri_of, ImagePath};
use crate::strutil::{lemma_contains_push, lemma_no_dup_push, vec_contains_str, views};

verus! {

broadcast use vstd::set::group_set_axioms;

/// The views of a sequence of image paths.
pub open spec fn ipviews(s: Seq<ImagePath>) -> Seq<Seq<char>> {
    s.map_values(|ip: ImagePath| ip@)
}

/// Law: requesting a path twice in a row, with no eviction in between,
/// materializes nothing the second time: the live set after the second
/// request equals the live set after the first. (That both requests hand
/// back the same URI is stated by `Loader::request` itself, whose result
/// is a function of the path alone.)
pub proof fn lemma_request_idempotent(live: Set<Seq<char>>, p: Seq<char>)
    ensures
        live.insert(p).insert(p) == live.insert(p),
{
    assert(live.insert(p).insert(p) =~= live.insert(p));
}

/// The resource cache: it tracks which image paths currently have a live,
/// materialized resource, so that everything outside the keep-set window
/// can be released and a long browsing session cannot grow resident
/// memory beyond the window.
pub struct Loader {
    image_paths: Vec<ImagePath>,
}

impl Loader {
    /// The set of paths whose resources are live.
    pub closed spec fn live(self) -> Set<Seq<char>> {
        ipviews(self.image_paths@).to_set()
    }

    /// Each live path is recorded once.
    pub closed spec fn wf(self) -> bool {
        forall|i: int, j: int|
            0 <= i < j < self.image_paths@.len() ==> ipviews(self.image_paths@)[i] != ipviews(
                self.image_paths@,
            )[j]
    }

    /// A cache with no live entry.
    pub fn new() -> (r: Loader)
        ensures
            r.wf(),
            r.live() == Set::<Seq<char>>::empty(),
    {
        let r = Loader { image_paths: Vec::new() };
        proof {
            assert(r.live() =~= Set::<Seq<char>>::empty());
        }
        r
    }

    /// The number of live entries.
    pub fn live_len(&self) -> (r: usize)
        requires
            self.wf(),
        ensures
            r == self.live().len(),
    {
        proof {
            assert(ipviews(self.image_paths@).no_duplicates());
            ipviews(self.image_paths@).unique_seq_to_set();
        }
        self.image_paths.len()
    }

    /// Whether `path` has a live resource.
    pub fn is_live(&self, path: &str) -> (r: bool)
        ensures
            r == self.live().contains(path@),
    {
        let mut i: usize = 0;
        while i < self.image_paths.len()
            invariant
                i <= self.image_paths@.len(),
                forall|j: int| 0 <= j < i ==> ipviews(self.image_paths@)[j] != path@,
            decreases self.image_paths@.len() - i,
        {
            if crate::strutil::str_eq(self.image_paths[i].path(), path) {
                assert(ipviews(self.image_paths@)[i as int] == path@);
                return true;
            }
            i += 1;
        }
        assert(!ipviews(self.image_paths@).contains(path@));
        false
    }

    /// Registers `path` as live and returns the URI under which the
    /// presentation layer displays it. Requesting an already-live path
    /// makes no new entry: the handle refers to the same resource.
    pub fn request(&mut self, path: &str) -> (uri: String)
        requires
            old(self).wf(),
        ensures
            final(self).wf(),
            final(self).live() == old(self).live().insert(path@),
            uri@ == uri_of(path@),
    {
        let ip = ImagePath::new(path);
        let uri = ip.uri();
        let ghost s0 = self.image_paths@;
        if !self.is_live(path) {
            self.image_paths.push(ip);
            proof {
                assert(ipviews(self.image_paths@) =~= ipviews(s0).push(path@));
                lemma_contains_push(ipviews(s0), path@);
                assert(final(self).live() =~= old(self).live().insert(path@));
                assert forall|i: int, j: int|
                    0 <= i < j < self.image_paths@.len() implies ipviews(self.image_paths@)[i]
                    != ipviews(self.image_paths@)[j] by {
                    if j == s0.len() {
                        assert(!ipviews(s0).contains(path@));
                        assert(ipviews(s0)[i] != path@);
                    }
                }
            }
        } else {
            proof {
                assert(final(self).live() =~= old(self).live().insert(path@));
            }
        }
        uri
    }

    /// Releases every live entry whose path is not in `keep` and returns
    /// the evicted paths, whose resources the presentation layer must
    /// release in turn. Paths in `keep` that are not live are left alone:
    /// they are materialized lazily on the next request.
    pub fn reconcile(&mut self, keep: &Vec<String>) -> (evicted: Vec<String>)
        requires
            old(self).wf(),
        ensures
            final(self).wf(),
            final(self).live() == old(self).live().intersect(views(keep@).to_set()),
            views(evicted@).to_set() == old(self).live().difference(views(keep@).to_set()),
            views(evicted@).no_duplicates(),
    {
        let ghost s0 = self.image_paths@;
        let ghost kset = views(keep@).to_set();
        let mut kept: Vec<ImagePath> = Vec::new();
        let mut evicted: Vec<String> = Vec::new();
        let n = self.image_paths.len();
        let mut i: usize = 0;
        while i < n
            invariant
                i <= n,
                self.image_paths@ == s0,
                n == s0.len(),
                old(self).wf(),
                s0 == old(self).image_paths@,
                kset == views(keep@).to_set(),
                forall|x: Seq<char>|
                    #[trigger] ipviews(kept@).contains(x) <==> ipviews(s0.take(i as int)).contains(
                        x,
                    ) && kset.contains(x),
                forall|x: Seq<char>|
                    #[trigger] views(evicted@).contains(x) <==> ipviews(
                        s0.take(i as int),
                    ).contains(x) && !kset.contains(x),
                ipviews(kept@).no_duplicates(),
                views(evicted@).no_duplicates(),
            decreases n - i,
        {
            let ghost k0 = kept@;
            let ghost e0 = evicted@;
            let ghost cur = ipviews(s0)[i as int];
            let p = self.image_paths[i].path();
            let in_keep = vec_contains_str(keep, p);
            proof {
                assert(ipviews(s0.take(i + 1)) =~= ipviews(s0.take(i as int)).push(cur));
                lemma_contains_push(ipviews(s0.take(i as int)), cur);
                // the current path was not seen in the prefix
                assert(!ipviews(s0.take(i as int)).contains(cur)) by {
                    if ipviews(s0.take(i as int)).contains(cur) {
                        let j = choose|j: int|
                            0 <= j < i && ipviews(s0.take(i as int))[j] == cur;
                        assert(ipviews(s0)[j] == cur);
                    }
                }
            }
            if in_keep {
                kept.push(ImagePath::new(p));
                proof {
                    assert(ipviews(kept@) =~= ipviews(k0).push(cur));
                    lemma_contains_push(ipviews(k0), cur);
                    assert(!ipviews(k0).contains(cur));
                    lemma_no_dup_push(ipviews(k0), cur);
                }
            } else {
                evicted.push(String::from_str(p));
                proof {
                    assert(views(evicted@) =~= views(e0).push(cur));
                    lemma_contains_push(views(e0), cur);
                    assert(!views(e0).contains(cur));
                    lemma_no_dup_push(views(e0), cur);
                }
            }
            i += 1;
        }
        proof {
            assert(ipviews(s0.take(n as int)) =~= ipviews(s0));
        }
        self.image_paths = kept;
        proof {
            assert(final(self).live() =~= old(self).live().intersect(views(keep@).to_set()));
            assert(views(evicted@).to_set() =~= old(self).live().difference(
                views(keep@).to_set(),
            ));
        }
        evicted
    }
}

} // verus!
