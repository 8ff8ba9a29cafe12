use vstd::prelude::*;

use crate::cache::Loader;
use crate::paths::uri_of;
use crate::strutil::{lemma_views_insert, lemma_views_remove, views};

verus! {

broadcast use vstd::set::group_set_axioms;

/// The keep-set radius: how many images before and after the current one
/// stay materialized.
pub const WINDOW_RADIUS: usize = 3;

/// One cyclic step forward among `n` items: the last index wraps to 0.
pub open spec fn step_next(i: int, n: int) -> int {
    if i + 1 >= n {
        0
    } else {
        i + 1
    }
}

/// One cyclic step backward among `n` items: index 0 wraps to the last.
pub open spec fn step_prev(i: int, n: int) -> int {
    if i == 0 {
        n - 1
    } else {
        i - 1
    }
}

/// `k` forward steps from `i`.
pub open spec fn iter_next(i: int, n: int, k: nat) -> int
    decreases k,
{
    if k == 0 {
        i
    } else {
        step_next(iter_next(i, n, (k - 1) as nat), n)
    }
}

/// `k` backward steps from `i`.
pub open spec fn iter_prev(i: int, n: int, k: nat) -> int
    decreases k,
{
    if k == 0 {
        i
    } else {
        step_prev(iter_prev(i, n, (k - 1) as nat), n)
    }
}

proof fn lemma_iter_next_value(i: int, n: int, k: nat)
    requires
        0 <= i < n,
        k <= n,
    ensures
        iter_next(i, n, k) == if i + k < n {
            i + k
        } else {
            i + k - n
        },
    decreases k,
{
    if k > 0 {
        lemma_iter_next_value(i, n, (k - 1) as nat);
    }
}

proof fn lemma_iter_prev_value(i: int, n: int, k: nat)
    requires
        0 <= i < n,
        k <= n,
    ensures
        iter_prev(i, n, k) == if i - k >= 0 {
            i - k
        } else {
            i - k + n
        },
    decreases k,
{
    if k > 0 {
        lemma_iter_prev_value(i, n, (k - 1) as nat);
    }
}

/// Cyclic closure: on a non-empty sequence of `n` items, `n` forward
/// steps return the current index to its starting value, and so do `n`
/// backward steps.
pub proof fn lemma_cyclic_closure(i: int, n: int)
    requires
        0 < n,
        0 <= i < n,
    ensures
        iter_next(i, n, n as nat) == i,
        iter_prev(i, n, n as nat) == i,
{
    lemma_iter_next_value(i, n, n as nat);
    lemma_iter_prev_value(i, n, n as nat);
}

/// The current index after the element at `i` was removed from a
/// sequence of length `n`: removal of the last element (of several)
/// steps the index back; otherwise it stays, now naming the successor.
pub open spec fn removed_index(i: int, n: int) -> int {
    if i + 1 >= n && i > 0 {
        i - 1
    } else {
        i
    }
}

/// The lower bound of the keep-set window around index `i`.
pub open spec fn window_lo(i: int, r: int) -> int {
    if i - r >= 0 {
        i - r
    } else {
        0
    }
}

/// The upper bound (exclusive) of the keep-set window around index `i`
/// in a sequence of length `n`.
pub open spec fn window_hi(i: int, n: int, r: int) -> int {
    if i + r + 1 <= n {
        i + r + 1
    } else {
        n
    }
}

/// The paths within `r` positions of index `i`, clamped to the bounds of
/// the sequence.
pub open spec fn window_of(s: Seq<Seq<char>>, i: int, r: int) -> Seq<Seq<char>> {
    s.subrange(window_lo(i, r), window_hi(i, s.len() as int, r))
}

/// The current image handed to the presentation layer: its path and the
/// URI under which its materialized resource is displayed.
pub struct LoadedImageInfo {
    pub path: String,
    pub uri: String,
}

/// The sequence navigator: an ordered sequence of image paths, the index
/// of the current one, and the resource cache kept reconciled to the
/// window around that index.
pub struct ImageManager {
    all_images: Vec<String>,
    current_image_index: usize,
    loader: Loader,
}

impl ImageManager {
    /// The ordered image sequence, as character sequences.
    pub closed spec fn images(self) -> Seq<Seq<char>> {
        views(self.all_images@)
    }

    /// The current index.
    pub closed spec fn index(self) -> int {
        self.current_image_index as int
    }

    /// The set of paths whose resources are live in the cache.
    pub closed spec fn live(self) -> Set<Seq<char>> {
        self.loader.live()
    }

    /// The cache records each live path once.
    pub closed spec fn cache_wf(self) -> bool {
        self.loader.wf()
    }

    /// The navigator's invariant: the index names an element whenever the
    /// sequence is non-empty, rests at 0 when it is empty, and the cache
    /// records each live path once.
    pub open spec fn wf(self) -> bool {
        &&& self.cache_wf()
        &&& (self.images().len() > 0 ==> self.index() < self.images().len())
        &&& (self.images().len() == 0 ==> self.index() == 0)
    }

    /// An empty navigator.
    pub fn new() -> (r: ImageManager)
        ensures
            r.wf(),
            r.images() == Seq::<Seq<char>>::empty(),
            r.index() == 0,
            r.live() == Set::<Seq<char>>::empty(),
    {
        let r = ImageManager { all_images: Vec::new(), current_image_index: 0, loader: Loader::new() };
        proof {
            assert(r.images() =~= Seq::<Seq<char>>::empty());
        }
        r
    }

    /// Replaces the sequence and resets the current index to the front.
    /// The cache is left as it is: the next reconciliation pass evicts
    /// what fell out of the new window.
    pub fn set_images(&mut self, images: Vec<String>)
        requires
            old(self).wf(),
        ensures
            final(self).wf(),
            final(self).images() == views(images@),
            final(self).index() == 0,
            final(self).live() == old(self).live(),
    {
        self.all_images = images;
        self.current_image_index = 0;
    }

    /// The number of live cache entries.
    pub fn live_len(&self) -> (r: usize)
        requires
            self.wf(),
        ensures
            r == self.live().len(),
    {
        self.loader.live_len()
    }

    /// The number of images in the sequence.
    pub fn num_images(&self) -> (r: usize)
        ensures
            r == self.images().len(),
    {
        self.all_images.len()
    }

    /// The current index.
    pub fn current_index(&self) -> (r: usize)
        ensures
            r == self.index(),
    {
        self.current_image_index
    }

    /// The current path, or nothing when the sequence is empty.
    pub fn current(&self) -> (r: Option<String>)
        requires
            self.wf(),
        ensures
            match r {
                Some(p) => self.images().len() > 0 && p@ == self.images()[self.index()],
                None => self.images().len() == 0,
            },
    {
        if self.all_images.len() == 0 {
            None
        } else {
            Some(self.all_images[self.current_image_index].clone())
        }
    }

    /// The current image together with its display URI; its resource is
    /// registered as live. Nothing when the sequence is empty.
    pub fn load_current_image(&mut self) -> (r: Option<LoadedImageInfo>)
        requires
            old(self).wf(),
        ensures
            final(self).wf(),
            final(self).images() == old(self).images(),
            final(self).index() == old(self).index(),
            match r {
                Some(info) => {
                    &&& old(self).images().len() > 0
                    &&& info.path@ == old(self).images()[old(self).index()]
                    &&& info.uri@ == uri_of(info.path@)
                    &&& final(self).live() == old(self).live().insert(info.path@)
                },
                None => old(self).images().len() == 0 && final(self).live() == old(self).live(),
            },
    {
        if self.all_images.len() == 0 {
            return None;
        }
        let path = self.all_images[self.current_image_index].clone();
        let uri = self.loader.request(path.as_str());
        Some(LoadedImageInfo { path, uri })
    }

    /// The paths within `radius` positions of the current index, clamped
    /// to the bounds of the sequence.
    pub fn window_around(&self, radius: usize) -> (r: Vec<String>)
        requires
            self.wf(),
        ensures
            views(r@) == window_of(self.images(), self.index(), radius as int),
            r@.len() <= 2 * radius + 1,
    {
        let n = self.all_images.len();
        let i = self.current_image_index;
        let lo = if i >= radius {
            i - radius
        } else {
            0
        };
        let hi = if n - i > radius {
            i + radius + 1
        } else {
            n
        };
        let mut out: Vec<String> = Vec::new();
        let mut k = lo;
        proof {
            assert(views(out@) =~= self.images().subrange(lo as int, lo as int));
        }
        while k < hi
            invariant
                lo <= k <= hi,
                hi <= self.all_images@.len(),
                views(out@) == self.images().subrange(lo as int, k as int),
                out@.len() == k - lo,
            decreases hi - k,
        {
            let ghost o0 = out@;
            out.push(self.all_images[k].clone());
            k += 1;
            proof {
                crate::strutil::lemma_views_push(o0, self.all_images@[k - 1]);
                assert(views(out@) =~= self.images().subrange(lo as int, k as int));
            }
        }
        proof {
            assert(views(out@) =~= window_of(self.images(), self.index(), radius as int));
        }
        out
    }

    /// Reconciles the cache against the window around the current index:
    /// after this pass, the live entries are exactly the live paths still
    /// in the window, so their number can never exceed the window size.
    /// Returns the evicted paths, whose resources the presentation layer
    /// must release.
    pub fn cleanup(&mut self) -> (evicted: Vec<String>)
        requires
            old(self).wf(),
        ensures
            final(self).wf(),
            final(self).images() == old(self).images(),
            final(self).index() == old(self).index(),
            final(self).live() == old(self).live().intersect(
                window_of(old(self).images(), old(self).index(), WINDOW_RADIUS as int).to_set(),
            ),
            views(evicted@).to_set() == old(self).live().difference(
                window_of(old(self).images(), old(self).index(), WINDOW_RADIUS as int).to_set(),
            ),
            final(self).live().len() <= 2 * WINDOW_RADIUS + 1,
    {
        let keep = self.window_around(WINDOW_RADIUS);
        let evicted = self.loader.reconcile(&keep);
        proof {
            let kseq = views(keep@);
            vstd::seq_lib::seq_to_set_is_finite::<Seq<char>>(kseq);
            kseq.lemma_cardinality_of_set();
            assert(final(self).live().subset_of(kseq.to_set()));
            vstd::set_lib::lemma_len_subset(final(self).live(), kseq.to_set());
        }
        evicted
    }

    /// Steps to the next image, cyclically; an empty sequence is left
    /// untouched.
    pub fn next_image(&mut self)
        requires
            old(self).wf(),
        ensures
            final(self).wf(),
            final(self).images() == old(self).images(),
            final(self).live() == old(self).live(),
            old(self).images().len() == 0 ==> final(self).index() == old(self).index(),
            old(self).images().len() > 0 ==> final(self).index() == step_next(
                old(self).index(),
                old(self).images().len() as int,
            ),
    {
        let n = self.all_images.len();
        if n > 0 {
            self.current_image_index = if self.current_image_index + 1 == n {
                0
            } else {
                self.current_image_index + 1
            };
        }
    }

    /// Steps to the previous image, cyclically; an empty sequence is left
    /// untouched.
    pub fn previous_image(&mut self)
        requires
            old(self).wf(),
        ensures
            final(self).wf(),
            final(self).images() == old(self).images(),
            final(self).live() == old(self).live(),
            old(self).images().len() == 0 ==> final(self).index() == old(self).index(),
            old(self).images().len() > 0 ==> final(self).index() == step_prev(
                old(self).index(),
                old(self).images().len() as int,
            ),
    {
        let n = self.all_images.len();
        if n > 0 {
            self.current_image_index = if self.current_image_index == 0 {
                n - 1
            } else {
                self.current_image_index - 1
            };
        }
    }

    /// Removes and returns the current path. The index is clamped so
    /// that, whenever images remain, it stays within their bounds; it is
    /// left at 0 when the sequence empties. Nothing is removed from an
    /// empty sequence.
    pub fn remove_current_image(&mut self) -> (r: Option<String>)
        requires
            old(self).wf(),
        ensures
            final(self).wf(),
            final(self).live() == old(self).live(),
            match r {
                Some(p) => {
                    &&& old(self).images().len() > 0
                    &&& p@ == old(self).images()[old(self).index()]
                    &&& final(self).images() == old(self).images().remove(old(self).index())
                    &&& final(self).index() == removed_index(
                        old(self).index(),
                        old(self).images().len() as int,
                    )
                    &&& (final(self).images().len() > 0 ==> 0 <= final(self).index()
                        < final(self).images().len())
                },
                None => old(self).images().len() == 0 && final(self).images() == old(
                    self,
                ).images() && final(self).index() == old(self).index(),
            },
    {
        if self.current_image_index >= self.all_images.len() {
            return None;
        }
        let ghost s0 = self.all_images@;
        let path = self.all_images.remove(self.current_image_index);
        proof {
            lemma_views_remove(s0, self.current_image_index as int);
        }
        if self.current_image_index >= self.all_images.len() && self.current_image_index > 0 {
            self.current_image_index = self.all_images.len() - 1;
        }
        Some(path)
    }

    /// Inserts `path` at the current index, shifting what follows; used
    /// by undo to restore a moved file to where the user was browsing.
    /// The path's resource is registered as live.
    pub fn add_image(&mut self, path: &str)
        requires
            old(self).wf(),
        ensures
            final(self).wf(),
            final(self).images() == old(self).images().insert(old(self).index(), path@),
            final(self).index() == old(self).index(),
            final(self).live() == old(self).live().insert(path@),
    {
        let ghost s0 = self.all_images@;
        let s = String::from_str(path);
        let ghost sv = s;
        self.all_images.insert(self.current_image_index, s);
        let _ = self.loader.request(path);
        proof {
            lemma_views_insert(s0, old(self).index(), sv);
        }
    }
}

} // verus!
