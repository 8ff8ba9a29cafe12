use vstd::prelude::*;

use crate::movelog::{MoveLog, MoveLogEntry};
use crate::navigator::{removed_index, step_next, step_prev, ImageManager, WINDOW_RADIUS};
use crate::paths::{file_name_of, get_file_name, join_dest_path, joined_path, uri_of};
use crate::strutil::views;

verus! {

/// A destination directory bound to a single keystroke.
#[derive(Debug)]
pub struct FolderLetterEntry {
    pub folder: String,
    pub letter: char,
}

/// Why a move of the current image could not be carried out.
#[derive(Debug)]
pub enum MoveError {
    /// There is no current image: the sequence is empty.
    NoCurrentImage,
    /// The filesystem rename failed, with the reason the platform gave.
    IoError(String),
}

/// The current image prepared for display: its path, the URI of its
/// materialized resource, its 1-based position, and the total count.
pub struct DisplayInfo {
    pub path: String,
    pub uri: String,
    pub position: usize,
    pub total: usize,
}

/// The destination folders that `s` binds to `letter`, in order.
pub open spec fn folders_of(s: Seq<FolderLetterEntry>, letter: char) -> Seq<Seq<char>>
    decreases s.len(),
{
    if s.len() == 0 {
        Seq::empty()
    } else {
        let prefix = folders_of(s.drop_last(), letter);
        if s.last().letter == letter {
            prefix.push(s.last().folder@)
        } else {
            prefix
        }
    }
}

/// The entries of `s` that do not stand at a position listed in `drop`,
/// in their original order.
pub open spec fn kept_positions(s: Seq<FolderLetterEntry>, drop: Seq<usize>) -> Seq<
    FolderLetterEntry,
>
    decreases s.len(),
{
    if s.len() == 0 {
        Seq::empty()
    } else {
        let prefix = kept_positions(s.drop_last(), drop);
        if drop.contains((s.len() - 1) as usize) {
            prefix
        } else {
            prefix.push(s.last())
        }
    }
}

/// Whether `v` holds the value `x`.
fn contains_usize(v: &Vec<usize>, x: usize) -> (r: bool)
    ensures
        r == v@.contains(x),
{
    let mut i: usize = 0;
    while i < v.len()
        invariant
            i <= v@.len(),
            forall|j: int| 0 <= j < i ==> v@[j] != x,
        decreases v@.len() - i,
    {
        if v[i] == x {
            return true;
        }
        i += 1;
    }
    false
}

/// The move orchestrator: the image sequence navigator, the move log, and
/// the letter bindings, composed so that a "move current image" and its
/// inverse "undo" keep the in-memory sequence and the filesystem
/// consistent. The filesystem rename itself is performed by the caller
/// between planning and committing a move, so a failed rename leaves the
/// navigator untouched.
pub struct Organizer {
    pub folder_letter_entries: Vec<FolderLetterEntry>,
    pub move_log: MoveLog,
    pub image_manager: ImageManager,
}

impl Organizer {
    /// The orchestrator's invariant: the navigator is well formed.
    pub open spec fn wf(self) -> bool {
        self.image_manager.wf()
    }

    /// An empty organizer: no bindings, no recorded moves, no images.
    pub fn new() -> (r: Organizer)
        ensures
            r.wf(),
            r.folder_letter_entries@ == Seq::<FolderLetterEntry>::empty(),
            r.move_log@ == Seq::<(Seq<char>, Seq<char>)>::empty(),
            r.image_manager.images() == Seq::<Seq<char>>::empty(),
            r.image_manager.index() == 0,
            r.image_manager.live() == Set::<Seq<char>>::empty(),
    {
        let r = Organizer {
            folder_letter_entries: Vec::new(),
            move_log: MoveLog::new(),
            image_manager: ImageManager::new(),
        };
        proof {
            assert(r.folder_letter_entries@ =~= Seq::<FolderLetterEntry>::empty());
        }
        r
    }

    /// Steps to the next image, cyclically.
    pub fn next_image(&mut self)
        requires
            old(self).wf(),
        ensures
            final(self).wf(),
            final(self).image_manager.images() == old(self).image_manager.images(),
            final(self).image_manager.live() == old(self).image_manager.live(),
            final(self).move_log == old(self).move_log,
            final(self).folder_letter_entries == old(self).folder_letter_entries,
            old(self).image_manager.images().len() == 0 ==> final(self).image_manager.index()
                == old(self).image_manager.index(),
            old(self).image_manager.images().len() > 0 ==> final(self).image_manager.index()
                == step_next(
                old(self).image_manager.index(),
                old(self).image_manager.images().len() as int,
            ),
    {
        self.image_manager.next_image();
    }

    /// Steps to the previous image, cyclically.
    pub fn previous_image(&mut self)
        requires
            old(self).wf(),
        ensures
            final(self).wf(),
            final(self).image_manager.images() == old(self).image_manager.images(),
            final(self).image_manager.live() == old(self).image_manager.live(),
            final(self).move_log == old(self).move_log,
            final(self).folder_letter_entries == old(self).folder_letter_entries,
            old(self).image_manager.images().len() == 0 ==> final(self).image_manager.index()
                == old(self).image_manager.index(),
            old(self).image_manager.images().len() > 0 ==> final(self).image_manager.index()
                == step_prev(
                old(self).image_manager.index(),
                old(self).image_manager.images().len() as int,
            ),
    {
        self.image_manager.previous_image();
    }

    /// The planned move of the current image into `dest_dir`: the source
    /// path and the destination path of the filesystem rename to perform,
    /// keeping the original file name. `NoCurrentImage` exactly when the
    /// sequence is empty. Nothing is mutated by planning.
    pub fn move_current_plan(&self, dest_dir: &str) -> (r: Result<MoveLogEntry, MoveError>)
        requires
            self.wf(),
        ensures
            match r {
                Ok(e) => {
                    &&& self.image_manager.images().len() > 0
                    &&& e.src@ == self.image_manager.images()[self.image_manager.index()]
                    &&& e.dest@ == joined_path(dest_dir@, file_name_of(e.src@))
                },
                Err(e) => self.image_manager.images().len() == 0 && (e is NoCurrentImage),
            },
    {
        match self.image_manager.current() {
            None => Err(MoveError::NoCurrentImage),
            Some(src) => {
                let name = get_file_name(src.as_str());
                let dest = join_dest_path(dest_dir, name.as_str());
                Ok(MoveLogEntry { src, dest })
            },
        }
    }

    /// Commits a completed move: removes the current image from the
    /// sequence and appends the entry to the move log. To be called only
    /// after the filesystem rename of `entry.src` to `entry.dest` has
    /// succeeded; when the rename fails the navigator must be left
    /// untouched, so the in-memory sequence and the filesystem never
    /// diverge.
    pub fn apply_move(&mut self, entry: MoveLogEntry)
        requires
            old(self).wf(),
            old(self).image_manager.images().len() > 0,
            entry.src@ == old(self).image_manager.images()[old(self).image_manager.index()],
        ensures
            final(self).wf(),
            final(self).image_manager.images() == old(self).image_manager.images().remove(
                old(self).image_manager.index(),
            ),
            final(self).image_manager.index() == removed_index(
                old(self).image_manager.index(),
                old(self).image_manager.images().len() as int,
            ),
            final(self).image_manager.live() == old(self).image_manager.live(),
            final(self).move_log@ == old(self).move_log@.push(entry@),
            final(self).folder_letter_entries == old(self).folder_letter_entries,
    {
        let removed = self.image_manager.remove_current_image();
        proof {
            assert(removed is Some);
        }
        self.move_log.record(entry);
    }

    /// The most recent completed move, whose rename must be reversed
    /// (destination back to source) to undo it; nothing when there is
    /// nothing to undo, a normal outcome and no error. The log is not yet
    /// popped: a failed reverse rename leaves it unchanged, so the undo
    /// can be retried.
    pub fn undo_plan(&self) -> (r: Option<MoveLogEntry>)
        ensures
            match r {
                Some(e) => self.move_log@.len() > 0 && e@ == self.move_log@.last(),
                None => self.move_log@.len() == 0,
            },
    {
        self.move_log.last()
    }

    /// Commits a completed undo: pops the most recent entry and
    /// re-inserts its source path at the current index, where the user
    /// was browsing. To be called only after the reverse rename has
    /// succeeded. Returns the restored source path.
    pub fn apply_undo(&mut self) -> (r: String)
        requires
            old(self).wf(),
            old(self).move_log@.len() > 0,
        ensures
            final(self).wf(),
            r@ == old(self).move_log@.last().0,
            final(self).move_log@ == old(self).move_log@.drop_last(),
            final(self).image_manager.images() == old(self).image_manager.images().insert(
                old(self).image_manager.index(),
                r@,
            ),
            final(self).image_manager.index() == old(self).image_manager.index(),
            final(self).image_manager.live() == old(self).image_manager.live().insert(r@),
            final(self).folder_letter_entries == old(self).folder_letter_entries,
    {
        match self.move_log.pop_last() {
            Some(entry) => {
                self.image_manager.add_image(entry.src.as_str());
                entry.src
            },
            None => vstd::pervasive::unreached(),
        }
    }

    /// The current image prepared for display: path, display URI,
    /// 1-based position and total count; its resource is registered as
    /// live. Nothing when the sequence is empty.
    pub fn current_display_info(&mut self) -> (r: Option<DisplayInfo>)
        requires
            old(self).wf(),
        ensures
            final(self).wf(),
            final(self).image_manager.images() == old(self).image_manager.images(),
            final(self).image_manager.index() == old(self).image_manager.index(),
            final(self).move_log == old(self).move_log,
            final(self).folder_letter_entries == old(self).folder_letter_entries,
            match r {
                Some(d) => {
                    &&& old(self).image_manager.images().len() > 0
                    &&& d.path@ == old(self).image_manager.images()[old(self).image_manager.index()]
                    &&& d.uri@ == uri_of(d.path@)
                    &&& d.position == old(self).image_manager.index() + 1
                    &&& d.total == old(self).image_manager.images().len()
                    &&& final(self).image_manager.live() == old(self).image_manager.live().insert(
                        d.path@,
                    )
                },
                None => old(self).image_manager.images().len() == 0
                    && final(self).image_manager.live() == old(self).image_manager.live(),
            },
    {
        let total = self.image_manager.num_images();
        let position = self.image_manager.current_index() + 1;
        match self.image_manager.load_current_image() {
            None => None,
            Some(info) => Some(
                DisplayInfo { path: info.path, uri: info.uri, position, total },
            ),
        }
    }

    /// Reconciles the cache against the window around the current index
    /// and returns the evicted paths; the per-tick pass of the
    /// presentation layer.
    pub fn reconcile_cache(&mut self) -> (evicted: Vec<String>)
        requires
            old(self).wf(),
        ensures
            final(self).wf(),
            final(self).image_manager.images() == old(self).image_manager.images(),
            final(self).image_manager.index() == old(self).image_manager.index(),
            final(self).move_log == old(self).move_log,
            final(self).folder_letter_entries == old(self).folder_letter_entries,
            final(self).image_manager.live() == old(self).image_manager.live().intersect(
                crate::navigator::window_of(
                    old(self).image_manager.images(),
                    old(self).image_manager.index(),
                    WINDOW_RADIUS as int,
                ).to_set(),
            ),
            views(evicted@).to_set() == old(self).image_manager.live().difference(
                crate::navigator::window_of(
                    old(self).image_manager.images(),
                    old(self).image_manager.index(),
                    WINDOW_RADIUS as int,
                ).to_set(),
            ),
            final(self).image_manager.live().len() <= 2 * WINDOW_RADIUS + 1,
    {
        self.image_manager.cleanup()
    }

    /// The destination folders bound to `letter`, in the order their
    /// bindings were added: the dispatch of one pressed key.
    pub fn folders_for_letter(&self, letter: char) -> (r: Vec<String>)
        ensures
            views(r@) == folders_of(self.folder_letter_entries@, letter),
    {
        let mut out: Vec<String> = Vec::new();
        let mut i: usize = 0;
        let n = self.folder_letter_entries.len();
        proof {
            assert(views(out@) =~= folders_of(self.folder_letter_entries@.take(0), letter));
        }
        while i < n
            invariant
                i <= n,
                n == self.folder_letter_entries@.len(),
                views(out@) == folders_of(self.folder_letter_entries@.take(i as int), letter),
            decreases n - i,
        {
            let ghost o0 = out@;
            let ghost s = self.folder_letter_entries@;
            if self.folder_letter_entries[i].letter == letter {
                out.push(self.folder_letter_entries[i].folder.clone());
            }
            i += 1;
            proof {
                assert(s.take(i as int).drop_last() =~= s.take(i - 1));
                assert(s.take(i as int).last() == s[i - 1]);
                if s[i - 1].letter == letter {
                    crate::strutil::lemma_views_push(o0, s[i - 1].folder);
                    assert(views(out@) =~= folders_of(s.take(i as int), letter));
                } else {
                    assert(views(out@) =~= folders_of(s.take(i as int), letter));
                }
            }
        }
        proof {
            let s = self.folder_letter_entries@;
            assert(s.take(n as int) =~= s);
        }
        out
    }

    /// Removes the bindings at the listed positions; a position beyond
    /// the list, or listed twice, has no further effect. The surviving
    /// bindings keep their order.
    pub fn remove_folder_letter_entries(&mut self, indecies: Vec<usize>)
        ensures
            final(self).folder_letter_entries@ == kept_positions(
                old(self).folder_letter_entries@,
                indecies@,
            ),
            final(self).move_log == old(self).move_log,
            final(self).image_manager == old(self).image_manager,
    {
        let ghost s = self.folder_letter_entries@;
        let mut out: Vec<FolderLetterEntry> = Vec::new();
        let mut i: usize = 0;
        let n = self.folder_letter_entries.len();
        proof {
            assert(out@ =~= kept_positions(s.take(0), indecies@));
        }
        while i < n
            invariant
                i <= n,
                s == self.folder_letter_entries@,
                n == s.len(),
                out@ == kept_positions(s.take(i as int), indecies@),
            decreases n - i,
        {
            let ghost o0 = out@;
            if !contains_usize(&indecies, i) {
                let e = &self.folder_letter_entries[i];
                out.push(FolderLetterEntry { folder: e.folder.clone(), letter: e.letter });
            }
            i += 1;
            proof {
                assert(s.take(i as int).drop_last() =~= s.take(i - 1));
                assert(s.take(i as int).last() == s[i - 1]);
                assert((s.take(i as int).len() - 1) as usize == (i - 1) as usize);
            }
        }
        proof {
            assert(s.take(n as int) =~= s);
        }
        self.folder_letter_entries = out;
    }
}

/// Law: moving the current image away and undoing that move at once
/// restores the image sequence, the current index and the move log to
/// their pre-move state — provided the current image is not the last one
/// of two or more. (After removing the last of several images the index
/// steps back by one, and the undo re-inserts the path at that
/// stepped-back position: with `n >= 2` images and the current index at
/// `n - 1`, the path returns one position early.)
pub proof fn lemma_move_undo_round_trip(
    images: Seq<Seq<char>>,
    i: int,
    log: Seq<(Seq<char>, Seq<char>)>,
    entry: (Seq<char>, Seq<char>),
)
    requires
        0 <= i < images.len(),
        i < images.len() - 1 || images.len() == 1,
        entry.0 == images[i],
    ensures
        removed_index(i, images.len() as int) == i,
        images.remove(i).insert(i, entry.0) == images,
        log.push(entry).drop_last() == log,
        log.push(entry).last() == entry,
{
    assert(images.remove(i).insert(i, entry.0) =~= images);
    assert(log.push(entry).drop_last() =~= log);
}

} // verus!
