//! The ordered list of image paths and the position of the image on screen.

use crate::numeric_key::{path_key, without_ascii_digit};
use crate::sorting::{
    arrange, cover_of, digit_free_keyed_zero, display_order, key_ordered, lemma_digit_free_first,
    lemma_digit_free_rearranged, lemma_key_ordered, lemma_moved_to_front, move_to_front,
    shown_order, sort_by_numeric_key, sorted_by_key,
};
use vstd::prelude::*;

verus! {

/// The position after one step forward from `index` in a cycle of `len`
/// positions. An empty cycle has nowhere to go.
pub open spec fn next_index(index: int, len: int) -> int {
    if len > 0 {
        (index + 1) % len
    } else {
        index
    }
}

/// The position after one step back from `index` in a cycle of `len`
/// positions. An empty cycle has nowhere to go.
pub open spec fn previous_index(index: int, len: int) -> int {
    if len > 0 {
        (index + len - 1) % len
    } else {
        index
    }
}

/// The position after `steps` steps forward from `index`.
pub open spec fn stepped_forward(index: int, len: int, steps: nat) -> int
    decreases steps,
{
    if steps == 0 {
        index
    } else {
        stepped_forward(next_index(index, len), len, (steps - 1) as nat)
    }
}

/// What a playlist is: its paths in the order of display, the position of
/// the path on screen, and the cover image that is kept in front.
pub ghost struct PlaylistView {
    pub paths: Seq<Seq<char>>,
    pub index: int,
    pub cover: Option<Seq<char>>,
}

impl PlaylistView {
    /// The position is one of the list, or 0 in an empty list; the cover
    /// image, where there is one, stands first; the paths after it, or all
    /// of them where there is none, are in ascending order of key; and a
    /// path without any of the digits `0` to `9` has the key 0.
    pub open spec fn well_formed(self) -> bool {
        &&& digit_free_keyed_zero(self.paths)
        &&& 0 <= self.index
        &&& self.paths.len() == 0 ==> self.index == 0
        &&& self.paths.len() > 0 ==> self.index < self.paths.len()
        &&& match self.cover {
            Some(path) => self.paths.len() > 0 && self.paths[0] == path && sorted_by_key(
                self.paths.skip(1),
            ),
            None => sorted_by_key(self.paths),
        }
    }

    /// The path on screen, if the list has any.
    pub open spec fn current(self) -> Option<Seq<char>> {
        if self.paths.len() > 0 {
            Some(self.paths[self.index])
        } else {
            None
        }
    }

    /// The playlist one step forward, back at the first path after the last.
    pub open spec fn advanced(self) -> PlaylistView {
        PlaylistView { index: next_index(self.index, self.paths.len() as int), ..self }
    }

    /// The playlist one step back, at the last path before the first.
    pub open spec fn retreated(self) -> PlaylistView {
        PlaylistView { index: previous_index(self.index, self.paths.len() as int), ..self }
    }

    /// The playlist with `found` added to its paths and put in order again.
    /// The position stays where it was.
    pub open spec fn extended(self, found: Seq<Seq<char>>) -> PlaylistView {
        PlaylistView { paths: shown_order(self.paths + found, self.cover), ..self }
    }
}

/// In a playlist, a path without any of the digits `0` to `9` stands before
/// every path whose key is above 0, the cover image in front left aside.
pub proof fn lemma_digit_free_before_keyed(playlist: PlaylistView, free: int, keyed: int)
    requires
        playlist.well_formed(),
        0 <= free < playlist.paths.len(),
        0 <= keyed < playlist.paths.len(),
        playlist.cover is Some ==> keyed >= 1,
        without_ascii_digit(playlist.paths[free]),
        path_key(playlist.paths[keyed]) > 0,
    ensures
        free < keyed,
{
    if playlist.cover is Some {
        if free >= 1 {
            let tail = playlist.paths.skip(1);
            assert forall|i: int|
                0 <= i < tail.len() && without_ascii_digit(#[trigger] tail[i]) implies path_key(
                tail[i],
            ) == 0 by {
                assert(tail[i] == playlist.paths[i + 1]);
            }
            assert(tail[free - 1] == playlist.paths[free]);
            assert(tail[keyed - 1] == playlist.paths[keyed]);
            lemma_digit_free_first(tail, free - 1, keyed - 1);
        }
    } else {
        lemma_digit_free_first(playlist.paths, free, keyed);
    }
}

/// A step from a position of the cycle leads to a position of the cycle:
/// the next one forward, the one before it back, and the other end of the
/// list from either end.
pub proof fn lemma_step(index: int, len: int)
    requires
        0 <= index < len,
    ensures
        0 <= next_index(index, len) < len,
        0 <= previous_index(index, len) < len,
        next_index(index, len) == if index == len - 1 { 0 } else { index + 1 },
        previous_index(index, len) == if index == 0 { len - 1 } else { index - 1 },
{
    if index == len - 1 {
        vstd::arithmetic::div_mod::lemma_mod_self_0(len);
    } else {
        vstd::arithmetic::div_mod::lemma_small_mod((index + 1) as nat, len as nat);
    }
    if index == 0 {
        vstd::arithmetic::div_mod::lemma_small_mod((len - 1) as nat, len as nat);
    } else {
        vstd::arithmetic::div_mod::lemma_mod_add_multiples_vanish(index - 1, len);
        vstd::arithmetic::div_mod::lemma_small_mod((index - 1) as nat, len as nat);
    }
}

/// A step back from the first position leads to the last, and a step
/// forward from the last position leads to the first.
pub proof fn lemma_wraps_at_both_ends(len: int)
    requires
        len >= 1,
    ensures
        previous_index(0, len) == len - 1,
        next_index(len - 1, len) == 0,
{
    lemma_step(0, len);
    lemma_step(len - 1, len);
}

/// A step back undoes a step forward, and a step forward undoes a step back.
pub proof fn lemma_steps_undo_each_other(index: int, len: int)
    requires
        0 <= index < len,
    ensures
        previous_index(next_index(index, len), len) == index,
        next_index(previous_index(index, len), len) == index,
{
    lemma_step(index, len);
    lemma_step(next_index(index, len), len);
    lemma_step(previous_index(index, len), len);
}

/// Where `steps` steps forward lead: as far round the cycle as the
/// remainder of the distance says.
pub proof fn lemma_stepped_forward(index: int, len: int, steps: nat)
    requires
        0 <= index < len,
    ensures
        stepped_forward(index, len, steps) == (index + steps) % len,
    decreases steps,
{
    if steps == 0 {
        vstd::arithmetic::div_mod::lemma_small_mod(index as nat, len as nat);
    } else {
        lemma_step(index, len);
        let next = next_index(index, len);
        lemma_stepped_forward(next, len, (steps - 1) as nat);
        if index == len - 1 {
            vstd::arithmetic::div_mod::lemma_mod_add_multiples_vanish(steps - 1, len);
            assert(len + (steps - 1) == index + steps);
        }
    }
}

/// As many steps forward as the list has paths lead back to where they began.
pub proof fn lemma_full_cycle(index: int, len: int)
    requires
        0 <= index < len,
    ensures
        stepped_forward(index, len, len as nat) == index,
{
    lemma_stepped_forward(index, len, len as nat);
    vstd::arithmetic::div_mod::lemma_mod_add_multiples_vanish(index, len);
    vstd::arithmetic::div_mod::lemma_small_mod(index as nat, len as nat);
    assert(len + index == index + len);
}

/// The paths of a slideshow in their order of display, with the position of
/// the one on screen.
pub struct Playlist {
    paths: Vec<String>,
    index: usize,
    cover: Option<String>,
}

impl View for Playlist {
    type V = PlaylistView;

    closed spec fn view(&self) -> PlaylistView {
        PlaylistView {
            paths: self.paths.deep_view(),
            index: self.index as int,
            cover: match self.cover {
                Some(path) => Some(path@),
                None => None,
            },
        }
    }
}

/// A copy of `paths`.
fn copy_of(paths: &Vec<String>) -> (copy: Vec<String>)
    ensures
        copy@ == paths@,
{
    let mut copy: Vec<String> = Vec::new();
    let mut i: usize = 0;
    while i < paths.len()
        invariant
            i <= paths.len(),
            copy@ == paths@.take(i as int),
        decreases paths.len() - i,
    {
        copy.push(paths[i].clone());
        assert(copy@ =~= paths@.take(i + 1));
        i += 1;
    }
    assert(paths@.take(i as int) =~= paths@);
    copy
}

impl Playlist {
    /// What holds of every playlist: it is well formed.
    #[verifier::type_invariant]
    pub open spec fn valid(self) -> bool {
        self@.well_formed()
    }

    /// The playlist of a seed list and the paths found later, in their order
    /// of display: all of them by ascending key, paths of equal key as
    /// listed, and the first path of the seed list in front. It starts at
    /// the first position.
    pub fn new(seed: Vec<String>, found: Vec<String>) -> (playlist: Playlist)
        ensures
            playlist@ == (PlaylistView {
                paths: display_order(seed.deep_view(), found.deep_view()),
                index: 0,
                cover: cover_of(seed.deep_view()),
            }),
            playlist@.well_formed(),
    {
        let cover = if seed.len() > 0 {
            Some(seed[0].clone())
        } else {
            None
        };
        let paths = arrange(seed, found);
        Playlist { paths, index: 0, cover }
    }

    /// The number of paths.
    pub fn len(&self) -> (len: usize)
        ensures
            len == self@.paths.len(),
    {
        self.paths.len()
    }

    /// The position of the path on screen.
    pub fn index(&self) -> (index: usize)
        ensures
            index == self@.index,
            self@.well_formed(),
    {
        proof {
            use_type_invariant(self);
        }
        self.index
    }

    /// The paths in their order of display.
    pub fn paths(&self) -> (paths: &Vec<String>)
        ensures
            paths.deep_view() == self@.paths,
            self@.well_formed(),
    {
        proof {
            use_type_invariant(self);
        }
        &self.paths
    }

    /// The path on screen; `None` in an empty playlist.
    pub fn current(&self) -> (path: Option<&String>)
        ensures
            match path {
                Some(shown) => Some(shown@) == self@.current(),
                None => self@.current() is None,
            },
    {
        proof {
            use_type_invariant(self);
        }
        if self.paths.len() > 0 {
            Some(&self.paths[self.index])
        } else {
            None
        }
    }

    /// Steps to the next path, and from the last path to the first. An empty
    /// playlist stays as it is. Says whether there was a path to step to.
    pub fn advance(&mut self) -> (moved: bool)
        ensures
            final(self)@ == old(self)@.advanced(),
            final(self)@.well_formed(),
            moved == (old(self)@.paths.len() > 0),
    {
        proof {
            use_type_invariant(&*self);
        }
        let len = self.paths.len();
        if len == 0 {
            return false;
        }
        proof {
            lemma_step(self.index as int, len as int);
        }
        if self.index == len - 1 {
            self.index = 0;
        } else {
            self.index = self.index + 1;
        }
        true
    }

    /// Steps to the path before, and from the first path to the last. An
    /// empty playlist stays as it is. Says whether there was a path to step to.
    pub fn retreat(&mut self) -> (moved: bool)
        ensures
            final(self)@ == old(self)@.retreated(),
            final(self)@.well_formed(),
            moved == (old(self)@.paths.len() > 0),
    {
        proof {
            use_type_invariant(&*self);
        }
        let len = self.paths.len();
        if len == 0 {
            return false;
        }
        proof {
            lemma_step(self.index as int, len as int);
        }
        if self.index == 0 {
            self.index = len - 1;
        } else {
            self.index = self.index - 1;
        }
        true
    }

    /// Adds `found` to the paths and puts the list in order again: by
    /// ascending key, paths of equal key as listed, the cover image in front.
    /// The position stays where it was.
    pub fn extend(&mut self, found: Vec<String>)
        ensures
            final(self)@ == old(self)@.extended(found.deep_view()),
            final(self)@.well_formed(),
    {
        proof {
            use_type_invariant(&*self);
        }
        let ghost listed = self.paths.deep_view();
        let ghost later = found.deep_view();
        let mut all = copy_of(&self.paths);
        let mut found = found;
        all.append(&mut found);
        assert(all.deep_view() =~= listed + later);
        let mut shown = sort_by_numeric_key(all);
        let ghost sorted = shown.deep_view();
        proof {
            lemma_key_ordered(listed + later);
        }
        match &self.cover {
            Some(path) => {
                proof {
                    assert((listed + later)[0] == path@);
                    assert((listed + later).contains(path@));
                    vstd::seq_lib::to_multiset_contains(listed + later, path@);
                    vstd::seq_lib::to_multiset_contains(key_ordered(listed + later), path@);
                    lemma_moved_to_front(key_ordered(listed + later), path@);
                }
                move_to_front(&mut shown, path);
                proof {
                    lemma_digit_free_rearranged(sorted, shown.deep_view());
                }
            },
            None => {},
        }
        self.paths = shown;
    }
}

} // verus!
