//! Walking a directory tree in a fixed order.
//!
//! The walk reads no directory itself. It asks for the listing of a directory
//! with [`WalkEvent::ReadDir`] and takes it through [`DirWalk::enter`]; what it
//! decides is the order: the children of a directory sorted by path, and a
//! directory before what lies below it. A filter never changes where the walk
//! goes, so a rule on paths that [`WalkFilter`] does not have is applied to
//! the paths of a walk without filter.

use crate::misc_helper::EntryKind;
use crate::text::{bytes_less, lemma_lex_less_order, lex_less};
use vstd::prelude::*;
use vstd::seq_lib::to_multiset_remove;
use vstd::string::StringSliceAdditionalSpecFns;
use vstd::utf8::encode_utf8;

verus! {

/// One child of a directory: its path, and what lies there.
pub struct Entry {
    pub path: String,
    pub kind: EntryKind,
}

/// Which paths a walk yields.
#[derive(Clone, Copy, Debug, PartialEq, Eq, Structural)]
pub enum WalkFilter {
    /// Regular files only.
    Files,
    /// Directories only.
    Dirs,
}

/// How to walk.
pub struct DirWalkParameters {
    pub root_dir: String,
    /// Whether to go down into directories.
    pub recursive: bool,
    /// Which paths to yield; all if `None`.
    pub filter: Option<WalkFilter>,
}

/// What a walk does next.
pub enum WalkEvent {
    /// Nothing is left.
    End,
    /// The directory at this path is to be listed and the listing handed to
    /// [`DirWalk::enter`].
    ReadDir(String),
    /// This path is next.
    Path(String),
}

/// The path of an entry as bytes, by which entries are ordered.
pub open spec fn path_bytes(e: Entry) -> Seq<u8> {
    encode_utf8(e.path@)
}

/// Whether the entries stand in ascending order of their paths.
pub open spec fn sorted_by_path(s: Seq<Entry>) -> bool {
    forall|i: int, j: int|
        0 <= i < j < s.len() ==> !lex_less(path_bytes(#[trigger] s[j]), path_bytes(#[trigger] s[i]))
}

/// Whether the filter lets the entry through.
pub open spec fn passes(filter: Option<WalkFilter>, e: Entry) -> bool {
    match filter {
        None => true,
        Some(WalkFilter::Files) => e.kind == EntryKind::File,
        Some(WalkFilter::Dirs) => e.kind == EntryKind::Dir,
    }
}

/// The outcome of one step of a walk.
pub ghost struct Advance {
    pub event: WalkEvent,
    /// The entries that are left, in the order they come.
    pub queue: Seq<Entry>,
    /// The directory whose listing is asked for.
    pub awaiting: Option<Entry>,
}

/// The next step of a walk with `queue` before it: entries that the filter
/// holds back are passed over; a directory that is to be gone into is asked
/// for before anything else is done with it.
pub open spec fn advance(recursive: bool, filter: Option<WalkFilter>, queue: Seq<Entry>) -> Advance
    decreases queue.len(),
{
    if queue.len() == 0 {
        Advance { event: WalkEvent::End, queue, awaiting: None }
    } else if queue[0].kind == EntryKind::Dir && recursive {
        Advance {
            event: WalkEvent::ReadDir(queue[0].path),
            queue: queue.drop_first(),
            awaiting: Some(queue[0]),
        }
    } else if passes(filter, queue[0]) {
        Advance { event: WalkEvent::Path(queue[0].path), queue: queue.drop_first(), awaiting: None }
    } else {
        advance(recursive, filter, queue.drop_first())
    }
}

/// A filter only holds paths back. Step by step, the walk with a filter
/// does what the walk without one does, except that a path which the filter
/// holds back is passed over; so it asks for the same directories and goes
/// the same way, and any other rule on paths can be applied to what a walk
/// without filter yields.
pub proof fn lemma_filter_only_holds_back(
    recursive: bool,
    filter: Option<WalkFilter>,
    queue: Seq<Entry>,
)
    ensures
        ({
            let free = advance(recursive, None, queue);
            let held = advance(recursive, filter, queue);
            if free.event is Path && !passes(filter, queue[0]) {
                held == advance(recursive, filter, free.queue)
            } else {
                held == free
            }
        }),
{
}

/// Whether the entries stand in descending order of their paths.
spec fn descending(s: Seq<Entry>) -> bool {
    forall|i: int, j: int|
        0 <= i < j < s.len() ==> !lex_less(path_bytes(#[trigger] s[i]), path_bytes(#[trigger] s[j]))
}

/// Moves the entries of `listing` to the end of `out`, the greatest path
/// first.
#[verifier::rlimit(40)]
fn sort_into(listing: Vec<Entry>, out: &mut Vec<Entry>)
    ensures
        final(out)@.len() == old(out)@.len() + listing@.len(),
        final(out)@.take(old(out)@.len() as int) == old(out)@,
        descending(final(out)@.skip(old(out)@.len() as int)),
        final(out)@.skip(old(out)@.len() as int).to_multiset() == listing@.to_multiset(),
{
    let mut listing = listing;
    let ghost given = listing@;
    let ghost start = out@;
    let ghost n0 = out@.len() as int;
    proof {
        assert(out@.skip(n0) =~= Seq::<Entry>::empty());
        assert(out@.take(n0) =~= start);
        assert(Seq::<Entry>::empty().to_multiset().add(listing@.to_multiset())
            =~= given.to_multiset()) by {
            broadcast use vstd::seq_lib::group_to_multiset_ensures;

        }
    }
    while listing.len() > 0
        invariant
            n0 == start.len(),
            n0 <= out@.len(),
            out@.len() == n0 + given.len() - listing@.len(),
            out@.take(n0) == start,
            descending(out@.skip(n0)),
            forall|a: int, k: int|
                0 <= a < out@.len() - n0 && 0 <= k < listing@.len() ==> !lex_less(
                    path_bytes(#[trigger] out@.skip(n0)[a]),
                    path_bytes(#[trigger] listing@[k]),
                ),
            out@.skip(n0).to_multiset().add(listing@.to_multiset()) == given.to_multiset(),
        decreases listing@.len(),
    {
        let mut best: usize = 0;
        let mut j: usize = 1;
        proof {
            let first = path_bytes(listing@[0]);
            lemma_lex_less_order(first, first, first);
        }
        while j < listing.len()
            invariant
                best < j <= listing@.len(),
                forall|k: int|
                    0 <= k < j ==> !lex_less(
                        path_bytes(listing@[best as int]),
                        path_bytes(#[trigger] listing@[k]),
                    ),
            decreases listing@.len() - j,
        {
            if bytes_less(
                listing[best].path.as_str().as_bytes(),
                listing[j].path.as_str().as_bytes(),
            ) {
                proof {
                    let newer = path_bytes(listing@[j as int]);
                    assert forall|k: int| 0 <= k < j + 1 implies !lex_less(
                        newer,
                        path_bytes(#[trigger] listing@[k]),
                    ) by {
                        lemma_lex_less_order(
                            path_bytes(listing@[best as int]),
                            newer,
                            path_bytes(listing@[k]),
                        );
                        lemma_lex_less_order(newer, newer, newer);
                    }
                }
                best = j;
            }
            j += 1;
        }
        let ghost before = listing@;
        let ghost pushed = out@.skip(n0);
        let ghost earlier = out@;
        let entry = listing.remove(best);
        out.push(entry);
        proof {
            let now = out@.skip(n0);
            assert(out@ == earlier.push(entry));
            assert(now =~= pushed.push(entry));
            assert(earlier.take(n0) == start);
            assert(out@.take(n0) =~= start);
            to_multiset_remove(before, best as int);
            vstd::seq_lib::to_multiset_build(pushed, entry);
            assert(before.to_multiset().count(entry) > 0) by {
                broadcast use vstd::seq_lib::group_to_multiset_ensures;

                assert(before.contains(entry));
            }
            assert(now.to_multiset().add(listing@.to_multiset()) =~= pushed.to_multiset().add(
                before.to_multiset(),
            ));
            assert forall|a: int, k: int|
                0 <= a < now.len() && 0 <= k < listing@.len() implies !lex_less(
                path_bytes(#[trigger] now[a]),
                path_bytes(#[trigger] listing@[k]),
            ) by {
                let source = if k < best {
                    k
                } else {
                    k + 1
                };
                assert(listing@[k] == before[source]);
                if a < pushed.len() {
                    assert(now[a] == pushed[a]);
                }
            }
            assert forall|a: int, b: int| 0 <= a < b < now.len() implies !lex_less(
                path_bytes(#[trigger] now[a]),
                path_bytes(#[trigger] now[b]),
            ) by {
                if b < pushed.len() {
                    assert(now[a] == pushed[a] && now[b] == pushed[b]);
                } else {
                    assert(now[a] == pushed[a]);
                    assert(now[b] == before[best as int]);
                }
            }
        }
    }
    proof {
        assert(listing@ =~= Seq::<Entry>::empty());
        assert(out@.skip(n0).to_multiset().add(Seq::<Entry>::empty().to_multiset()) =~= out@.skip(
            n0,
        ).to_multiset()) by {
            broadcast use vstd::seq_lib::group_to_multiset_ensures;

        }
    }
}

/// A walk through a directory tree.
pub struct DirWalk {
    remain: Vec<Entry>,
    awaiting: Option<Entry>,
    parameters: DirWalkParameters,
}

impl DirWalk {
    /// The entries that are left, in the order they come.
    pub closed spec fn queue(&self) -> Seq<Entry> {
        self.remain@.reverse()
    }

    /// The directory whose listing the walk waits for.
    pub closed spec fn awaiting(&self) -> Option<Entry> {
        self.awaiting
    }

    /// How the walk goes.
    pub closed spec fn parameters(&self) -> DirWalkParameters {
        self.parameters
    }

    /// A walk below the root directory, whose listing is `root_listing`;
    /// `None` if the root could not be listed.
    pub fn new(parameters: DirWalkParameters, root_listing: Option<Vec<Entry>>) -> (r: Option<
        DirWalk,
    >)
        ensures
            match root_listing {
                None => r is None,
                Some(listing) => {
                    &&& r is Some
                    &&& r->0.parameters() == parameters
                    &&& r->0.awaiting() is None
                    &&& sorted_by_path(r->0.queue())
                    &&& r->0.queue().to_multiset() == listing@.to_multiset()
                },
            },
    {
        match root_listing {
            None => None,
            Some(listing) => {
                let mut remain: Vec<Entry> = Vec::new();
                sort_into(listing, &mut remain);
                proof {
                    assert(remain@.skip(0) =~= remain@);
                    remain@.lemma_reverse_to_multiset();
                    lemma_reverse_sorted(remain@);
                }
                Some(DirWalk { remain, awaiting: None, parameters })
            },
        }
    }

    /// A walk through everything below `root_dir`.
    pub fn new_recursive(root_dir: &str, root_listing: Option<Vec<Entry>>) -> (r: Option<DirWalk>)
        ensures
            match root_listing {
                None => r is None,
                Some(listing) => {
                    &&& r is Some
                    &&& r->0.parameters().root_dir@ == root_dir@
                    &&& r->0.parameters().recursive
                    &&& r->0.parameters().filter is None
                    &&& r->0.awaiting() is None
                    &&& sorted_by_path(r->0.queue())
                    &&& r->0.queue().to_multiset() == listing@.to_multiset()
                },
            },
    {
        DirWalk::new(
            DirWalkParameters { root_dir: root_dir.to_owned(), recursive: true, filter: None },
            root_listing,
        )
    }

    /// The next step. While a listing is waited for, the step asks for it
    /// again and changes nothing.
    pub fn next_event(&mut self) -> (r: WalkEvent)
        ensures
            final(self).parameters() == old(self).parameters(),
            match old(self).awaiting() {
                Some(e) => {
                    &&& r == WalkEvent::ReadDir(e.path)
                    &&& final(self).queue() == old(self).queue()
                    &&& final(self).awaiting() == old(self).awaiting()
                },
                None => {
                    let step = advance(
                        old(self).parameters().recursive,
                        old(self).parameters().filter,
                        old(self).queue(),
                    );
                    &&& r == step.event
                    &&& final(self).queue() == step.queue
                    &&& final(self).awaiting() == step.awaiting
                },
            },
    {
        match &self.awaiting {
            Some(e) => {
                return WalkEvent::ReadDir(e.path.clone());
            },
            None => {},
        }
        let recursive = self.parameters.recursive;
        let ghost filter = self.parameters.filter;
        let ghost start = self.remain@.reverse();
        loop
            invariant
                self.awaiting is None,
                old(self).awaiting is None,
                start == old(self).remain@.reverse(),
                self.parameters == old(self).parameters,
                recursive == self.parameters.recursive,
                filter == self.parameters.filter,
                advance(recursive, filter, start) == advance(
                    recursive,
                    filter,
                    self.remain@.reverse(),
                ),
            decreases self.remain@.len(),
        {
            let ghost before = self.remain@;
            match self.remain.pop() {
                None => {
                    proof {
                        assert(before.reverse() =~= Seq::<Entry>::empty());
                    }
                    return WalkEvent::End;
                },
                Some(entry) => {
                    proof {
                        assert(before.reverse()[0] == entry);
                        assert(before.reverse().drop_first() =~= self.remain@.reverse());
                    }
                    if is_dir_kind(entry.kind) && recursive {
                        let path = entry.path.clone();
                        self.awaiting = Some(entry);
                        return WalkEvent::ReadDir(path);
                    }
                    if filter_passes(&self.parameters.filter, &entry) {
                        return WalkEvent::Path(entry.path);
                    }
                },
            }
        }
    }

    /// Takes the listing of the directory that was asked for, or `None` if
    /// it could not be listed: its entries come next, sorted by path. Returns
    /// the path of the directory itself if the filter lets it through. Does
    /// nothing if no listing was asked for.
    #[verifier::rlimit(40)]
    pub fn enter(&mut self, listing: Option<Vec<Entry>>) -> (r: Option<String>)
        ensures
            final(self).parameters() == old(self).parameters(),
            final(self).awaiting() is None,
            match old(self).awaiting() {
                None => r is None && final(self).queue() == old(self).queue(),
                Some(e) => {
                    &&& r == (if passes(old(self).parameters().filter, e) {
                        Some(e.path)
                    } else {
                        None
                    })
                    &&& match listing {
                        None => final(self).queue() == old(self).queue(),
                        Some(children) => {
                            let n = children@.len() as int;
                            &&& final(self).queue().len() == n + old(self).queue().len()
                            &&& final(self).queue().skip(n) == old(self).queue()
                            &&& sorted_by_path(final(self).queue().take(n))
                            &&& final(self).queue().take(n).to_multiset()
                                == children@.to_multiset()
                        },
                    }
                },
            },
    {
        let mut awaited: Option<Entry> = None;
        std::mem::swap(&mut awaited, &mut self.awaiting);
        let entry = match awaited {
            None => {
                return None;
            },
            Some(entry) => entry,
        };
        match listing {
            None => {},
            Some(children) => {
                let ghost before = self.remain@;
                let ghost n = children@.len() as int;
                sort_into(children, &mut self.remain);
                proof {
                    let after = self.remain@;
                    let added = after.skip(before.len() as int);
                    assert(after =~= before + added) by {
                        assert(after.take(before.len() as int) == before);
                    }
                    assert(after.reverse() =~= added.reverse() + before.reverse());
                    assert(after.reverse().skip(n) =~= before.reverse());
                    assert(after.reverse().take(n) =~= added.reverse());
                    added.lemma_reverse_to_multiset();
                    lemma_reverse_sorted(added);
                }
            },
        }
        if filter_passes(&self.parameters.filter, &entry) {
            Some(entry.path)
        } else {
            None
        }
    }
}

/// Turned round, a descending sequence ascends.
proof fn lemma_reverse_sorted(s: Seq<Entry>)
    requires
        descending(s),
    ensures
        sorted_by_path(s.reverse()),
{
    let r = s.reverse();
    assert forall|i: int, j: int| 0 <= i < j < r.len() implies !lex_less(
        path_bytes(#[trigger] r[j]),
        path_bytes(#[trigger] r[i]),
    ) by {
        assert(r[i] == s[s.len() - 1 - i]);
        assert(r[j] == s[s.len() - 1 - j]);
    }
}

/// Whether the entry is a directory.
fn is_dir_kind(kind: EntryKind) -> (r: bool)
    ensures
        r == (kind == EntryKind::Dir),
{
    crate::misc_helper::is_dir(kind)
}

/// Whether the filter lets the entry through.
fn filter_passes(filter: &Option<WalkFilter>, e: &Entry) -> (r: bool)
    ensures
        r == passes(*filter, *e),
{
    match filter {
        None => true,
        Some(WalkFilter::Files) => crate::misc_helper::is_file(e.kind),
        Some(WalkFilter::Dirs) => crate::misc_helper::is_dir(e.kind),
    }
}

} // verus!
