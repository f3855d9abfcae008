//! The directory merge table.
//!
//! A directory that exists in both trees is listed as one: first what the
//! upper directory holds, then what the lower one holds under names that the
//! upper one did not show. The table keeps, for each such directory that is
//! open, the handle of its lower half and the names seen so far. It is
//! keyed by the upper handle, which is the one that the caller holds.
//!
//! Handles are opaque numbers. Zero is the handle that a failed open gives.

use std::collections::HashMap;
use vstd::prelude::*;
use vstd::std_specs::hash::*;
use crate::path::bytes_of;

verus! {

broadcast use vstd::std_specs::hash::group_hash_axioms;

/// The names that a list of recorded names stands for.
pub open spec fn names_seen(recorded: Seq<Vec<u8>>) -> Set<Seq<u8>> {
    Set::new(|name: Seq<u8>| exists|i: int| 0 <= i < recorded.len() && recorded[i]@ == name)
}

/// One merged directory: the handle of its lower half and the names that
/// its upper half has shown.
#[derive(Debug)]
pub struct MergedDir {
    lower: usize,
    seen: Vec<Vec<u8>>,
}

/// A `MergedDir` as plain values.
pub struct MergedDirView {
    /// The handle of the lower directory.
    pub lower: usize,
    /// The names that the upper directory has shown so far.
    pub seen: Set<Seq<u8>>,
}

impl View for MergedDir {
    type V = MergedDirView;

    closed spec fn view(&self) -> MergedDirView {
        MergedDirView { lower: self.lower, seen: names_seen(self.seen@) }
    }
}

impl MergedDir {
    /// No name is recorded twice.
    #[verifier::type_invariant]
    spec fn distinct(self) -> bool {
        forall|i: int, j: int|
            0 <= i < j < self.seen.len() ==> (#[trigger] self.seen[i])@ != (#[trigger] self.seen[j])@
    }

    fn new(lower: usize) -> (dir: MergedDir)
        ensures
            dir@ == (MergedDirView { lower, seen: Set::empty() }),
    {
        let dir = MergedDir { lower, seen: Vec::new() };
        assert(names_seen(dir.seen@) =~= Set::empty());
        dir
    }

    fn has_seen(&self, name: &Vec<u8>) -> (seen: bool)
        ensures
            seen == self@.seen.contains(name@),
    {
        let mut i: usize = 0;
        while i < self.seen.len()
            invariant
                0 <= i <= self.seen.len(),
                forall|k: int| 0 <= k < i ==> (#[trigger] self.seen[k])@ != name@,
            decreases self.seen.len() - i,
        {
            if same_name(&self.seen[i], name) {
                return true;
            }
            i += 1;
        }
        false
    }

    fn record(self, name: Vec<u8>) -> (dir: MergedDir)
        ensures
            dir@ == (MergedDirView { lower: self@.lower, seen: self@.seen.insert(name@) }),
    {
        proof {
            use_type_invariant(&self);
        }
        if self.has_seen(&name) {
            assert(self@.seen.insert(name@) =~= self@.seen);
            return self;
        }
        let ghost before = self.seen@;
        let MergedDir { lower, seen } = self;
        let mut seen = seen;
        seen.push(name);
        let dir = MergedDir { lower, seen };
        proof {
            assert forall|n: Seq<u8>| names_seen(dir.seen@).contains(n) <==> names_seen(
                before,
            ).insert(name@).contains(n) by {
                if names_seen(before).contains(n) {
                    let i = choose|i: int| 0 <= i < before.len() && before[i]@ == n;
                    assert(dir.seen@[i]@ == n);
                }
                if n == name@ {
                    assert(dir.seen@[before.len() as int]@ == n);
                }
            }
            assert(names_seen(dir.seen@) =~= names_seen(before).insert(name@));
        }
        dir
    }
}

fn same_name(a: &Vec<u8>, b: &Vec<u8>) -> (same: bool)
    ensures
        same == (a@ == b@),
{
    if a.len() != b.len() {
        return false;
    }
    let mut i: usize = 0;
    while i < a.len()
        invariant
            a.len() == b.len(),
            0 <= i <= a.len(),
            forall|k: int| 0 <= k < i ==> a@[k] == b@[k],
        decreases a.len() - i,
    {
        if a[i] != b[i] {
            return false;
        }
        i += 1;
    }
    assert(a@ =~= b@);
    true
}

/// What happened on a directory handle.
#[derive(Debug)]
pub enum DirEvent {
    /// The next entry was asked for, on a thread that is guarded or not.
    Called { guarded: bool },
    /// The upper directory was read: it gave an entry of this name, or it
    /// is exhausted.
    Upper { name: Option<Vec<u8>> },
    /// The lower directory was read: it gave an entry of this name, or it
    /// is exhausted.
    Lower { name: Option<Vec<u8>> },
}

/// A `DirEvent` as plain values.
pub enum DirEventView {
    Called { guarded: bool },
    Upper { name: Option<Seq<u8>> },
    Lower { name: Option<Seq<u8>> },
}

impl View for DirEvent {
    type V = DirEventView;

    open spec fn view(&self) -> DirEventView {
        match *self {
            DirEvent::Called { guarded } => DirEventView::Called { guarded },
            DirEvent::Upper { name } => DirEventView::Upper { name: bytes_of(name) },
            DirEvent::Lower { name } => DirEventView::Lower { name: bytes_of(name) },
        }
    }
}

/// What to do about a directory handle next.
#[derive(Clone, Copy, Debug, PartialEq, Eq, Structural)]
pub enum DirAction {
    /// Read the handle itself and hand back whatever comes.
    Forward,
    /// Read the handle itself, which is the upper directory, and report it
    /// as `Upper`.
    ReadUpper,
    /// Read the lower directory, whose handle this is, and report it as
    /// `Lower`.
    ReadLower { lower: usize },
    /// Hand back the entry that was just reported.
    Yield,
    /// Report the end of the directory.
    End,
}

/// The table after a directory was opened: where the lower open gave a
/// handle, the two are registered under the upper handle with no name seen,
/// in place of whatever was registered under it.
pub open spec fn after_open(table: Map<usize, MergedDirView>, upper: usize, lower: usize) -> Map<
    usize,
    MergedDirView,
> {
    if lower != 0 {
        table.insert(upper, MergedDirView { lower, seen: Set::empty() })
    } else {
        table
    }
}

/// The table after `event` on the handle `dir`, and what to do next.
///
/// - A call on a guarded thread, or on a handle that is not registered, is
///   forwarded. A call on a registered handle reads the upper directory.
/// - An entry of the upper directory is handed back, and its name is
///   recorded. When the upper directory is exhausted the lower one is read.
/// - An entry of the lower directory is handed back unless its name was
///   recorded; then the lower directory is read again. When it is exhausted
///   the listing ends.
pub open spec fn react(table: Map<usize, MergedDirView>, dir: usize, event: DirEventView) -> (
    Map<usize, MergedDirView>,
    DirAction,
) {
    match event {
        DirEventView::Called { guarded } => (
            table,
            if guarded || !table.contains_key(dir) {
                DirAction::Forward
            } else {
                DirAction::ReadUpper
            },
        ),
        DirEventView::Upper { name: Some(name) } => (
            if table.contains_key(dir) {
                table.insert(
                    dir,
                    MergedDirView { lower: table[dir].lower, seen: table[dir].seen.insert(name) },
                )
            } else {
                table
            },
            DirAction::Yield,
        ),
        DirEventView::Upper { name: None } => (
            table,
            if table.contains_key(dir) {
                DirAction::ReadLower { lower: table[dir].lower }
            } else {
                DirAction::End
            },
        ),
        DirEventView::Lower { name: Some(name) } => (
            table,
            if table.contains_key(dir) && table[dir].seen.contains(name) {
                DirAction::ReadLower { lower: table[dir].lower }
            } else {
                DirAction::Yield
            },
        ),
        DirEventView::Lower { name: None } => (table, DirAction::End),
    }
}

/// Tells whether `event` is answered without a look at the table: a call
/// on a guarded thread is forwarded whatever the table holds, so the table
/// need not be reached for it.
pub fn bypasses_table(event: &DirEvent) -> (bypass: bool)
    ensures
        bypass == (event@ == DirEventView::Called { guarded: true }),
        bypass ==> forall|table: Map<usize, MergedDirView>, dir: usize|
            #[trigger] react(table, dir, event@) == (table, DirAction::Forward),
{
    match event {
        DirEvent::Called { guarded } => *guarded,
        _ => false,
    }
}

/// The table after the handle `dir` was closed, and the lower handle to
/// close with it: the entry of a registered handle goes, names and all, and
/// a handle that is not registered changes nothing.
pub open spec fn after_close(table: Map<usize, MergedDirView>, dir: usize) -> (
    Map<usize, MergedDirView>,
    Option<usize>,
) {
    if table.contains_key(dir) {
        (table.remove(dir), Some(table[dir].lower))
    } else {
        (table, None)
    }
}

/// The name that an event carries.
pub open spec fn name_of(event: DirEventView) -> Option<Seq<u8>> {
    match event {
        DirEventView::Called { .. } => None,
        DirEventView::Upper { name } => name,
        DirEventView::Lower { name } => name,
    }
}

/// How far a call has come: it is held against the upper directory first
/// and against the lower one after that.
pub open spec fn stage(event: DirEventView) -> nat {
    match event {
        DirEventView::Called { .. } => 2,
        DirEventView::Upper { .. } => 1,
        DirEventView::Lower { .. } => 0,
    }
}

/// What a directory gives when it is read: its first name, or nothing at
/// its end.
pub open spec fn first_of(names: Seq<Seq<u8>>) -> Option<Seq<u8>> {
    if names.len() > 0 {
        Some(names[0])
    } else {
        None
    }
}

/// What a directory holds after it was read once.
pub open spec fn rest_of(names: Seq<Seq<u8>>) -> Seq<Seq<u8>> {
    if names.len() > 0 {
        names.skip(1)
    } else {
        names
    }
}

/// How one call for the next entry ends.
pub struct Served {
    /// The table after the call.
    pub table: Map<usize, MergedDirView>,
    /// The name of the entry handed back, or `None` at the end.
    pub entry: Option<Seq<u8>>,
    /// The names that the upper directory still holds.
    pub upper: Seq<Seq<u8>>,
    /// The names that the lower directory still holds.
    pub lower: Seq<Seq<u8>>,
}

/// One call for the next entry of `dir`, carried out as the table says:
/// from `event` on, each directory is read when the table asks for it, and
/// what it gives is reported back, until the table has the entry handed
/// back or the end reported. `upper` and `lower` are the names that the two
/// directories still hold, in the order in which they give them.
pub open spec fn serve(
    table: Map<usize, MergedDirView>,
    dir: usize,
    event: DirEventView,
    upper: Seq<Seq<u8>>,
    lower: Seq<Seq<u8>>,
) -> Served
    decreases stage(event), lower.len() + (if name_of(event) is Some {
        1nat
    } else {
        0nat
    }),
{
    let (next, action) = react(table, dir, event);
    match action {
        DirAction::Forward => Served {
            table: next,
            entry: first_of(upper),
            upper: rest_of(upper),
            lower,
        },
        DirAction::ReadUpper => serve(
            next,
            dir,
            DirEventView::Upper { name: first_of(upper) },
            rest_of(upper),
            lower,
        ),
        DirAction::ReadLower { .. } => serve(
            next,
            dir,
            DirEventView::Lower { name: first_of(lower) },
            upper,
            rest_of(lower),
        ),
        DirAction::Yield => Served { table: next, entry: name_of(event), upper, lower },
        DirAction::End => Served { table: next, entry: None, upper, lower },
    }
}

/// Everything that calls for the next entry of `dir` hand back, one after
/// the other, until the end is reported.
pub open spec fn listing(
    table: Map<usize, MergedDirView>,
    dir: usize,
    upper: Seq<Seq<u8>>,
    lower: Seq<Seq<u8>>,
) -> Seq<Seq<u8>>
    decreases upper.len() + lower.len(),
    via listing_decreases
{
    let served = serve(table, dir, DirEventView::Called { guarded: false }, upper, lower);
    match served.entry {
        Some(name) => seq![name] + listing(served.table, dir, served.upper, served.lower),
        None => Seq::empty(),
    }
}

#[via_fn]
proof fn listing_decreases(
    table: Map<usize, MergedDirView>,
    dir: usize,
    upper: Seq<Seq<u8>>,
    lower: Seq<Seq<u8>>,
) {
    lemma_serve_uses_up(table, dir, DirEventView::Called { guarded: false }, upper, lower);
}

/// The names of `lower` that are not in `shadow`, in their order.
pub open spec fn unshadowed(lower: Seq<Seq<u8>>, shadow: Set<Seq<u8>>) -> Seq<Seq<u8>>
    decreases lower.len(),
{
    if lower.len() == 0 {
        Seq::empty()
    } else if shadow.contains(lower[0]) {
        unshadowed(lower.skip(1), shadow)
    } else {
        seq![lower[0]] + unshadowed(lower.skip(1), shadow)
    }
}

/// A call hands back at most one name, and takes it from the directories:
/// they hold fewer names after a call that handed one back.
pub proof fn lemma_serve_uses_up(
    table: Map<usize, MergedDirView>,
    dir: usize,
    event: DirEventView,
    upper: Seq<Seq<u8>>,
    lower: Seq<Seq<u8>>,
)
    ensures
        ({
            let served = serve(table, dir, event, upper, lower);
            served.upper.len() + served.lower.len() + (if served.entry is Some {
                1nat
            } else {
                0nat
            }) <= upper.len() + lower.len() + (if name_of(event) is Some {
                1nat
            } else {
                0nat
            })
        }),
    decreases stage(event), lower.len() + (if name_of(event) is Some {
        1nat
    } else {
        0nat
    }),
{
    let (next, action) = react(table, dir, event);
    match action {
        DirAction::ReadUpper => {
            lemma_serve_uses_up(
                next,
                dir,
                DirEventView::Upper { name: first_of(upper) },
                rest_of(upper),
                lower,
            );
        },
        DirAction::ReadLower { .. } => {
            lemma_serve_uses_up(
                next,
                dir,
                DirEventView::Lower { name: first_of(lower) },
                upper,
                rest_of(lower),
            );
        },
        _ => {},
    }
}

/// The table never forgets a name while a directory is open, and events on
/// one handle leave the other entries alone.
pub proof fn lemma_seen_only_grows(
    table: Map<usize, MergedDirView>,
    dir: usize,
    event: DirEventView,
    other: usize,
)
    ensures
        react(table, dir, event).0.contains_key(other) == table.contains_key(other),
        table.contains_key(other) ==> react(table, dir, event).0[other].lower
            == table[other].lower,
        table.contains_key(other) ==> table[other].seen.subset_of(
            react(table, dir, event).0[other].seen,
        ),
        table.contains_key(other) && other != dir ==> react(table, dir, event).0[other]
            == table[other],
{
}

/// Reading the lower half of a merged directory: the names that were seen
/// in the upper half are passed over, the first one that was not is handed
/// back, and the table stays as it is.
proof fn lemma_lower_entry(
    table: Map<usize, MergedDirView>,
    dir: usize,
    upper: Seq<Seq<u8>>,
    lower: Seq<Seq<u8>>,
)
    requires
        table.contains_key(dir),
    ensures
        ({
            let served = serve(
                table,
                dir,
                DirEventView::Lower { name: first_of(lower) },
                upper,
                rest_of(lower),
            );
            let left = unshadowed(lower, table[dir].seen);
            &&& served.table == table
            &&& served.upper == upper
            &&& served.entry == first_of(left)
            &&& served.entry is Some ==> unshadowed(served.lower, table[dir].seen) == left.skip(1)
        }),
    decreases lower.len(),
{
    if lower.len() > 0 && table[dir].seen.contains(lower[0]) {
        lemma_lower_entry(table, dir, upper, lower.skip(1));
    }
}

/// The merged listing: every name of the upper directory, in its order,
/// and after them the names of the lower directory that the upper one does
/// not hold and that were not seen before, in their order.
pub proof fn lemma_merged_listing(
    table: Map<usize, MergedDirView>,
    dir: usize,
    upper: Seq<Seq<u8>>,
    lower: Seq<Seq<u8>>,
)
    requires
        table.contains_key(dir),
    ensures
        listing(table, dir, upper, lower) == upper + unshadowed(
            lower,
            table[dir].seen.union(upper.to_set()),
        ),
    decreases upper.len() + lower.len(),
{
    let seen = table[dir].seen;
    let called = DirEventView::Called { guarded: false };
    let served = serve(table, dir, called, upper, lower);
    // The call reads the upper directory first.
    let reported = serve(
        table,
        dir,
        DirEventView::Upper { name: first_of(upper) },
        rest_of(upper),
        lower,
    );
    assert(served == reported);
    if upper.len() > 0 {
        // Its first name is handed back and recorded; the rest follows.
        let name = upper[0];
        let next = react(table, dir, DirEventView::Upper { name: Some(name) }).0;
        lemma_merged_listing(next, dir, upper.skip(1), lower);
        assert(next[dir].seen.union(upper.skip(1).to_set()) =~= seen.union(upper.to_set())) by {
            assert forall|n: Seq<u8>| upper.to_set().contains(n) <==> (n == name
                || upper.skip(1).to_set().contains(n)) by {
                if upper.to_set().contains(n) {
                    let i = choose|i: int| 0 <= i < upper.len() && upper[i] == n;
                    if i > 0 {
                        assert(upper.skip(1)[i - 1] == n);
                    }
                }
            }
        }
    } else {
        // It is exhausted, so the lower directory is read.
        assert(seen.union(upper.to_set()) =~= seen);
        lemma_lower_entry(table, dir, upper, lower);
        if served.entry is Some {
            lemma_serve_uses_up(table, dir, called, upper, lower);
            lemma_merged_listing(table, dir, upper, served.lower);
        }
    }
}

/// Closing a handle that is not registered leaves the table as it is and
/// names no lower handle to close.
pub proof fn lemma_close_unregistered(table: Map<usize, MergedDirView>, dir: usize)
    requires
        !table.contains_key(dir),
    ensures
        after_close(table, dir) == (table, None::<usize>),
{
}

/// Closing takes the whole entry away: the lower handle is handed out once,
/// and the handle is not registered afterwards, until it is opened again.
pub proof fn lemma_close_registered(table: Map<usize, MergedDirView>, upper: usize, lower: usize)
    requires
        lower != 0,
    ensures
        after_close(after_open(table, upper, lower), upper) == (table.remove(upper), Some(lower)),
        !after_close(after_open(table, upper, lower), upper).0.contains_key(upper),
        react(
            after_close(after_open(table, upper, lower), upper).0,
            upper,
            DirEventView::Called { guarded: false },
        ).1 == DirAction::Forward,
{
}

/// What `unshadowed` keeps is a name of `lower` that `shadow` does not
/// hold, and it keeps no name twice where `lower` holds none twice.
pub proof fn lemma_unshadowed(lower: Seq<Seq<u8>>, shadow: Set<Seq<u8>>)
    ensures
        forall|i: int|
            0 <= i < unshadowed(lower, shadow).len() ==> lower.contains(
                #[trigger] unshadowed(lower, shadow)[i],
            ) && !shadow.contains(unshadowed(lower, shadow)[i]),
        lower.no_duplicates() ==> unshadowed(lower, shadow).no_duplicates(),
    decreases lower.len(),
{
    if lower.len() > 0 {
        let tail = lower.skip(1);
        let kept = unshadowed(tail, shadow);
        lemma_unshadowed(tail, shadow);
        assert forall|i: int| 0 <= i < kept.len() implies lower.contains(#[trigger] kept[i])
            && (lower.no_duplicates() ==> kept[i] != lower[0]) by {
            let j = choose|j: int| 0 <= j < tail.len() && tail[j] == kept[i];
            assert(lower[j + 1] == kept[i]);
        }
        if lower.no_duplicates() {
            assert forall|i: int, j: int| 0 <= i < j < tail.len() implies tail[i] != tail[j] by {
                assert(lower[i + 1] != lower[j + 1]);
            }
            assert(tail.no_duplicates());
        }
        if !shadow.contains(lower[0]) {
            let all = seq![lower[0]] + kept;
            assert(lower.contains(lower[0]));
            assert forall|i: int| 0 <= i < all.len() implies lower.contains(#[trigger] all[i])
                && !shadow.contains(all[i]) by {
                if i > 0 {
                    assert(all[i] == kept[i - 1]);
                }
            }
            if lower.no_duplicates() {
                assert forall|i: int, j: int| 0 <= i < j < all.len() implies all[i] != all[j] by {
                    assert(all[j] == kept[j - 1]);
                    if i > 0 {
                        assert(all[i] == kept[i - 1]);
                    }
                }
            }
        }
    }
}

/// What `unshadowed` keeps, as a set: the names of `lower` that `shadow`
/// does not hold.
pub proof fn lemma_unshadowed_names(lower: Seq<Seq<u8>>, shadow: Set<Seq<u8>>)
    ensures
        unshadowed(lower, shadow).to_set() == lower.to_set().difference(shadow),
    decreases lower.len(),
{
    let kept = unshadowed(lower, shadow);
    lemma_unshadowed(lower, shadow);
    assert forall|name: Seq<u8>| lower.to_set().difference(shadow).contains(name) implies kept.to_set().contains(
        name,
    ) by {
        let i = choose|i: int| 0 <= i < lower.len() && lower[i] == name;
        let tail = lower.skip(1);
        if i == 0 {
            assert(kept[0] == name);
        } else {
            lemma_unshadowed_names(tail, shadow);
            assert(tail[i - 1] == name);
            assert(tail.to_set().difference(shadow).contains(name));
            let j = choose|j: int|
                0 <= j < unshadowed(tail, shadow).len() && unshadowed(tail, shadow)[j] == name;
            if !shadow.contains(lower[0]) {
                assert(kept[j + 1] == name);
            }
        }
    }
}

/// A merged listing shows what either directory holds: every name of the
/// upper directory, and every name of the lower directory that was not seen
/// before; and nothing else.
pub proof fn lemma_listing_is_the_union(
    table: Map<usize, MergedDirView>,
    dir: usize,
    upper: Seq<Seq<u8>>,
    lower: Seq<Seq<u8>>,
)
    requires
        table.contains_key(dir),
    ensures
        listing(table, dir, upper, lower).to_set() == upper.to_set().union(
            lower.to_set().difference(table[dir].seen),
        ),
{
    let shadow = table[dir].seen.union(upper.to_set());
    let kept = unshadowed(lower, shadow);
    let all = upper + kept;
    lemma_merged_listing(table, dir, upper, lower);
    lemma_unshadowed_names(lower, shadow);
    assert forall|name: Seq<u8>| all.to_set().contains(name) <==> (upper.to_set().contains(name)
        || kept.to_set().contains(name)) by {
        if upper.to_set().contains(name) {
            let i = choose|i: int| 0 <= i < upper.len() && upper[i] == name;
            assert(all[i] == name);
        }
        if kept.to_set().contains(name) {
            let i = choose|i: int| 0 <= i < kept.len() && kept[i] == name;
            assert(all[i + upper.len()] == name);
        }
    }
}

/// A merged listing hands no name back twice, where neither directory
/// holds a name twice: a name that both hold comes once, from the upper
/// one.
pub proof fn lemma_listing_repeats_nothing(
    table: Map<usize, MergedDirView>,
    dir: usize,
    upper: Seq<Seq<u8>>,
    lower: Seq<Seq<u8>>,
)
    requires
        table.contains_key(dir),
        upper.no_duplicates(),
        lower.no_duplicates(),
    ensures
        listing(table, dir, upper, lower).no_duplicates(),
{
    lemma_merged_listing(table, dir, upper, lower);
    lemma_unshadowed(lower, table[dir].seen.union(upper.to_set()));
}

/// The merged directories that are open.
pub struct MergeTable {
    dirs: HashMap<usize, MergedDir>,
}

impl View for MergeTable {
    type V = Map<usize, MergedDirView>;

    closed spec fn view(&self) -> Map<usize, MergedDirView> {
        Map::new(|upper: usize| self.dirs@.contains_key(upper), |upper: usize| self.dirs@[upper]@)
    }
}

impl MergeTable {
    /// A table without entries.
    pub fn new() -> (table: MergeTable)
        ensures
            table@ == Map::<usize, MergedDirView>::empty(),
    {
        let table = MergeTable { dirs: HashMap::new() };
        assert(table@ =~= Map::<usize, MergedDirView>::empty());
        table
    }

    /// Takes note of a directory that was opened in both trees, `upper`
    /// being the handle of the upper one and `lower` that of the lower one,
    /// and returns the handle to give to the caller: the upper one.
    ///
    /// The directory is registered as merged where the lower open gave a
    /// handle. A failed lower open leaves the table as it is.
    pub fn opendir(&mut self, upper: usize, lower: usize) -> (dir: usize)
        ensures
            dir == upper,
            final(self)@ == after_open(old(self)@, upper, lower),
    {
        if lower != 0 {
            self.dirs.insert(upper, MergedDir::new(lower));
            assert(self@ =~= after_open(old(self)@, upper, lower));
        }
        upper
    }

    /// Takes `event` on the handle `dir` and returns what to do next.
    pub fn readdir(&mut self, dir: usize, event: DirEvent) -> (action: DirAction)
        ensures
            (final(self)@, action) == react(old(self)@, dir, event@),
    {
        match event {
            DirEvent::Called { guarded } => {
                if guarded || !self.dirs.contains_key(&dir) {
                    DirAction::Forward
                } else {
                    DirAction::ReadUpper
                }
            },
            DirEvent::Upper { name: Some(name) } => {
                match self.dirs.remove(&dir) {
                    Some(merged) => {
                        let ghost before = merged@;
                        let merged = merged.record(name);
                        self.dirs.insert(dir, merged);
                        assert(self@ =~= old(self)@.insert(
                            dir,
                            MergedDirView { lower: before.lower, seen: before.seen.insert(name@) },
                        ));
                    },
                    None => {
                        assert(self@ =~= old(self)@);
                    },
                }
                DirAction::Yield
            },
            DirEvent::Upper { name: None } => {
                match self.dirs.get(&dir) {
                    Some(merged) => DirAction::ReadLower { lower: merged.lower },
                    None => DirAction::End,
                }
            },
            DirEvent::Lower { name: Some(name) } => {
                match self.dirs.get(&dir) {
                    Some(merged) => {
                        if merged.has_seen(&name) {
                            DirAction::ReadLower { lower: merged.lower }
                        } else {
                            DirAction::Yield
                        }
                    },
                    None => DirAction::Yield,
                }
            },
            DirEvent::Lower { name: None } => DirAction::End,
        }
    }

    /// Takes note of the close of the handle `dir` and returns the lower
    /// handle that is to be closed before it, if there is one.
    ///
    /// A handle that is not registered leaves the table unchanged.
    pub fn closedir(&mut self, dir: usize) -> (lower: Option<usize>)
        ensures
            (final(self)@, lower) == after_close(old(self)@, dir),
    {
        match self.dirs.remove(&dir) {
            Some(merged) => {
                assert(self@ =~= old(self)@.remove(dir));
                Some(merged.lower)
            },
            None => {
                assert(self@ =~= old(self)@);
                None
            },
        }
    }
}

} // verus!
