//! Which entries of a walked input tree go into the archive, and under which
//! archive paths.

use crate::paths::{
    copy_bytes, excluded, is_excluded, is_plain_name, join, join_path,
    lemma_exclusion_covers_subtree, lemma_join_archived, lemma_plain_name_archived, is_archive_path,
};
use vstd::prelude::*;

verus! {

/// One entry met while walking a directory input, below its root, in walk
/// order (each directory before what it holds).
#[derive(Debug, Clone)]
pub struct WalkItem {
    /// The entry's path as walked, starting with the input path.
    pub full_path: Vec<u8>,
    /// The entry's path relative to the input directory.
    pub rel_path: Vec<u8>,
    pub is_dir: bool,
}

/// The model of a `WalkItem`.
pub struct WalkItemView {
    pub full_path: Seq<u8>,
    pub rel_path: Seq<u8>,
    pub is_dir: bool,
}

impl View for WalkItem {
    type V = WalkItemView;

    open spec fn view(&self) -> WalkItemView {
        WalkItemView { full_path: self.full_path@, rel_path: self.rel_path@, is_dir: self.is_dir }
    }
}

/// An entry chosen for the archive.
#[derive(Debug, Clone)]
pub struct PlannedEntry {
    /// Path inside the archive, rooted at the input's own name.
    pub archive_path: Vec<u8>,
    /// Where its metadata and bytes are read from.
    pub source_path: Vec<u8>,
    pub is_dir: bool,
}

/// The model of a `PlannedEntry`.
pub struct PlannedView {
    pub archive_path: Seq<u8>,
    pub source_path: Seq<u8>,
    pub is_dir: bool,
}

impl View for PlannedEntry {
    type V = PlannedView;

    open spec fn view(&self) -> PlannedView {
        PlannedView {
            archive_path: self.archive_path@,
            source_path: self.source_path@,
            is_dir: self.is_dir,
        }
    }
}

/// The views of a sequence of walked items.
pub open spec fn walk_view(v: Seq<WalkItem>) -> Seq<WalkItemView> {
    v.map_values(|w: WalkItem| w@)
}

/// The views of a sequence of planned entries.
pub open spec fn planned_view(v: Seq<PlannedEntry>) -> Seq<PlannedView> {
    v.map_values(|p: PlannedEntry| p@)
}

/// The views of a sequence of patterns.
pub open spec fn patterns_view(v: Seq<Vec<u8>>) -> Seq<Seq<u8>> {
    v.map_values(|p: Vec<u8>| p@)
}

/// The walked items that no pattern excludes, in walk order, each under the
/// root name.
pub open spec fn plan_items(root: Seq<u8>, items: Seq<WalkItemView>, pats: Seq<Seq<u8>>) -> Seq<
    PlannedView,
>
    decreases items.len(),
{
    if items.len() == 0 {
        Seq::empty()
    } else {
        let it = items[0];
        let here = if excluded(it.full_path, pats) {
            Seq::empty()
        } else {
            seq![
                PlannedView {
                    archive_path: join(root, it.rel_path),
                    source_path: it.full_path,
                    is_dir: it.is_dir,
                },
            ]
        };
        here + plan_items(root, items.drop_first(), pats)
    }
}

/// The archive's entries for an input path whose own name is `root`: nothing
/// if a pattern excludes the input; a single file entry for a file; for a
/// directory, the directory itself and then the walked items.
pub open spec fn tree_plan(
    input: Seq<u8>,
    root: Seq<u8>,
    input_is_dir: bool,
    items: Seq<WalkItemView>,
    pats: Seq<Seq<u8>>,
) -> Seq<PlannedView> {
    if excluded(input, pats) {
        Seq::empty()
    } else if input_is_dir {
        seq![PlannedView { archive_path: root, source_path: input, is_dir: true }] + plan_items(
            root,
            items,
            pats,
        )
    } else {
        seq![PlannedView { archive_path: root, source_path: input, is_dir: false }]
    }
}

/// Chooses the archive's entries: the input under its own name `root`, then,
/// for a directory, each walked item that no pattern excludes.
pub fn plan_tree(
    input: &[u8],
    root: &[u8],
    input_is_dir: bool,
    items: &Vec<WalkItem>,
    pats: &Vec<Vec<u8>>,
) -> (r: Vec<PlannedEntry>)
    ensures
        planned_view(r@) == tree_plan(input@, root@, input_is_dir, walk_view(items@), patterns_view(pats@)),
{
    let ghost pv = patterns_view(pats@);
    let mut out: Vec<PlannedEntry> = Vec::new();
    if is_excluded(input, pats) {
        assert(planned_view(out@) =~= Seq::<PlannedView>::empty());
        return out;
    }
    let first = PlannedEntry { archive_path: copy_bytes(root), source_path: copy_bytes(input), is_dir: input_is_dir };
    out.push(first);
    if !input_is_dir {
        assert(planned_view(out@) =~= seq![first@]);
        return out;
    }
    let ghost all = walk_view(items@);
    assert(all.subrange(0, all.len() as int) == all);
    assert(planned_view(out@) =~= seq![first@]);
    let mut i: usize = 0;
    while i < items.len()
        invariant
            i <= items@.len(),
            all == walk_view(items@),
            pv == patterns_view(pats@),
            seq![first@] + plan_items(root@, all, pv) == planned_view(out@) + plan_items(
                root@,
                all.subrange(i as int, all.len() as int),
                pv,
            ),
        decreases items@.len() - i,
    {
        let ghost rest = all.subrange(i as int, all.len() as int);
        let ghost before = planned_view(out@);
        assert(rest.drop_first() == all.subrange(i + 1, all.len() as int));
        assert(rest[0] == items@[i as int]@);
        let it = &items[i];
        if !is_excluded(it.full_path.as_slice(), pats) {
            let e = PlannedEntry {
                archive_path: join_path(root, it.rel_path.as_slice()),
                source_path: copy_bytes(it.full_path.as_slice()),
                is_dir: it.is_dir,
            };
            out.push(e);
            assert(planned_view(out@) =~= before + seq![e@]);
        } else {
            assert(seq![] + plan_items(root@, rest.drop_first(), pv) == plan_items(root@, rest.drop_first(), pv));
        }
        i += 1;
    }
    assert(all.subrange(i as int, all.len() as int) == Seq::<WalkItemView>::empty());
    assert(planned_view(out@) + Seq::<PlannedView>::empty() == planned_view(out@));
    out
}

proof fn lemma_plan_items_kept(root: Seq<u8>, items: Seq<WalkItemView>, pats: Seq<Seq<u8>>)
    ensures
        forall|i: int|
            0 <= i < plan_items(root, items, pats).len() ==> !excluded(
                #[trigger] plan_items(root, items, pats)[i].source_path,
                pats,
            ),
    decreases items.len(),
{
    if items.len() > 0 {
        let plan = plan_items(root, items, pats);
        let tail = plan_items(root, items.drop_first(), pats);
        let h = (plan.len() - tail.len()) as int;
        lemma_plan_items_kept(root, items.drop_first(), pats);
        assert forall|i: int| 0 <= i < plan.len() implies !excluded(plan[i].source_path, pats) by {
            if i >= h {
                assert(plan[i] == tail[i - h]);
            }
        }
    }
}

/// Exclusion: where a pattern occurs in a path `dir`, neither `dir` nor any
/// path below it is among the archive's entries.
pub proof fn lemma_excluded_paths_absent(
    input: Seq<u8>,
    root: Seq<u8>,
    input_is_dir: bool,
    items: Seq<WalkItemView>,
    pats: Seq<Seq<u8>>,
    dir: Seq<u8>,
)
    requires
        excluded(dir, pats),
    ensures
        forall|i: int|
            0 <= i < tree_plan(input, root, input_is_dir, items, pats).len() ==> #[trigger] tree_plan(
                input,
                root,
                input_is_dir,
                items,
                pats,
            )[i].source_path != dir,
        forall|i: int, rest: Seq<u8>|
            0 <= i < tree_plan(input, root, input_is_dir, items, pats).len() ==> #[trigger] tree_plan(
                input,
                root,
                input_is_dir,
                items,
                pats,
            )[i].source_path != #[trigger] join(dir, rest),
{
    let plan = tree_plan(input, root, input_is_dir, items, pats);
    lemma_plan_items_kept(root, items, pats);
    assert forall|i: int| 0 <= i < plan.len() implies !excluded(plan[i].source_path, pats) by {
        if !excluded(input, pats) && input_is_dir && i > 0 {
            let rest_plan = plan_items(root, items, pats);
            assert(plan[i] == rest_plan[i - 1]);
        }
    }
    assert forall|i: int, rest: Seq<u8>| 0 <= i < plan.len() implies plan[i].source_path != join(
        dir,
        rest,
    ) by {
        lemma_exclusion_covers_subtree(dir, rest, pats);
    }
}

proof fn lemma_plan_items_archived(root: Seq<u8>, items: Seq<WalkItemView>, pats: Seq<Seq<u8>>)
    requires
        is_plain_name(root),
        forall|k: int| 0 <= k < items.len() ==> is_archive_path(#[trigger] items[k].rel_path),
    ensures
        forall|i: int|
            0 <= i < plan_items(root, items, pats).len() ==> is_archive_path(
                #[trigger] plan_items(root, items, pats)[i].archive_path,
            ),
    decreases items.len(),
{
    if items.len() > 0 {
        let rest = items.drop_first();
        assert forall|k: int| 0 <= k < rest.len() implies is_archive_path(#[trigger] rest[k].rel_path) by {
            assert(rest[k] == items[k + 1]);
        }
        lemma_plan_items_archived(root, rest, pats);
        lemma_plain_name_archived(root);
        lemma_join_archived(root, items[0].rel_path);
        let plan = plan_items(root, items, pats);
        let tail = plan_items(root, rest, pats);
        let h = (plan.len() - tail.len()) as int;
        assert forall|i: int| 0 <= i < plan.len() implies is_archive_path(plan[i].archive_path) by {
            if i >= h {
                assert(plan[i] == tail[i - h]);
            }
        }
    }
}

/// Every path that the archive records for an input named by a plain name,
/// walked into canonical relative paths, is canonical too: the archive
/// stores it unchanged, and unpacking accepts it as the input's name
/// followed by the walked path.
pub proof fn lemma_planned_paths_archived(
    input: Seq<u8>,
    root: Seq<u8>,
    input_is_dir: bool,
    items: Seq<WalkItemView>,
    pats: Seq<Seq<u8>>,
)
    requires
        is_plain_name(root),
        forall|k: int| 0 <= k < items.len() ==> is_archive_path(#[trigger] items[k].rel_path),
    ensures
        forall|i: int|
            0 <= i < tree_plan(input, root, input_is_dir, items, pats).len() ==> is_archive_path(
                #[trigger] tree_plan(input, root, input_is_dir, items, pats)[i].archive_path,
            ),
{
    let plan = tree_plan(input, root, input_is_dir, items, pats);
    lemma_plan_items_archived(root, items, pats);
    lemma_plain_name_archived(root);
    assert forall|i: int| 0 <= i < plan.len() implies is_archive_path(plan[i].archive_path) by {
        if !excluded(input, pats) && input_is_dir && i > 0 {
            let rest_plan = plan_items(root, items, pats);
            assert(plan[i] == rest_plan[i - 1]);
        }
    }
}

} // verus!
