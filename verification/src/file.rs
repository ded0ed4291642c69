use vstd::prelude::*;

use crate::effect::Effect;
use crate::effect::effects;
use crate::effect::EffectView;
use crate::path::NotePath;
use crate::path::PathView;

verus! {

/// The step that makes the directory of the note, where it has one.
pub open spec fn spec_create_parent_path(path: PathView, root: Seq<char>) -> Seq<EffectView> {
    match path.absolute_parent(root) {
        Some(dir) => seq![EffectView::CreateDirs { path: dir }],
        None => Seq::empty(),
    }
}

/// The steps that create the content file of a note: its directory first,
/// where it has one, then the file itself, which must be new.
pub open spec fn spec_create_file(path: PathView, root: Seq<char>) -> Seq<EffectView> {
    spec_create_parent_path(path, root).push(
        EffectView::CreateFile { path: path.absolute_path_with_ext(root) },
    )
}

/// The steps that delete the content file of a note: the file first, then
/// a look into its directory, where it has one, of which `prune_parent`
/// decides whether the directory goes. No directory further up is touched.
pub open spec fn spec_delete_file(path: PathView, root: Seq<char>) -> Seq<EffectView> {
    let remove = seq![EffectView::RemoveFile { path: path.absolute_path_with_ext(root) }];
    match path.absolute_parent(root) {
        Some(dir) => remove.push(EffectView::RemoveDirIfEmpty { path: dir }),
        None => remove,
    }
}

/// The steps that move the content file of a note from one path to
/// another: the new directory first, where there is one, then the move.
/// The old directory stays, empty or not.
pub open spec fn spec_rename_file(old: PathView, new: PathView, root: Seq<char>) -> Seq<
    EffectView,
> {
    spec_create_parent_path(new, root).push(
        EffectView::Rename {
            from: old.absolute_path_with_ext(root),
            to: new.absolute_path_with_ext(root),
        },
    )
}

/// Plans the directory of the note below `root`.
pub fn create_parent_path(note_path: &NotePath, root: &str) -> (steps: Vec<Effect>)
    ensures
        effects(steps@) == spec_create_parent_path(note_path@, root@),
{
    let mut steps: Vec<Effect> = Vec::new();
    assert(effects(steps@) =~= Seq::empty());
    match note_path.absolute_parent(root) {
        Some(path) => {
            steps.push(Effect::CreateDirs { path });
            assert(effects(steps@) =~= spec_create_parent_path(note_path@, root@));
        },
        None => {},
    }
    steps
}

/// Plans the content file of a new note below `root`.
pub fn create_file(note_path: &NotePath, root: &str) -> (steps: Vec<Effect>)
    ensures
        effects(steps@) == spec_create_file(note_path@, root@),
{
    let mut steps = create_parent_path(note_path, root);
    let ghost before = effects(steps@);
    let step = Effect::CreateFile { path: note_path.absolute_path_with_ext(root) };
    steps.push(step);
    assert(effects(steps@) =~= before.push(step@));
    steps
}

/// Plans the removal of the content file of a note below `root`.
pub fn delete_file(note_path: &NotePath, root: &str) -> (steps: Vec<Effect>)
    ensures
        effects(steps@) == spec_delete_file(note_path@, root@),
{
    let mut steps: Vec<Effect> = Vec::new();
    steps.push(Effect::RemoveFile { path: note_path.absolute_path_with_ext(root) });
    match note_path.absolute_parent(root) {
        Some(path) => {
            steps.push(Effect::RemoveDirIfEmpty { path });
        },
        None => {},
    }
    assert(effects(steps@) =~= spec_delete_file(note_path@, root@));
    steps
}

/// Decides what becomes of the directory of a deleted note, once it is
/// known how many entries are left in it: an empty directory is removed, any
/// other stays. No directory further up is looked at.
pub fn prune_parent(dir: String, entries_left: usize) -> (step: Option<Effect>)
    ensures
        step is Some <==> entries_left == 0,
        step matches Some(s) ==> s@ == (EffectView::RemoveDir { path: dir@ }),
{
    if entries_left == 0 {
        Some(Effect::RemoveDir { path: dir })
    } else {
        None
    }
}

/// Plans the move of a content file that keeps its directory.
pub fn rename_file(old: &NotePath, new: &NotePath, root: &str) -> (steps: Vec<Effect>)
    ensures
        effects(steps@) == spec_rename_file(old@, new@, root@),
{
    let mut steps = create_parent_path(new, root);
    let ghost before = effects(steps@);
    let step = Effect::Rename {
        from: old.absolute_path_with_ext(root),
        to: new.absolute_path_with_ext(root),
    };
    steps.push(step);
    assert(effects(steps@) =~= before.push(step@));
    steps
}

/// Plans the move of a content file to another path.
pub fn move_file(old: &NotePath, new: &NotePath, root: &str) -> (steps: Vec<Effect>)
    ensures
        effects(steps@) == spec_rename_file(old@, new@, root@),
{
    rename_file(old, new, root)
}

} // verus!
