use vstd::prelude::*;

verus! {

/// One thing to do outside the library: a step on the files of the notes,
/// or a write to the store behind the index. The library decides the
/// effects and their order; the caller performs them in that order and
/// stops at the first that fails.
#[derive(Debug, Clone, PartialEq, Eq)]
pub enum Effect {
    /// Create the directory and every directory above it that is missing.
    CreateDirs { path: String },
    /// Create the file, and fail where it is there already.
    CreateFile { path: String },
    /// Remove the file, and fail where it is not there.
    RemoveFile { path: String },
    /// Count what is left in the directory, and do what `prune_parent`
    /// makes of the count.
    RemoveDirIfEmpty { path: String },
    /// Remove the directory, which is empty.
    RemoveDir { path: String },
    /// Move the file.
    Rename { from: String, to: String },
    /// Put the bytes under the identity, over what the store holds there.
    Put { id: u64, record: Vec<u8> },
    /// Delete what the store holds under the identity, if anything.
    Delete { id: u64 },
}

/// An effect as plain values.
pub enum EffectView {
    CreateDirs { path: Seq<char> },
    CreateFile { path: Seq<char> },
    RemoveFile { path: Seq<char> },
    RemoveDirIfEmpty { path: Seq<char> },
    RemoveDir { path: Seq<char> },
    Rename { from: Seq<char>, to: Seq<char> },
    Put { id: u64, record: Seq<u8> },
    Delete { id: u64 },
}

impl View for Effect {
    type V = EffectView;

    open spec fn view(&self) -> EffectView {
        match self {
            Effect::CreateDirs { path } => EffectView::CreateDirs { path: path@ },
            Effect::CreateFile { path } => EffectView::CreateFile { path: path@ },
            Effect::RemoveFile { path } => EffectView::RemoveFile { path: path@ },
            Effect::RemoveDirIfEmpty { path } => EffectView::RemoveDirIfEmpty { path: path@ },
            Effect::RemoveDir { path } => EffectView::RemoveDir { path: path@ },
            Effect::Rename { from, to } => EffectView::Rename { from: from@, to: to@ },
            Effect::Put { id, record } => EffectView::Put { id: *id, record: record@ },
            Effect::Delete { id } => EffectView::Delete { id: *id },
        }
    }
}

/// The effects of `v`, each as plain values.
pub open spec fn effects(v: Seq<Effect>) -> Seq<EffectView> {
    v.map_values(|e: Effect| e@)
}

} // verus!
