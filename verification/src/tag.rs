use vstd::prelude::*;

use crate::codec::strings;
use crate::effect::Effect;
use crate::error::Error;
use crate::index::Index;
use crate::index::retagged;
use crate::index::write_of;

verus! {

/// Adds one tag to the note under `id`.
pub fn add_tag(index: &mut Index, id: u64, tag: &str) -> (r: Result<Option<Effect>, Error>)
    requires
        old(index).wf(),
    ensures
        final(index).wf(),
        retagged(old(index).stored(), final(index).stored(), id, seq![tag@], true, write_of(r)),
{
    let mut tags: Vec<String> = Vec::new();
    tags.push(tag.to_owned());
    assert(strings(tags@) =~= seq![tag@]);
    index.add_tags(id, tags.as_slice())
}

} // verus!
