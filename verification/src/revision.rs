//! Revisions as the user names them.

use vstd::prelude::*;

verus! {

/// An expression that names revisions.
#[derive(Debug)]
pub struct RevisionArg {
    pub text: String,
}

impl View for RevisionArg {
    type V = Seq<char>;

    open spec fn view(&self) -> Seq<char> {
        self.text@
    }
}

impl RevisionArg {
    /// Takes an expression as it stands.
    pub fn from_text(text: String) -> (revision: RevisionArg)
        ensures
            revision@ == text@,
    {
        RevisionArg { text }
    }
}

impl Clone for RevisionArg {
    fn clone(&self) -> (copy: RevisionArg)
        ensures
            copy@ == self@,
    {
        RevisionArg { text: self.text.clone() }
    }
}

/// The expressions that a list of [`RevisionArg`]s stands for.
pub open spec fn revisions(list: Seq<RevisionArg>) -> Seq<Seq<char>> {
    list.map_values(|revision: RevisionArg| revision@)
}

/// Copies a list of expressions.
pub fn clone_revisions(list: &Vec<RevisionArg>) -> (copy: Vec<RevisionArg>)
    ensures
        revisions(copy@) == revisions(list@),
{
    let mut copy: Vec<RevisionArg> = Vec::new();
    let mut i: usize = 0;
    while i < list.len()
        invariant
            i <= list.len(),
            copy.len() == i,
            forall|j: int| 0 <= j < i ==> (#[trigger] copy[j])@ == list[j]@,
        decreases list.len() - i,
    {
        copy.push(list[i].clone());
        i += 1;
    }
    assert(revisions(copy@) =~= revisions(list@));
    copy
}

/// A list of expressions stands for their texts, one for one.
pub proof fn law_revisions_one_for_one(list: Seq<RevisionArg>)
    ensures
        revisions(list).len() == list.len(),
        forall|i: int| 0 <= i < list.len() ==> (#[trigger] revisions(list)[i]) == list[i].text@,
{
}

} // verus!
