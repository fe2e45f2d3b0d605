//! Drawing the graph of commits, row by row.

use vstd::prelude::*;

use renderdag::Renderer;

use crate::commit::CommitId;
use crate::commit::Id;
use crate::commit::ids;

verus! {

/// One row of the graph: a commit, its parents, the glyph that stands for it
/// and the text beside it.
pub type GraphRow = (Id, Seq<Id>, Seq<char>, Seq<char>);

/// A renderer of graphs in box-drawing characters.
#[verifier::external_body]
pub struct GraphRenderer {
    inner: renderdag::BoxDrawingRenderer<Vec<u8>, renderdag::GraphRowRenderer<Vec<u8>>>,
}

/// The rows that a renderer has drawn so far.
pub uninterp spec fn rows_drawn(renderer: GraphRenderer) -> Seq<GraphRow>;

/// The least height of a row that a renderer was made with.
pub uninterp spec fn min_row_height(renderer: GraphRenderer) -> nat;

/// The text that `renderdag` draws for a row, in rows of the given least
/// height and below the rows drawn before it.
pub uninterp spec fn row_text(min_height: nat, drawn: Seq<GraphRow>, row: GraphRow) -> Seq<char>;

impl GraphRenderer {
    /// Makes a renderer with `renderdag::GraphRowRenderer::new` and
    /// `OutputRendererBuilder::build_box_drawing`. It has drawn nothing yet.
    #[verifier::external_body]
    pub(crate) fn new(min_height: usize) -> (renderer: GraphRenderer)
        ensures
            rows_drawn(renderer) == Seq::<GraphRow>::empty(),
            min_row_height(renderer) == min_height,
    {
        let builder = renderdag::GraphRowRenderer::new().output();
        GraphRenderer { inner: builder.with_min_row_height(min_height).build_box_drawing() }
    }

    /// Draws a row with `renderdag::Renderer::next_row`, all of its parents
    /// being direct ones. What comes out depends on the row, on the rows drawn
    /// before it and on the least height of a row, and on nothing else.
    #[verifier::external_body]
    pub(crate) fn next_row(
        &mut self,
        id: &CommitId,
        parents: &Vec<CommitId>,
        glyph: &str,
        message: &str,
    ) -> (text: String)
        ensures
            rows_drawn(*final(self)) == rows_drawn(*old(self)).push(
                (id@, ids(parents@), glyph@, message@),
            ),
            min_row_height(*final(self)) == min_row_height(*old(self)),
            text@ == row_text(
                min_row_height(*old(self)),
                rows_drawn(*old(self)),
                (id@, ids(parents@), glyph@, message@),
            ),
    {
        let parents = parents.iter().map(|p| renderdag::Ancestor::Parent(p.bytes.clone())).collect();
        self.inner.next_row(id.bytes.clone(), parents, glyph.to_string(), message.to_string())
    }
}

} // verus!
