use crate::data::Row;
use crate::filter_context::FrameView;
use vstd::prelude::*;

verus! {

/// One level of an already-joined row context: the alias and columns of a
/// table, the row currently matched for it (absent on an unmatched outer-join
/// side), and the next, outer level.
pub struct BlendContext<'a> {
    pub table_alias: &'a str,
    pub columns: Vec<String>,
    pub row: Option<Row>,
    pub next: Option<Box<BlendContext<'a>>>,
}

impl<'a> BlendContext<'a> {
    /// The frame this level contributes when its row is present.
    pub open spec fn own_frame(&self) -> FrameView {
        FrameView {
            alias: self.table_alias@,
            columns: self.columns@.map_values(|c: String| c@),
            row: self.row.unwrap().0@,
        }
    }

    /// The frames of the levels that have a row, in the order of the `next` walk.
    pub open spec fn bound_frames(&self) -> Seq<FrameView>
        decreases self,
    {
        let own = if self.row is Some {
            seq![self.own_frame()]
        } else {
            Seq::empty()
        };
        own + match &self.next {
            Some(n) => n.bound_frames(),
            None => Seq::empty(),
        }
    }

    /// The number of levels from this one to the last.
    pub open spec fn depth(&self) -> nat
        decreases self,
    {
        match &self.next {
            Some(n) => 1 + n.depth(),
            None => 1,
        }
    }
}

} // verus!
