use crate::blend::BlendContext;
use crate::data::{Row, Value};
use crate::text::same_text;
use std::rc::Rc;
use vstd::prelude::*;

verus! {

/// The one way a lookup fails: the name is bound by no frame of the chain.
#[derive(Debug, Clone, Copy, PartialEq, Eq, Structural)]
pub enum FilterContextError {
    ValueNotFound,
}

/// What a frame holds, as plain values: its alias, its column names in order,
/// and the values of its row.
pub struct FrameView {
    pub alias: Seq<char>,
    pub columns: Seq<Seq<char>>,
    pub row: Seq<Value>,
}

/// The value a frame binds to `target`: the row's value at the first column
/// named `target`, if the row reaches that position.
pub open spec fn frame_hit(f: FrameView, target: Seq<char>) -> Option<Value> {
    match f.columns.index_of_first(target) {
        Some(i) => if i < f.row.len() {
            Some(f.row[i])
        } else {
            None
        },
        None => None,
    }
}

/// The value a frame binds to `target` under the alias `alias`: none at all
/// when the frame's alias differs.
pub open spec fn frame_alias_hit(f: FrameView, alias: Seq<char>, target: Seq<char>) -> Option<
    Value,
> {
    if f.alias == alias {
        frame_hit(f, target)
    } else {
        None
    }
}

/// Unqualified resolution: the hit of the first frame, from the head, that has one.
pub open spec fn lookup(frames: Seq<FrameView>, target: Seq<char>) -> Option<Value>
    decreases frames.len(),
{
    if frames.len() == 0 {
        None
    } else {
        match frame_hit(frames[0], target) {
            Some(v) => Some(v),
            None => lookup(frames.drop_first(), target),
        }
    }
}

/// Alias-qualified resolution: the alias filter is applied at every frame.
pub open spec fn lookup_qualified(frames: Seq<FrameView>, alias: Seq<char>, target: Seq<char>) -> Option<
    Value,
>
    decreases frames.len(),
{
    if frames.len() == 0 {
        None
    } else {
        match frame_alias_hit(frames[0], alias, target) {
            Some(v) => Some(v),
            None => lookup_qualified(frames.drop_first(), alias, target),
        }
    }
}

/// A lookup result `r` answers `expected`: the found value when there is one,
/// `ValueNotFound` when there is none.
pub open spec fn answers(expected: Option<Value>, r: Result<&Value, FilterContextError>) -> bool {
    match r {
        Ok(v) => expected == Some(*v),
        Err(e) => expected is None && e == FilterContextError::ValueNotFound,
    }
}

/// One frame of a scope chain: a table alias, its columns, a borrowed row,
/// and the outer frame consulted when this one does not bind a name.
/// Frames are never changed once built, and may be shared between chains.
pub struct FilterContext<'a> {
    table_alias: &'a str,
    columns: &'a [String],
    row: &'a Row,
    next: Option<Rc<FilterContext<'a>>>,
}

/// The frames of an optional chain, from the head.
pub open spec fn chain_frames<'a>(chain: Option<Rc<FilterContext<'a>>>) -> Seq<FrameView> {
    match chain {
        Some(c) => c.frames(),
        None => Seq::empty(),
    }
}

impl<'a> FilterContext<'a> {
    /// What this frame alone holds.
    pub closed spec fn head(&self) -> FrameView {
        FrameView {
            alias: self.table_alias@,
            columns: self.columns@.map_values(|c: String| c@),
            row: self.row.0@,
        }
    }

    /// The frames of the chain that starts here, in lookup order.
    pub closed spec fn frames(&self) -> Seq<FrameView>
        decreases self,
    {
        seq![self.head()] + match &self.next {
            Some(n) => n.frames(),
            None => Seq::empty(),
        }
    }

    proof fn lemma_frames_unfold(&self)
        ensures
            self.frames().len() >= 1,
            self.frames()[0] == self.head(),
            self.frames().drop_first() == chain_frames(self.next),
    {
        let rest = match &self.next {
            Some(n) => n.frames(),
            None => Seq::empty(),
        };
        assert((seq![self.head()] + rest).drop_first() =~= rest);
    }

    /// Extends `filter_context` with a frame for each level of `blend_context`
    /// that has a row, walking the levels along `next`. Each new frame falls
    /// back on the chain built so far, so the last level walked becomes the
    /// head; levels without a row add no frame but do not stop the walk.
    pub fn concat(
        filter_context: Option<Rc<FilterContext<'a>>>,
        blend_context: &'a BlendContext<'a>,
    ) -> (r: Option<Rc<FilterContext<'a>>>)
        ensures
            chain_frames(r) == blend_context.bound_frames().reverse() + chain_frames(
                filter_context,
            ),
    {
        let mut acc = filter_context;
        let mut cur: &'a BlendContext<'a> = blend_context;
        let ghost mut done: Seq<FrameView> = Seq::empty();
        assert(blend_context.bound_frames() =~= done + cur.bound_frames());
        assert(chain_frames(acc) =~= done.reverse() + chain_frames(filter_context));
        loop
            invariant
                blend_context.bound_frames() == done + cur.bound_frames(),
                chain_frames(acc) == done.reverse() + chain_frames(filter_context),
            decreases cur.depth(),
        {
            let ghost rest = match &cur.next {
                Some(n) => n.bound_frames(),
                None => Seq::<FrameView>::empty(),
            };
            if let Some(row) = &cur.row {
                let ghost f = cur.own_frame();
                let ghost old_acc = chain_frames(acc);
                let frame = FilterContext::new(cur.table_alias, cur.columns.as_slice(), row, acc);
                acc = Some(Rc::new(frame));
                proof {
                    lemma_reverse_push(done, f);
                    assert(cur.bound_frames() =~= seq![f] + rest);
                    assert(done + cur.bound_frames() =~= done.push(f) + rest);
                    assert(chain_frames(acc) =~= seq![f] + old_acc);
                    assert(seq![f] + (done.reverse() + chain_frames(filter_context))
                        =~= (seq![f] + done.reverse()) + chain_frames(filter_context));
                    done = done.push(f);
                }
            } else {
                assert(cur.bound_frames() =~= rest);
            }
            assert(blend_context.bound_frames() =~= done + rest);
            match &cur.next {
                Some(n) => {
                    cur = &**n;
                },
                None => {
                    assert(done + rest =~= done);
                    assert(done.reverse() + chain_frames(filter_context)
                        =~= blend_context.bound_frames().reverse() + chain_frames(filter_context));
                    return acc;
                },
            }
        }
    }

    /// A frame binding `table_alias`, `columns` and `row`, falling back on `next`.
    pub fn new(
        table_alias: &'a str,
        columns: &'a [String],
        row: &'a Row,
        next: Option<Rc<FilterContext<'a>>>,
    ) -> (r: Self)
        ensures
            r.frames() == seq![
                FrameView {
                    alias: table_alias@,
                    columns: columns@.map_values(|c: String| c@),
                    row: row.0@,
                },
            ] + chain_frames(next),
    {
        let r = Self { table_alias, columns, row, next };
        proof {
            r.lemma_frames_unfold();
            assert(r.frames() =~= seq![r.head()] + r.frames().drop_first());
        }
        r
    }

    /// The value this frame alone binds to `target`.
    fn find_column(&self, target: &str) -> (r: Option<&'a Value>)
        ensures
            match r {
                Some(v) => frame_hit(self.head(), target@) == Some(*v),
                None => frame_hit(self.head(), target@) is None,
            },
    {
        let ghost cols = self.head().columns;
        let mut i: usize = 0;
        while i < self.columns.len()
            invariant
                i <= self.columns@.len(),
                cols == self.columns@.map_values(|c: String| c@),
                forall|j: int| 0 <= j < i ==> cols[j] != target@,
            decreases self.columns@.len() - i,
        {
            if same_text(self.columns[i].as_str(), target) {
                assert(cols[i as int] == target@);
                assert(cols.contains(target@));
                proof {
                    cols.index_of_first_ensures(target@);
                }
                let ghost k = cols.index_of_first(target@).unwrap();
                assert(!(k < i));
                assert(!(k > i as int));
                return self.row.get_value(i);
            }
            i += 1;
        }
        proof {
            cols.index_of_first_ensures(target@);
        }
        None
    }

    /// The value this frame alone binds to `target` under `table_alias`.
    fn find_alias_column(&self, table_alias: &str, target: &str) -> (r: Option<&'a Value>)
        ensures
            match r {
                Some(v) => frame_alias_hit(self.head(), table_alias@, target@) == Some(*v),
                None => frame_alias_hit(self.head(), table_alias@, target@) is None,
            },
    {
        if !same_text(self.table_alias, table_alias) {
            return None;
        }
        self.find_column(target)
    }

    /// Resolves `target` along the chain that starts here: the value of the
    /// first frame that binds it, else `ValueNotFound`.
    pub fn get_value(&self, target: &str) -> (r: Result<&'a Value, FilterContextError>)
        ensures
            answers(lookup(self.frames(), target@), r),
    {
        let mut cur: &FilterContext<'a> = self;
        loop
            invariant
                lookup(self.frames(), target@) == lookup(cur.frames(), target@),
            decreases cur.frames().len(),
        {
            proof {
                cur.lemma_frames_unfold();
            }
            if let Some(v) = cur.find_column(target) {
                return Ok(v);
            }
            match &cur.next {
                Some(n) => {
                    cur = &**n;
                },
                None => {
                    assert(lookup(cur.frames().drop_first(), target@) is None);
                    return Err(FilterContextError::ValueNotFound);
                },
            }
        }
    }

    /// Resolves `target` among the frames of the chain whose alias is
    /// `table_alias`: frames under another alias are passed over even when
    /// they have such a column.
    pub fn get_alias_value(&self, table_alias: &str, target: &str) -> (r: Result<
        &'a Value,
        FilterContextError,
    >)
        ensures
            answers(lookup_qualified(self.frames(), table_alias@, target@), r),
    {
        let mut cur: &FilterContext<'a> = self;
        loop
            invariant
                lookup_qualified(self.frames(), table_alias@, target@) == lookup_qualified(
                    cur.frames(),
                    table_alias@,
                    target@,
                ),
            decreases cur.frames().len(),
        {
            proof {
                cur.lemma_frames_unfold();
            }
            if let Some(v) = cur.find_alias_column(table_alias, target) {
                return Ok(v);
            }
            match &cur.next {
                Some(n) => {
                    cur = &**n;
                },
                None => {
                    assert(lookup_qualified(cur.frames().drop_first(), table_alias@, target@) is None);
                    return Err(FilterContextError::ValueNotFound);
                },
            }
        }
    }
}

/// Resolves `target` along an optional chain; an absent chain binds nothing.
pub fn resolve<'a>(chain: &Option<Rc<FilterContext<'a>>>, target: &str) -> (r: Result<
    &'a Value,
    FilterContextError,
>)
    ensures
        answers(lookup(chain_frames(*chain), target@), r),
        chain is None ==> r == Err::<&Value, FilterContextError>(FilterContextError::ValueNotFound),
{
    match chain {
        Some(c) => c.get_value(target),
        None => Err(FilterContextError::ValueNotFound),
    }
}

/// Resolves `target` under `table_alias` along an optional chain; an absent
/// chain binds nothing.
pub fn resolve_qualified<'a>(
    chain: &Option<Rc<FilterContext<'a>>>,
    table_alias: &str,
    target: &str,
) -> (r: Result<&'a Value, FilterContextError>)
    ensures
        answers(lookup_qualified(chain_frames(*chain), table_alias@, target@), r),
        chain is None ==> r == Err::<&Value, FilterContextError>(FilterContextError::ValueNotFound),
{
    match chain {
        Some(c) => c.get_alias_value(table_alias, target),
        None => Err(FilterContextError::ValueNotFound),
    }
}

proof fn lemma_reverse_push(s: Seq<FrameView>, f: FrameView)
    ensures
        s.push(f).reverse() == seq![f] + s.reverse(),
{
    assert(s.push(f).reverse() =~= seq![f] + s.reverse());
}

} // verus!
