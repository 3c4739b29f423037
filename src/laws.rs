use crate::blend::BlendContext;
use crate::data::Value;
use crate::filter_context::{
    answers,
    frame_alias_hit,
    frame_hit,
    lookup,
    lookup_qualified,
    FilterContext,
    FilterContextError,
    FrameView,
};
use vstd::prelude::*;

verus! {

/// Every column a frame names has a value in its row.
pub open spec fn frame_complete(f: FrameView) -> bool {
    f.columns.len() <= f.row.len()
}

/// The first position of `target` among a frame's columns.
pub open spec fn column_position(f: FrameView, target: Seq<char>) -> int {
    f.columns.index_of_first(target).unwrap()
}

proof fn lemma_lookup_first_holder(frames: Seq<FrameView>, target: Seq<char>)
    requires
        forall|i: int| 0 <= i < frames.len() ==> frame_complete(#[trigger] frames[i]),
    ensures
        (forall|i: int| 0 <= i < frames.len() ==> !(#[trigger] frames[i]).columns.contains(target))
            ==> lookup(frames, target) is None,
        forall|i: int|
            0 <= i < frames.len() && (#[trigger] frames[i]).columns.contains(target) && (forall|
                j: int,
            | 0 <= j < i ==> !frames[j].columns.contains(target)) ==> lookup(frames, target)
                == Some(frames[i].row[column_position(frames[i], target)]),
    decreases frames.len(),
{
    if frames.len() > 0 {
        let rest = frames.drop_first();
        assert forall|i: int| 0 <= i < rest.len() implies frame_complete(#[trigger] rest[i]) by {
            assert(rest[i] == frames[i + 1]);
        }
        lemma_lookup_first_holder(rest, target);
        frames[0].columns.index_of_first_ensures(target);
        if frames[0].columns.contains(target) {
            assert(frame_complete(frames[0]));
        } else {
            assert forall|i: int|
                0 <= i < frames.len() && (#[trigger] frames[i]).columns.contains(target) && (forall|
                    j: int,
                | 0 <= j < i ==> !frames[j].columns.contains(target)) implies lookup(frames, target)
                == Some(frames[i].row[column_position(frames[i], target)]) by {
                assert(i > 0);
                assert(rest[i - 1] == frames[i]);
                assert forall|j: int| 0 <= j < i - 1 implies !rest[j].columns.contains(target) by {
                    assert(rest[j] == frames[j + 1]);
                }
            }
            assert((forall|i: int| 0 <= i < frames.len() ==> !(#[trigger] frames[i]).columns.contains(target))
                ==> (forall|i: int| 0 <= i < rest.len() ==> !(#[trigger] rest[i]).columns.contains(target)))
                by {
                if forall|i: int| 0 <= i < frames.len() ==> !(#[trigger] frames[i]).columns.contains(target) {
                    assert forall|i: int| 0 <= i < rest.len() implies !(#[trigger] rest[i]).columns.contains(target) by {
                        assert(rest[i] == frames[i + 1]);
                    }
                }
            }
        }
    }
}

/// On a chain whose frames are complete, an unqualified lookup yields the
/// value at the first position of the name in the first frame, from the
/// head, whose columns hold the name; when no frame holds it, nothing.
pub proof fn lemma_resolve_takes_first_holder(chain: &FilterContext, target: Seq<char>)
    requires
        forall|i: int|
            0 <= i < chain.frames().len() ==> frame_complete(#[trigger] chain.frames()[i]),
    ensures
        (forall|i: int|
            0 <= i < chain.frames().len() ==> !(#[trigger] chain.frames()[i]).columns.contains(
                target,
            )) ==> lookup(chain.frames(), target) is None,
        forall|i: int|
            0 <= i < chain.frames().len() && (#[trigger] chain.frames()[i]).columns.contains(target)
                && (forall|j: int| 0 <= j < i ==> !chain.frames()[j].columns.contains(target))
                ==> lookup(chain.frames(), target) == Some(
                chain.frames()[i].row[column_position(chain.frames()[i], target)],
            ),
{
    lemma_lookup_first_holder(chain.frames(), target);
}

proof fn lemma_qualified_source(frames: Seq<FrameView>, alias: Seq<char>, target: Seq<char>)
    ensures
        lookup_qualified(frames, alias, target) matches Some(v) ==> exists|i: int|
            0 <= i < frames.len() && (#[trigger] frames[i]).alias == alias && frame_hit(
                frames[i],
                target,
            ) == Some(v),
    decreases frames.len(),
{
    if frames.len() > 0 {
        let rest = frames.drop_first();
        lemma_qualified_source(rest, alias, target);
        if frame_alias_hit(frames[0], alias, target) is None {
            if lookup_qualified(rest, alias, target) is Some {
                let i = choose|i: int|
                    0 <= i < rest.len() && (#[trigger] rest[i]).alias == alias && frame_hit(
                        rest[i],
                        target,
                    ) == lookup_qualified(rest, alias, target);
                assert(rest[i] == frames[i + 1]);
            }
        }
    }
}

/// An alias-qualified lookup only ever yields a value bound by a frame whose
/// alias is the one asked for, whatever other frames hold.
pub proof fn lemma_qualified_stays_in_alias(
    chain: &FilterContext,
    alias: Seq<char>,
    target: Seq<char>,
)
    ensures
        lookup_qualified(chain.frames(), alias, target) matches Some(v) ==> exists|i: int|
            0 <= i < chain.frames().len() && (#[trigger] chain.frames()[i]).alias == alias
                && frame_hit(chain.frames()[i], target) == Some(v),
{
    lemma_qualified_source(chain.frames(), alias, target);
}

/// Along three levels that all have a row, the chain built from the first
/// level is headed by the frame of the third, then the second, then the first.
pub proof fn lemma_last_level_leads(
    b0: BlendContext,
    b1: BlendContext,
    b2: BlendContext,
)
    requires
        b0.next matches Some(n) && *n == b1,
        b1.next matches Some(n) && *n == b2,
        b2.next is None,
        b0.row is Some,
        b1.row is Some,
        b2.row is Some,
    ensures
        b0.bound_frames().reverse() == seq![b2.own_frame(), b1.own_frame(), b0.own_frame()],
{
    assert(b2.bound_frames() =~= seq![b2.own_frame()]);
    assert(b1.bound_frames() =~= seq![b1.own_frame(), b2.own_frame()]);
    assert(b0.bound_frames() =~= seq![b0.own_frame(), b1.own_frame(), b2.own_frame()]);
    assert(b0.bound_frames().reverse() =~= seq![b2.own_frame(), b1.own_frame(), b0.own_frame()]);
}

/// A middle level without a row adds no frame, and the first level stays
/// reachable behind the third.
pub proof fn lemma_rowless_level_skipped(
    b0: BlendContext,
    b1: BlendContext,
    b2: BlendContext,
)
    requires
        b0.next matches Some(n) && *n == b1,
        b1.next matches Some(n) && *n == b2,
        b2.next is None,
        b0.row is Some,
        b1.row is None,
        b2.row is Some,
    ensures
        b0.bound_frames().reverse() == seq![b2.own_frame(), b0.own_frame()],
{
    assert(b2.bound_frames() =~= seq![b2.own_frame()]);
    assert(b1.bound_frames() =~= seq![b2.own_frame()]);
    assert(b0.bound_frames() =~= seq![b0.own_frame(), b2.own_frame()]);
    assert(b0.bound_frames().reverse() =~= seq![b2.own_frame(), b0.own_frame()]);
}

/// Two unqualified lookups of one name on one chain give the same result.
pub proof fn lemma_resolve_repeatable(
    chain: &FilterContext,
    target: Seq<char>,
    r1: Result<&Value, FilterContextError>,
    r2: Result<&Value, FilterContextError>,
)
    requires
        answers(lookup(chain.frames(), target), r1),
        answers(lookup(chain.frames(), target), r2),
    ensures
        r1 == r2,
{
}

/// Two alias-qualified lookups of one name on one chain give the same result.
pub proof fn lemma_resolve_qualified_repeatable(
    chain: &FilterContext,
    alias: Seq<char>,
    target: Seq<char>,
    r1: Result<&Value, FilterContextError>,
    r2: Result<&Value, FilterContextError>,
)
    requires
        answers(lookup_qualified(chain.frames(), alias, target), r1),
        answers(lookup_qualified(chain.frames(), alias, target), r2),
    ensures
        r1 == r2,
{
}

} // verus!
