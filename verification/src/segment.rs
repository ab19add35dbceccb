//! Grouping the flat block sequence into one run of blocks per course.
//!
//! A group ends where the next course-name block stands. The run after the
//! last course-name block is never closed, so it is not a group: this is the
//! segmentation policy, and `groups_of` states it.

use crate::block::{Block, BlockView};
use vstd::prelude::*;
use vstd::slice::slice_subrange;

verus! {

/// The least index at or after `from` at which a course begins, or the
/// length of `blocks` when there is none.
pub open spec fn next_marker(blocks: Seq<BlockView>, from: int) -> int
    decreases blocks.len() - from,
{
    if from >= blocks.len() {
        blocks.len() as int
    } else if from >= 0 && blocks[from].is_course_name() {
        from
    } else {
        next_marker(blocks, from + 1)
    }
}

/// The groups of `blocks`: the sequence is cut in front of every course-name
/// block but one that stands first, and the last part is dropped.
pub open spec fn groups_of(blocks: Seq<BlockView>) -> Seq<Seq<BlockView>>
    decreases blocks.len(),
{
    let k = next_marker(blocks, 1);
    if 1 <= k < blocks.len() {
        seq![blocks.subrange(0, k)] + groups_of(blocks.subrange(k, blocks.len() as int))
    } else {
        Seq::empty()
    }
}

/// The number of course-name blocks in `blocks`.
pub open spec fn marker_count(blocks: Seq<BlockView>) -> nat
    decreases blocks.len(),
{
    if blocks.len() == 0 {
        0
    } else {
        marker_count(blocks.drop_last()) + if blocks.last().is_course_name() {
            1nat
        } else {
            0nat
        }
    }
}

/// The blocks of `groups`, one group after the other.
pub open spec fn flattened(groups: Seq<Seq<BlockView>>) -> Seq<BlockView>
    decreases groups.len(),
{
    if groups.len() == 0 {
        Seq::empty()
    } else {
        flattened(groups.drop_last()) + groups.last()
    }
}

/// `next_marker` is the least index from `from` on that holds a course-name
/// block.
pub proof fn lemma_next_marker(blocks: Seq<BlockView>, from: int)
    requires
        0 <= from,
    ensures
        from <= next_marker(blocks, from) || next_marker(blocks, from) == blocks.len(),
        next_marker(blocks, from) <= blocks.len(),
        forall|i: int| from <= i < next_marker(blocks, from) ==> !blocks[i].is_course_name(),
        next_marker(blocks, from) < blocks.len() ==> blocks[next_marker(
            blocks,
            from,
        )].is_course_name(),
    decreases blocks.len() - from,
{
    if from >= blocks.len() {
    } else if blocks[from].is_course_name() {
    } else {
        lemma_next_marker(blocks, from + 1);
    }
}

/// An index with no course-name block between `from` and it, that holds one
/// or ends the sequence, is `next_marker`.
proof fn lemma_next_marker_is(blocks: Seq<BlockView>, from: int, k: int)
    requires
        0 <= from <= k <= blocks.len(),
        forall|i: int| from <= i < k ==> !blocks[i].is_course_name(),
        k < blocks.len() ==> blocks[k].is_course_name(),
    ensures
        next_marker(blocks, from) == k,
    decreases k - from,
{
    if from < k {
        lemma_next_marker_is(blocks, from + 1, k);
    }
}

/// `marker_count` adds up over the two parts of a sequence.
proof fn lemma_marker_count_split(blocks: Seq<BlockView>, k: int)
    requires
        0 <= k <= blocks.len(),
    ensures
        marker_count(blocks) == marker_count(blocks.subrange(0, k)) + marker_count(
            blocks.subrange(k, blocks.len() as int),
        ),
    decreases blocks.len() - k,
{
    let tail = blocks.subrange(k, blocks.len() as int);
    if k == blocks.len() {
        assert(blocks.subrange(0, k) =~= blocks);
    } else {
        let init = blocks.drop_last();
        lemma_marker_count_split(init, k);
        assert(init.subrange(0, k) =~= blocks.subrange(0, k));
        assert(init.subrange(k, init.len() as int) =~= tail.drop_last());
        assert(tail.last() == blocks.last());
    }
}

/// A sequence without course-name blocks counts none.
proof fn lemma_marker_count_none(blocks: Seq<BlockView>)
    requires
        forall|i: int| 0 <= i < blocks.len() ==> !blocks[i].is_course_name(),
    ensures
        marker_count(blocks) == 0,
    decreases blocks.len(),
{
    if blocks.len() > 0 {
        lemma_marker_count_none(blocks.drop_last());
    }
}

/// The first block alone counts one if a course begins with it, else none.
proof fn lemma_marker_count_first(blocks: Seq<BlockView>)
    requires
        blocks.len() > 0,
    ensures
        marker_count(blocks.subrange(0, 1)) == if blocks[0].is_course_name() {
            1nat
        } else {
            0nat
        },
{
    let first = blocks.subrange(0, 1);
    assert(first.last() == blocks[0]);
    assert(marker_count(first.drop_last()) == 0);
}

/// There is one group for every course-name block that does not stand first.
pub proof fn lemma_group_count(blocks: Seq<BlockView>)
    ensures
        blocks.len() == 0 ==> groups_of(blocks).len() == 0,
        blocks.len() > 0 ==> groups_of(blocks).len() == marker_count(
            blocks.subrange(1, blocks.len() as int),
        ),
    decreases blocks.len(),
{
    if blocks.len() > 0 {
        let n = blocks.len() as int;
        let k = next_marker(blocks, 1);
        lemma_next_marker(blocks, 1);
        let tail = blocks.subrange(1, n);
        if 1 <= k < n {
            let rest = blocks.subrange(k, n);
            lemma_group_count(rest);
            lemma_marker_count_split(tail, k - 1);
            let front = tail.subrange(0, k - 1);
            assert forall|i: int| 0 <= i < front.len() implies !front[i].is_course_name() by {
                assert(front[i] == blocks[i + 1]);
            }
            lemma_marker_count_none(front);
            assert(tail.subrange(k - 1, tail.len() as int) =~= rest);
            lemma_marker_count_split(rest, 1);
            lemma_marker_count_first(rest);
        } else {
            assert forall|i: int| 0 <= i < tail.len() implies !tail[i].is_course_name() by {
                assert(tail[i] == blocks[i + 1]);
            }
            lemma_marker_count_none(tail);
        }
    }
}

/// Where the sequence begins with a course-name block, there is one group
/// fewer than there are course-name blocks.
pub proof fn lemma_one_group_fewer_than_markers(blocks: Seq<BlockView>)
    requires
        blocks.len() > 0,
        blocks[0].is_course_name(),
    ensures
        groups_of(blocks).len() == marker_count(blocks) - 1,
{
    lemma_group_count(blocks);
    lemma_marker_count_split(blocks, 1);
    lemma_marker_count_first(blocks);
}

/// The groups partition a prefix of the input: no group is empty, a
/// course-name block stands nowhere in a group but first, every group after
/// the first begins with one, and the groups follow each other as the blocks
/// did. The groups never use up an input that is not empty: the last run is
/// left over. It begins with a course-name block wherever there is a group,
/// and holds none behind its start.
pub proof fn lemma_groups_partition(blocks: Seq<BlockView>)
    ensures
        forall|g: int|
            0 <= g < groups_of(blocks).len() ==> (#[trigger] groups_of(blocks)[g]).len() > 0,
        forall|g: int, i: int|
            0 <= g < groups_of(blocks).len() && 1 <= i < groups_of(blocks)[g].len()
                ==> !(#[trigger] groups_of(blocks)[g][i]).is_course_name(),
        forall|g: int|
            1 <= g < groups_of(blocks).len() ==> (#[trigger] groups_of(
                blocks,
            )[g])[0].is_course_name(),
        flattened(groups_of(blocks)).len() <= blocks.len(),
        blocks.len() > 0 ==> flattened(groups_of(blocks)).len() < blocks.len(),
        flattened(groups_of(blocks)) == blocks.subrange(
            0,
            flattened(groups_of(blocks)).len() as int,
        ),
        forall|i: int|
            flattened(groups_of(blocks)).len() < i < blocks.len()
                ==> !(#[trigger] blocks[i]).is_course_name(),
        groups_of(blocks).len() > 0 ==> blocks[flattened(
            groups_of(blocks),
        ).len() as int].is_course_name(),
    decreases blocks.len(),
{
    let n = blocks.len() as int;
    let k = next_marker(blocks, 1);
    lemma_next_marker(blocks, 1);
    if 1 <= k < n {
        let head = blocks.subrange(0, k);
        let rest = blocks.subrange(k, n);
        let later = groups_of(rest);
        let all = groups_of(blocks);
        lemma_groups_partition(rest);
        lemma_flattened_prepend(head, later);
        assert(all =~= seq![head] + later);
        let m = flattened(later).len() as int;
        assert(flattened(all) =~= blocks.subrange(0, k + m)) by {
            assert(flattened(later) == rest.subrange(0, m));
        }
        assert forall|g: int| 0 <= g < all.len() implies (#[trigger] all[g]).len() > 0 by {
            if g > 0 {
                assert(all[g] == later[g - 1]);
            }
        }
        assert forall|g: int, i: int| 0 <= g < all.len() && 1 <= i < all[g].len() implies !(
        #[trigger] all[g][i]).is_course_name() by {
            if g > 0 {
                assert(all[g] == later[g - 1]);
            } else {
                assert(all[0][i] == blocks[i]);
            }
        }
        assert forall|g: int| 1 <= g < all.len() implies (#[trigger] all[g])[0].is_course_name() by {
            assert(all[g] == later[g - 1]);
            if g == 1 {
                assert(later[0] == rest.subrange(0, later[0].len() as int)) by {
                    lemma_first_group_is_prefix(rest);
                }
                assert(later[0][0] == blocks[k]);
            }
        }
        assert forall|i: int| k + m < i < n implies !(#[trigger] blocks[i]).is_course_name() by {
            assert(blocks[i] == rest[i - k]);
        }
        if k + m < n {
            if later.len() > 0 {
                assert(blocks[k + m] == rest[m]);
            } else {
                assert(m == 0);
            }
        }
    } else {
        assert(flattened(groups_of(blocks)).len() == 0);
        assert(blocks.subrange(0, 0) =~= Seq::<BlockView>::empty());
    }
}

/// The first group, where there is one, is a prefix of the input.
proof fn lemma_first_group_is_prefix(blocks: Seq<BlockView>)
    requires
        groups_of(blocks).len() > 0,
    ensures
        0 < groups_of(blocks)[0].len() < blocks.len(),
        groups_of(blocks)[0] == blocks.subrange(0, groups_of(blocks)[0].len() as int),
{
    lemma_next_marker(blocks, 1);
}

/// Flattening takes a group put in front as it takes one put behind.
proof fn lemma_flattened_prepend(head: Seq<BlockView>, groups: Seq<Seq<BlockView>>)
    ensures
        flattened(seq![head] + groups) == head + flattened(groups),
    decreases groups.len(),
{
    let all = seq![head] + groups;
    if groups.len() == 0 {
        assert(flattened(all.drop_last()) =~= Seq::<BlockView>::empty());
        assert(all.last() == head);
        assert(flattened(all) =~= head);
        assert(head + flattened(groups) =~= head);
    } else {
        lemma_flattened_prepend(head, groups.drop_last());
        assert(all.drop_last() =~= seq![head] + groups.drop_last());
        assert(all.last() == groups.last());
        assert((head + flattened(groups.drop_last())) + groups.last() =~= head + (flattened(
            groups.drop_last(),
        ) + groups.last()));
    }
}

/// Partitions `blocks` into the groups of its courses. A block with the
/// course-name class closes the group gathered so far, unless nothing was
/// gathered yet, and begins the next. The blocks after the last course-name
/// block are not returned.
pub fn segment<'a>(blocks: &'a [Block]) -> (groups: Vec<&'a [Block]>)
    ensures
        groups.deep_view() == groups_of(blocks.deep_view()),
{
    let ghost all = blocks.deep_view();
    let n = blocks.len();
    let mut groups: Vec<&'a [Block]> = Vec::new();
    let mut start: usize = 0;
    let mut i: usize = 0;
    proof {
        assert(all.subrange(0, n as int) =~= all);
        assert(groups.deep_view() + groups_of(all) =~= groups_of(all));
    }
    while i < n
        invariant
            start <= i <= n == blocks@.len(),
            i > 0 ==> start < i,
            all == blocks.deep_view(),
            forall|j: int| start < j < i ==> !all[j].is_course_name(),
            groups_of(all) == groups.deep_view() + groups_of(all.subrange(start as int, n as int)),
        decreases n - i,
    {
        if blocks[i].is_course_name() && i > start {
            let group = slice_subrange(blocks, start, i);
            proof {
                let rest = all.subrange(start as int, n as int);
                assert forall|j: int| 1 <= j < i - start implies !rest[j].is_course_name() by {
                    assert(rest[j] == all[j + start]);
                }
                assert(rest[i - start] == all[i as int]);
                lemma_next_marker_is(rest, 1, i - start);
                assert(rest.subrange(0, i - start) =~= group.deep_view());
                assert(rest.subrange(i - start, rest.len() as int) =~= all.subrange(
                    i as int,
                    n as int,
                ));
                assert(groups.deep_view().push(group.deep_view()) + groups_of(
                    all.subrange(i as int, n as int),
                ) =~= groups.deep_view() + groups_of(rest));
            }
            let ghost before = groups.deep_view();
            groups.push(group);
            assert(groups.deep_view() =~= before.push(group.deep_view()));
            start = i;
        }
        i += 1;
    }
    proof {
        let rest = all.subrange(start as int, n as int);
        assert forall|j: int| 1 <= j < rest.len() implies !rest[j].is_course_name() by {
            assert(rest[j] == all[j + start]);
        }
        if rest.len() >= 1 {
            lemma_next_marker_is(rest, 1, rest.len() as int);
        }
        assert(groups_of(rest) =~= Seq::<Seq<BlockView>>::empty());
        assert(groups.deep_view() + groups_of(rest) =~= groups.deep_view());
    }
    groups
}

} // verus!
