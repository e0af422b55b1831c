//! What a planned merge does to the stored schedule: the current lessons of
//! one subject of one group, keyed by their id, and the laws that describe
//! them once the planned writes are applied.

use vstd::prelude::*;
use crate::schedule::{ScheduleObjModel, opt_text};
use crate::merge::{
    MergeContext, MergeResult, MergeStep, NewScheduleObj, ExistenceDiff, obj_pos, tracked_changed,
    first_match, is_first_match, has_input_at, input_steps, inputs_steps, closing_steps, plan_steps,
    plan_results, merge_of_unchanged_lessons_writes_no_lesson,
};

verus! {

/// Two lessons are at the same position with the same teachers and
/// auditorium.
pub open spec fn same_lesson(a: ScheduleObjModel, b: ScheduleObjModel) -> bool {
    obj_pos(a) == obj_pos(b) && !tracked_changed(a, b)
}

/// No two lessons share a position.
pub open spec fn distinct_positions(s: Seq<ScheduleObjModel>) -> bool {
    forall|a: int, b: int|
        0 <= a < b < s.len() ==> obj_pos(#[trigger] s[a]) != obj_pos(#[trigger] s[b])
}

/// `s` lists the current lessons `t`, each once, as a query returns them in
/// some order.
pub open spec fn lists_table(s: Seq<ScheduleObjModel>, t: Map<i32, ScheduleObjModel>) -> bool {
    &&& forall|k: int|
        0 <= k < s.len() ==> t.contains_key((#[trigger] s[k]).schedule_obj_id) && t[s[k].schedule_obj_id]
            == s[k]
    &&& forall|id: i32| #[trigger] t.contains_key(id) ==> exists|k: int|
        0 <= k < s.len() && (#[trigger] s[k]).schedule_obj_id == id
    &&& forall|a: int, b: int|
        0 <= a < b < s.len() ==> (#[trigger] s[a]).schedule_obj_id != (#[trigger] s[b]).schedule_obj_id
}

/// The text stored for a row's existence diff.
pub open spec fn diff_text(d: ExistenceDiff) -> Seq<char> {
    match d {
        ExistenceDiff::New => "new"@,
        ExistenceDiff::Changed => "changed"@,
    }
}

/// `o` is how the database holds the inserted `row`: every written field as
/// written, the id, the link id where none was given and the creation time
/// as the database assigns them, and no end generation.
pub open spec fn stored_as(row: NewScheduleObj, o: ScheduleObjModel) -> bool {
    &&& o.last_known_orig_sched_obj_id == row.last_known_orig_sched_obj_id
    &&& o.group_id == row.group_id
    &&& (row.link_id matches Some(l) ==> o.time_link_id == l)
    &&& o.subject_id == row.subject_id
    &&& o.subject_gen_id == row.subject_gen_id
    &&& o.teacher_id == row.teacher_id
    &&& o.teacher_gen_id == Some(row.teacher_gen_id)
    &&& o.second_teacher_id == row.second_teacher_id
    &&& o.third_teacher_id == row.third_teacher_id
    &&& o.fourth_teacher_id == row.fourth_teacher_id
    &&& opt_text(o.auditorium) == opt_text(row.auditorium)
    &&& o.modified_timestamp == row.modified_timestamp
    &&& o.time == row.time
    &&& o.week_day == row.week_day
    &&& o.week_parity@ == row.week_parity@
    &&& o.gen_start == row.gen_start
    &&& o.gen_end is None
    &&& o.existence_diff@ == diff_text(row.existence_diff)
}

/// A stored lesson with its untracked fields brought up to date.
pub open spec fn refreshed(
    o: ScheduleObjModel,
    modified_timestamp: i128,
    last_known_orig_sched_obj_id: i32,
    subject_gen_id: i32,
    teacher_gen_id: Option<i32>,
) -> ScheduleObjModel {
    ScheduleObjModel {
        modified_timestamp: modified_timestamp,
        last_known_orig_sched_obj_id: last_known_orig_sched_obj_id,
        subject_gen_id: subject_gen_id,
        teacher_gen_id: teacher_gen_id,
        ..o
    }
}

/// The current lessons after one write; `inserted` is the row as the
/// database holds it where the write is an insert. Recording a generation
/// leaves the lessons as they are; ending a lesson takes it out of the
/// current ones.
pub open spec fn apply_step(
    t: Map<i32, ScheduleObjModel>,
    step: MergeStep,
    inserted: ScheduleObjModel,
) -> Map<i32, ScheduleObjModel> {
    match step {
        MergeStep::CreateGeneration { .. } => t,
        MergeStep::CloseObject { schedule_obj_id, .. } => t.remove(schedule_obj_id),
        MergeStep::InsertObject { .. } => t.insert(inserted.schedule_obj_id, inserted),
        MergeStep::RefreshObject {
            schedule_obj_id,
            modified_timestamp,
            last_known_orig_sched_obj_id,
            subject_gen_id,
            teacher_gen_id,
        } => if t.contains_key(schedule_obj_id) {
            t.insert(
                schedule_obj_id,
                refreshed(
                    t[schedule_obj_id],
                    modified_timestamp,
                    last_known_orig_sched_obj_id,
                    subject_gen_id,
                    teacher_gen_id,
                ),
            )
        } else {
            t
        },
    }
}

/// The current lessons after a sequence of writes, in order; the write at
/// index `k` of the whole sequence (counted from `base`) that inserts a row
/// inserts `inserted(k)`.
pub open spec fn apply_steps(
    t: Map<i32, ScheduleObjModel>,
    steps: Seq<MergeStep>,
    inserted: spec_fn(int) -> ScheduleObjModel,
    base: int,
) -> Map<i32, ScheduleObjModel>
    decreases steps.len(),
{
    if steps.len() == 0 {
        t
    } else {
        apply_step(
            apply_steps(t, steps.drop_last(), inserted, base),
            steps.last(),
            inserted(base + steps.len() - 1),
        )
    }
}

/// The database holds each row that `steps` inserts as written, under an id
/// that no current lesson and no other inserted row has.
pub open spec fn stores_inserts(
    steps: Seq<MergeStep>,
    t0: Map<i32, ScheduleObjModel>,
    inserted: spec_fn(int) -> ScheduleObjModel,
) -> bool {
    &&& forall|k: int|
        0 <= k < steps.len() && (#[trigger] steps[k]) is InsertObject ==> stored_as(
            steps[k]->row,
            inserted(k),
        )
    &&& forall|k: int|
        0 <= k < steps.len() && (#[trigger] steps[k]) is InsertObject ==> !t0.contains_key(
            inserted(k).schedule_obj_id,
        )
    &&& forall|k1: int, k2: int|
        0 <= k1 < steps.len() && 0 <= k2 < steps.len() && k1 != k2 && (#[trigger] steps[k1]) is InsertObject
            && (#[trigger] steps[k2]) is InsertObject ==> inserted(k1).schedule_obj_id != inserted(
            k2,
        ).schedule_obj_id
}

/// Applying two sequences of writes one after the other is applying their
/// concatenation.
proof fn lemma_apply_concat(
    t: Map<i32, ScheduleObjModel>,
    s1: Seq<MergeStep>,
    s2: Seq<MergeStep>,
    inserted: spec_fn(int) -> ScheduleObjModel,
    base: int,
)
    ensures
        apply_steps(t, s1 + s2, inserted, base) == apply_steps(
            apply_steps(t, s1, inserted, base),
            s2,
            inserted,
            base + s1.len(),
        ),
    decreases s2.len(),
{
    if s2.len() == 0 {
        assert(s1 + s2 =~= s1);
    } else {
        assert((s1 + s2).drop_last() =~= s1 + s2.drop_last());
        assert((s1 + s2).last() == s2.last());
        lemma_apply_concat(t, s1, s2.drop_last(), inserted, base);
    }
}

proof fn lemma_apply_one(
    t: Map<i32, ScheduleObjModel>,
    a: MergeStep,
    inserted: spec_fn(int) -> ScheduleObjModel,
    base: int,
)
    ensures
        apply_steps(t, seq![a], inserted, base) == apply_step(t, a, inserted(base)),
{
    assert(seq![a].drop_last() =~= Seq::<MergeStep>::empty());
    assert(apply_steps(t, Seq::<MergeStep>::empty(), inserted, base) == t);
    assert(seq![a].last() == a);
}

proof fn lemma_apply_two(
    t: Map<i32, ScheduleObjModel>,
    a: MergeStep,
    b: MergeStep,
    inserted: spec_fn(int) -> ScheduleObjModel,
    base: int,
)
    ensures
        apply_steps(t, seq![a, b], inserted, base) == apply_step(
            apply_step(t, a, inserted(base)),
            b,
            inserted(base + 1),
        ),
{
    assert(seq![a, b].drop_last() =~= seq![a]);
    assert(seq![a, b].last() == b);
    lemma_apply_one(t, a, inserted, base);
}

proof fn lemma_apply_three(
    t: Map<i32, ScheduleObjModel>,
    a: MergeStep,
    b: MergeStep,
    c: MergeStep,
    inserted: spec_fn(int) -> ScheduleObjModel,
    base: int,
)
    ensures
        apply_steps(t, seq![a, b, c], inserted, base) == apply_step(
            apply_step(apply_step(t, a, inserted(base)), b, inserted(base + 1)),
            c,
            inserted(base + 2),
        ),
{
    assert(seq![a, b, c].drop_last() =~= seq![a, b]);
    assert(seq![a, b, c].last() == c);
    lemma_apply_two(t, a, b, inserted, base);
}

/// Under distinct positions, the first stored lesson at a position is the
/// only one there, and there is none when no lesson is there.
proof fn lemma_first_match_unique(existing: Seq<ScheduleObjModel>, pos: int)
    requires
        distinct_positions(existing),
    ensures
        match first_match(existing, pos) {
            None => forall|k: int| 0 <= k < existing.len() ==> obj_pos(#[trigger] existing[k]) != pos,
            Some(j) => {
                &&& 0 <= j < existing.len()
                &&& obj_pos(existing[j]) == pos
                &&& forall|k: int|
                    0 <= k < existing.len() && obj_pos(#[trigger] existing[k]) == pos ==> k == j
            },
        },
{
    if exists|k: int| 0 <= k < existing.len() && obj_pos(#[trigger] existing[k]) == pos {
        let k = choose|k: int| 0 <= k < existing.len() && obj_pos(#[trigger] existing[k]) == pos;
        assert forall|m: int| 0 <= m < k implies obj_pos(#[trigger] existing[m]) != pos by {
            assert(obj_pos(existing[m]) != obj_pos(existing[k]));
        }
        assert(is_first_match(existing, pos, k));
        let c = choose|c: int| is_first_match(existing, pos, c);
        assert forall|m: int| 0 <= m < existing.len() && obj_pos(#[trigger] existing[m]) == pos
            implies m == c by {
            if m < c {
                assert(obj_pos(existing[m]) != obj_pos(existing[c]));
            } else if m > c {
                assert(obj_pos(existing[c]) != obj_pos(existing[m]));
            }
        }
    }
}

/// An incoming lesson among `processed` replaced the stored lesson `e`: it
/// is at `e`'s position with other teachers or another auditorium.
pub open spec fn replaced(e: ScheduleObjModel, processed: Seq<ScheduleObjModel>) -> bool {
    exists|i: int|
        0 <= i < processed.len() && obj_pos(#[trigger] processed[i]) == obj_pos(e) && tracked_changed(
            processed[i],
            e,
        )
}

/// The current lessons `t` after the writes `steps` of the incoming lessons
/// `processed`, starting from the stored lessons `t0`.
spec fn inputs_phase_inv(
    t: Map<i32, ScheduleObjModel>,
    processed: Seq<ScheduleObjModel>,
    t0: Map<i32, ScheduleObjModel>,
    steps: Seq<MergeStep>,
    inserted: spec_fn(int) -> ScheduleObjModel,
) -> bool {
    &&& forall|id: i32|
        #[trigger] t.contains_key(id) ==> (t0.contains_key(id) && same_lesson(t[id], t0[id])
            && !replaced(t0[id], processed)) || (!t0.contains_key(id) && (exists|k: int|
            0 <= k < steps.len() && (#[trigger] steps[k]) is InsertObject && inserted(k).schedule_obj_id
                == id) && (exists|i: int|
            0 <= i < processed.len() && same_lesson(t[id], #[trigger] processed[i])))
    &&& forall|i: int|
        0 <= i < processed.len() ==> exists|id: i32|
            t.contains_key(id) && same_lesson(t[id], #[trigger] processed[i])
    &&& forall|id1: i32, id2: i32|
        #[trigger] t.contains_key(id1) && #[trigger] t.contains_key(id2) && id1 != id2 ==> obj_pos(
            t[id1],
        ) != obj_pos(t[id2])
    &&& forall|id: i32| #[trigger] t0.contains_key(id) && !replaced(t0[id], processed) ==> t.contains_key(id)
}

proof fn lemma_replaced_push(e: ScheduleObjModel, processed: Seq<ScheduleObjModel>, x: ScheduleObjModel)
    ensures
        replaced(e, processed.push(x)) == (replaced(e, processed) || (obj_pos(x) == obj_pos(e)
            && tracked_changed(x, e))),
{
    let p2 = processed.push(x);
    if replaced(e, p2) {
        let i = choose|i: int|
            0 <= i < p2.len() && obj_pos(#[trigger] p2[i]) == obj_pos(e) && tracked_changed(p2[i], e);
        if i < processed.len() {
            assert(processed[i] == p2[i]);
        }
    }
    if replaced(e, processed) {
        let i = choose|i: int|
            0 <= i < processed.len() && obj_pos(#[trigger] processed[i]) == obj_pos(e)
                && tracked_changed(processed[i], e);
        assert(p2[i] == processed[i]);
    }
    if obj_pos(x) == obj_pos(e) && tracked_changed(x, e) {
        assert(p2[processed.len() as int] == x);
    }
}

/// The stored lesson under each current id of `t0`.
proof fn lemma_table_rows(existing: Seq<ScheduleObjModel>, t0: Map<i32, ScheduleObjModel>, id: i32)
    requires
        lists_table(existing, t0),
        t0.contains_key(id),
    ensures
        exists|k: int| 0 <= k < existing.len() && existing[k].schedule_obj_id == id && t0[id] == existing[k],
{
    let k = choose|k: int| 0 <= k < existing.len() && (#[trigger] existing[k]).schedule_obj_id == id;
    assert(t0[existing[k].schedule_obj_id] == existing[k]);
}

/// The writes of one more incoming lesson keep the invariant of the
/// incoming phase.
#[verifier::rlimit(60)]
proof fn lemma_input_step(
    t: Map<i32, ScheduleObjModel>,
    processed: Seq<ScheduleObjModel>,
    x: ScheduleObjModel,
    existing: Seq<ScheduleObjModel>,
    t0: Map<i32, ScheduleObjModel>,
    steps: Seq<MergeStep>,
    inserted: spec_fn(int) -> ScheduleObjModel,
    ctx: MergeContext,
)
    requires
        inputs_phase_inv(t, processed, t0, steps, inserted),
        distinct_positions(processed.push(x)),
        distinct_positions(existing),
        lists_table(existing, t0),
        stores_inserts(steps + input_steps(x, existing, ctx), t0, inserted),
    ensures
        inputs_phase_inv(
            apply_steps(t, input_steps(x, existing, ctx), inserted, steps.len() as int),
            processed.push(x),
            t0,
            steps + input_steps(x, existing, ctx),
            inserted,
        ),
{
    let xs = input_steps(x, existing, ctx);
    let all = steps + xs;
    let p2 = processed.push(x);
    let n = steps.len() as int;
    let t2 = apply_steps(t, xs, inserted, n);
    let px = obj_pos(x);
    assert(p2[processed.len() as int] == x);
    assert forall|i: int| 0 <= i < processed.len() implies obj_pos(#[trigger] processed[i]) != px by {
        assert(p2[i] == processed[i]);
        assert(obj_pos(p2[i]) != obj_pos(p2[processed.len() as int]));
    }
    assert forall|k: int| 0 <= k < n implies #[trigger] all[k] == steps[k] by {}
    assert forall|o: int| 0 <= o < xs.len() implies #[trigger] all[n + o] == xs[o] by {}
    lemma_first_match_unique(existing, px);
    // every current id is a stored one or one inserted by an earlier write
    assert forall|k: int| 0 <= k < n && (#[trigger] steps[k]) is InsertObject implies !t0.contains_key(
        inserted(k).schedule_obj_id,
    ) by {
        assert(all[k] == steps[k]);
    }
    // the positions of stored lessons against the incoming one
    assert forall|id: i32| #[trigger] t0.contains_key(id) && obj_pos(t0[id]) == px implies first_match(
        existing,
        px,
    ) matches Some(j) && id == existing[j].schedule_obj_id && t0[id] == existing[j] by {
        lemma_table_rows(existing, t0, id);
    }
    assert forall|id: i32| #[trigger] t0.contains_key(id) && obj_pos(t0[id]) != px implies replaced(
        t0[id],
        p2,
    ) == replaced(t0[id], processed) by {
        lemma_replaced_push(t0[id], processed, x);
    }
    match first_match(existing, px) {
        None => {
            let g = MergeStep::CreateGeneration { gen_id: crate::merge::new_gen(ctx) };
            let ins = MergeStep::InsertObject {
                row: crate::merge::new_row(x, None, ctx, ExistenceDiff::New),
            };
            assert(xs == seq![g, ins]);
            lemma_apply_two(t, g, ins, inserted, n);
            let o = inserted(n + 1);
            assert(all[n + 1] == ins);
            assert(stored_as(ins->row, o));
            assert(same_lesson(o, x));
            assert(!t0.contains_key(o.schedule_obj_id));
            assert(t2 == t.insert(o.schedule_obj_id, o));
            assert(!t.contains_key(o.schedule_obj_id)) by {
                if t.contains_key(o.schedule_obj_id) {
                    let k = choose|k: int|
                        0 <= k < steps.len() && (#[trigger] steps[k]) is InsertObject && inserted(
                            k,
                        ).schedule_obj_id == o.schedule_obj_id;
                    assert(all[k] == steps[k]);
                }
            }
            assert forall|id: i32| #[trigger] t0.contains_key(id) implies obj_pos(t0[id]) != px by {
                lemma_table_rows(existing, t0, id);
            }
            assert forall|id: i32| #[trigger] t2.contains_key(id) implies (t0.contains_key(id)
                && same_lesson(t2[id], t0[id]) && !replaced(t0[id], p2)) || (!t0.contains_key(id) && (exists|k: int|
                0 <= k < all.len() && (#[trigger] all[k]) is InsertObject && inserted(k).schedule_obj_id
                    == id) && (exists|i: int| 0 <= i < p2.len() && same_lesson(t2[id], #[trigger] p2[i]))) by {
                if id == o.schedule_obj_id {
                    assert(same_lesson(t2[id], p2[processed.len() as int]));
                    assert(all[n + 1] is InsertObject);
                } else {
                    if !t0.contains_key(id) {
                        let k = choose|k: int|
                            0 <= k < steps.len() && (#[trigger] steps[k]) is InsertObject && inserted(
                                k,
                            ).schedule_obj_id == id;
                        assert(all[k] is InsertObject);
                        let i = choose|i: int|
                            0 <= i < processed.len() && same_lesson(t[id], #[trigger] processed[i]);
                        assert(p2[i] == processed[i]);
                    }
                }
            }
            assert forall|i: int| 0 <= i < p2.len() implies exists|id: i32|
                t2.contains_key(id) && same_lesson(t2[id], #[trigger] p2[i]) by {
                if i == processed.len() {
                    assert(t2.contains_key(o.schedule_obj_id) && same_lesson(t2[o.schedule_obj_id], p2[i]));
                } else {
                    assert(p2[i] == processed[i]);
                    let id = choose|id: i32| t.contains_key(id) && same_lesson(t[id], #[trigger] processed[i]);
                    assert(t2.contains_key(id) && same_lesson(t2[id], p2[i]));
                }
            }
            assert forall|id1: i32, id2: i32|
                #[trigger] t2.contains_key(id1) && #[trigger] t2.contains_key(id2) && id1 != id2 implies obj_pos(
                t2[id1],
            ) != obj_pos(t2[id2]) by {
                if id1 == o.schedule_obj_id || id2 == o.schedule_obj_id {
                    let other = if id1 == o.schedule_obj_id { id2 } else { id1 };
                    assert(t.contains_key(other));
                    if t0.contains_key(other) {
                        assert(obj_pos(t[other]) == obj_pos(t0[other]));
                    } else {
                        let i = choose|i: int|
                            0 <= i < processed.len() && same_lesson(t[other], #[trigger] processed[i]);
                        assert(obj_pos(processed[i]) != px);
                    }
                }
            }
            assert forall|id: i32| #[trigger] t0.contains_key(id) && !replaced(t0[id], p2) implies t2.contains_key(id) by {
                assert(!replaced(t0[id], processed));
            }
        },
        Some(j) => {
            let e = existing[j];
            assert(t0.contains_key(e.schedule_obj_id) && t0[e.schedule_obj_id] == e);
            assert(!replaced(e, processed)) by {
                if replaced(e, processed) {
                    let i = choose|i: int|
                        0 <= i < processed.len() && obj_pos(#[trigger] processed[i]) == obj_pos(e)
                            && tracked_changed(processed[i], e);
                }
            }
            lemma_replaced_push(e, processed, x);
            assert(t.contains_key(e.schedule_obj_id));
            // other stored lessons are elsewhere
            assert forall|id: i32| #[trigger] t0.contains_key(id) && id != e.schedule_obj_id implies obj_pos(
                t0[id],
            ) != px by {
                lemma_table_rows(existing, t0, id);
                let k = choose|k: int|
                    0 <= k < existing.len() && existing[k].schedule_obj_id == id && t0[id] == existing[k];
                if obj_pos(existing[k]) == px {
                    assert(k == j);
                }
            }
            if tracked_changed(x, e) {
                let g = MergeStep::CreateGeneration { gen_id: crate::merge::new_gen(ctx) };
                let c = MergeStep::CloseObject {
                    schedule_obj_id: e.schedule_obj_id,
                    gen_end: crate::merge::new_gen(ctx),
                };
                let ins = MergeStep::InsertObject {
                    row: crate::merge::new_row(x, Some(e.time_link_id), ctx, ExistenceDiff::Changed),
                };
                assert(xs == seq![g, c, ins]);
                lemma_apply_three(t, g, c, ins, inserted, n);
                let o = inserted(n + 2);
                assert(all[n + 2] == ins);
                assert(stored_as(ins->row, o));
                assert(same_lesson(o, x));
                assert(!t0.contains_key(o.schedule_obj_id));
                let t1 = t.remove(e.schedule_obj_id);
                assert(t2 == t1.insert(o.schedule_obj_id, o));
                assert(!t.contains_key(o.schedule_obj_id)) by {
                    if t.contains_key(o.schedule_obj_id) {
                        let k = choose|k: int|
                            0 <= k < steps.len() && (#[trigger] steps[k]) is InsertObject && inserted(
                                k,
                            ).schedule_obj_id == o.schedule_obj_id;
                        assert(all[k] == steps[k]);
                    }
                }
                assert(replaced(e, p2));
                assert forall|id: i32| #[trigger] t2.contains_key(id) implies (t0.contains_key(id)
                    && same_lesson(t2[id], t0[id]) && !replaced(t0[id], p2)) || (!t0.contains_key(id) && (exists|k: int|
                    0 <= k < all.len() && (#[trigger] all[k]) is InsertObject && inserted(k).schedule_obj_id
                        == id) && (exists|i: int| 0 <= i < p2.len() && same_lesson(t2[id], #[trigger] p2[i]))) by {
                    if id == o.schedule_obj_id {
                        assert(same_lesson(t2[id], p2[processed.len() as int]));
                        assert(all[n + 2] is InsertObject);
                    } else {
                        assert(id != e.schedule_obj_id);
                        if !t0.contains_key(id) {
                            let k = choose|k: int|
                                0 <= k < steps.len() && (#[trigger] steps[k]) is InsertObject && inserted(
                                    k,
                                ).schedule_obj_id == id;
                            assert(all[k] is InsertObject);
                            let i = choose|i: int|
                                0 <= i < processed.len() && same_lesson(t[id], #[trigger] processed[i]);
                            assert(p2[i] == processed[i]);
                        }
                    }
                }
                assert forall|i: int| 0 <= i < p2.len() implies exists|id: i32|
                    t2.contains_key(id) && same_lesson(t2[id], #[trigger] p2[i]) by {
                    if i == processed.len() {
                        assert(t2.contains_key(o.schedule_obj_id) && same_lesson(t2[o.schedule_obj_id], p2[i]));
                    } else {
                        assert(p2[i] == processed[i]);
                        let id = choose|id: i32| t.contains_key(id) && same_lesson(t[id], #[trigger] processed[i]);
                        assert(obj_pos(processed[i]) != px);
                        assert(id != e.schedule_obj_id);
                        assert(t2.contains_key(id) && same_lesson(t2[id], p2[i]));
                    }
                }
                assert forall|id1: i32, id2: i32|
                    #[trigger] t2.contains_key(id1) && #[trigger] t2.contains_key(id2) && id1 != id2 implies obj_pos(
                    t2[id1],
                ) != obj_pos(t2[id2]) by {
                    if id1 == o.schedule_obj_id || id2 == o.schedule_obj_id {
                        let other = if id1 == o.schedule_obj_id { id2 } else { id1 };
                        assert(t.contains_key(other));
                        assert(other != e.schedule_obj_id);
                        if t0.contains_key(other) {
                            assert(obj_pos(t[other]) == obj_pos(t0[other]));
                        } else {
                            let i = choose|i: int|
                                0 <= i < processed.len() && same_lesson(t[other], #[trigger] processed[i]);
                            assert(obj_pos(processed[i]) != px);
                        }
                    }
                }
                assert forall|id: i32| #[trigger] t0.contains_key(id) && !replaced(t0[id], p2) implies t2.contains_key(id) by {
                    assert(id != e.schedule_obj_id);
                    assert(!replaced(t0[id], processed));
                }
            } else {
                let te = t[e.schedule_obj_id];
                assert(same_lesson(te, e));
                assert(!replaced(e, p2));
                assert forall|id: i32| #[trigger] t.contains_key(id) && id != e.schedule_obj_id implies obj_pos(t[id]) != px by {
                    assert(obj_pos(t[id]) != obj_pos(t[e.schedule_obj_id]));
                }
                if crate::merge::untracked_changed(x, e, ctx) {
                    let r = MergeStep::RefreshObject {
                        schedule_obj_id: e.schedule_obj_id,
                        modified_timestamp: x.modified_timestamp,
                        last_known_orig_sched_obj_id: x.last_known_orig_sched_obj_id,
                        subject_gen_id: ctx.latest_subject_gen,
                        teacher_gen_id: match e.teacher_id {
                            Some(_) => Some(ctx.latest_teachers_gen),
                            None => None,
                        },
                    };
                    assert(xs == seq![r]);
                    lemma_apply_one(t, r, inserted, n);
                } else {
                    assert(xs =~= Seq::<MergeStep>::empty());
                }
                assert(t2.dom() == t.dom());
                assert(same_lesson(t2[e.schedule_obj_id], e));
                assert forall|id: i32| #[trigger] t2.contains_key(id) && id != e.schedule_obj_id implies t2[id] == t[id] by {}
                assert forall|id: i32| #[trigger] t2.contains_key(id) implies (t0.contains_key(id)
                    && same_lesson(t2[id], t0[id]) && !replaced(t0[id], p2)) || (!t0.contains_key(id) && (exists|k: int|
                    0 <= k < all.len() && (#[trigger] all[k]) is InsertObject && inserted(k).schedule_obj_id
                        == id) && (exists|i: int| 0 <= i < p2.len() && same_lesson(t2[id], #[trigger] p2[i]))) by {
                    if id != e.schedule_obj_id {
                        if !t0.contains_key(id) {
                            let k = choose|k: int|
                                0 <= k < steps.len() && (#[trigger] steps[k]) is InsertObject && inserted(
                                    k,
                                ).schedule_obj_id == id;
                            assert(all[k] is InsertObject);
                            let i = choose|i: int|
                                0 <= i < processed.len() && same_lesson(t[id], #[trigger] processed[i]);
                            assert(p2[i] == processed[i]);
                        }
                    }
                }
                assert forall|i: int| 0 <= i < p2.len() implies exists|id: i32|
                    t2.contains_key(id) && same_lesson(t2[id], #[trigger] p2[i]) by {
                    if i == processed.len() {
                        assert(t2.contains_key(e.schedule_obj_id) && same_lesson(t2[e.schedule_obj_id], p2[i]));
                    } else {
                        assert(p2[i] == processed[i]);
                        let id = choose|id: i32| t.contains_key(id) && same_lesson(t[id], #[trigger] processed[i]);
                        assert(obj_pos(processed[i]) != px);
                        assert(id != e.schedule_obj_id);
                        assert(t2.contains_key(id) && same_lesson(t2[id], p2[i]));
                    }
                }
                assert forall|id1: i32, id2: i32|
                    #[trigger] t2.contains_key(id1) && #[trigger] t2.contains_key(id2) && id1 != id2 implies obj_pos(
                    t2[id1],
                ) != obj_pos(t2[id2]) by {
                    assert(obj_pos(t[id1]) != obj_pos(t[id2]));
                }
                assert forall|id: i32| #[trigger] t0.contains_key(id) && !replaced(t0[id], p2) implies t2.contains_key(id) by {
                    if id != e.schedule_obj_id {
                        assert(!replaced(t0[id], processed));
                    }
                }
            }
        },
    }
}

proof fn lemma_stores_inserts_prefix(
    s1: Seq<MergeStep>,
    s2: Seq<MergeStep>,
    t0: Map<i32, ScheduleObjModel>,
    inserted: spec_fn(int) -> ScheduleObjModel,
)
    requires
        stores_inserts(s1 + s2, t0, inserted),
    ensures
        stores_inserts(s1, t0, inserted),
{
    let all = s1 + s2;
    assert forall|k: int| 0 <= k < s1.len() implies #[trigger] s1[k] == all[k] by {}
}

/// The current lessons after the writes of the incoming lessons.
proof fn lemma_inputs_phase(
    processed: Seq<ScheduleObjModel>,
    existing: Seq<ScheduleObjModel>,
    t0: Map<i32, ScheduleObjModel>,
    inserted: spec_fn(int) -> ScheduleObjModel,
    ctx: MergeContext,
)
    requires
        distinct_positions(processed),
        distinct_positions(existing),
        lists_table(existing, t0),
        stores_inserts(inputs_steps(processed, existing, ctx), t0, inserted),
    ensures
        inputs_phase_inv(
            apply_steps(t0, inputs_steps(processed, existing, ctx), inserted, 0),
            processed,
            t0,
            inputs_steps(processed, existing, ctx),
            inserted,
        ),
    decreases processed.len(),
{
    if processed.len() == 0 {
        let t = apply_steps(t0, inputs_steps(processed, existing, ctx), inserted, 0);
        assert(t == t0);
        assert forall|id: i32| #[trigger] t0.contains_key(id) implies !replaced(t0[id], processed) by {}
        assert forall|id1: i32, id2: i32|
            #[trigger] t.contains_key(id1) && #[trigger] t.contains_key(id2) && id1 != id2 implies obj_pos(
            t[id1],
        ) != obj_pos(t[id2]) by {
            lemma_table_rows(existing, t0, id1);
            lemma_table_rows(existing, t0, id2);
            let k1 = choose|k: int|
                0 <= k < existing.len() && existing[k].schedule_obj_id == id1 && t0[id1] == existing[k];
            let k2 = choose|k: int|
                0 <= k < existing.len() && existing[k].schedule_obj_id == id2 && t0[id2] == existing[k];
            if k1 < k2 {
                assert(obj_pos(existing[k1]) != obj_pos(existing[k2]));
            } else {
                assert(obj_pos(existing[k2]) != obj_pos(existing[k1]));
            }
        }
    } else {
        let rest = processed.drop_last();
        let x = processed.last();
        assert(rest.push(x) =~= processed);
        assert(distinct_positions(rest)) by {
            assert forall|a: int, b: int| 0 <= a < b < rest.len() implies obj_pos(#[trigger] rest[a])
                != obj_pos(#[trigger] rest[b]) by {
                assert(rest[a] == processed[a] && rest[b] == processed[b]);
            }
        }
        let s1 = inputs_steps(rest, existing, ctx);
        let s2 = input_steps(x, existing, ctx);
        assert(inputs_steps(processed, existing, ctx) == s1 + s2);
        lemma_stores_inserts_prefix(s1, s2, t0, inserted);
        lemma_inputs_phase(rest, existing, t0, inserted, ctx);
        lemma_apply_concat(t0, s1, s2, inserted, 0);
        lemma_input_step(
            apply_steps(t0, s1, inserted, 0),
            rest,
            x,
            existing,
            t0,
            s1,
            inserted,
            ctx,
        );
    }
}

/// Stored lesson `id` among `stored` is ended by the closing writes: no
/// incoming lesson is at its position.
pub open spec fn closed_by(stored: Seq<ScheduleObjModel>, inputs: Seq<ScheduleObjModel>, id: i32) -> bool {
    exists|k: int|
        0 <= k < stored.len() && (#[trigger] stored[k]).schedule_obj_id == id && !has_input_at(
            inputs,
            obj_pos(stored[k]),
        )
}

/// The closing writes take out exactly the stored lessons that no incoming
/// lesson occupies and leave the others as they are.
proof fn lemma_closing_phase(
    t: Map<i32, ScheduleObjModel>,
    stored: Seq<ScheduleObjModel>,
    inputs: Seq<ScheduleObjModel>,
    ctx: MergeContext,
    inserted: spec_fn(int) -> ScheduleObjModel,
    base: int,
)
    ensures
        forall|id: i32|
            #[trigger] apply_steps(t, closing_steps(stored, inputs, ctx), inserted, base).contains_key(id)
                <==> (t.contains_key(id) && !closed_by(stored, inputs, id)),
        forall|id: i32|
            #[trigger] apply_steps(t, closing_steps(stored, inputs, ctx), inserted, base).contains_key(id)
                ==> apply_steps(t, closing_steps(stored, inputs, ctx), inserted, base)[id] == t[id],
    decreases stored.len(),
{
    let after = apply_steps(t, closing_steps(stored, inputs, ctx), inserted, base);
    if stored.len() == 0 {
        assert(after == t);
    } else {
        let rest = stored.drop_last();
        let e = stored.last();
        lemma_closing_phase(t, rest, inputs, ctx, inserted, base);
        let s1 = closing_steps(rest, inputs, ctx);
        let mid = apply_steps(t, s1, inserted, base);
        let tail = if has_input_at(inputs, obj_pos(e)) {
            Seq::<MergeStep>::empty()
        } else {
            seq![
                MergeStep::CreateGeneration { gen_id: crate::merge::new_gen(ctx) },
                MergeStep::CloseObject { schedule_obj_id: e.schedule_obj_id, gen_end: crate::merge::new_gen(ctx) },
            ]
        };
        assert(closing_steps(stored, inputs, ctx) == s1 + tail);
        lemma_apply_concat(t, s1, tail, inserted, base);
        if has_input_at(inputs, obj_pos(e)) {
            assert(after == mid);
        } else {
            lemma_apply_two(
                mid,
                MergeStep::CreateGeneration { gen_id: crate::merge::new_gen(ctx) },
                MergeStep::CloseObject { schedule_obj_id: e.schedule_obj_id, gen_end: crate::merge::new_gen(ctx) },
                inserted,
                base + s1.len(),
            );
            assert(after == mid.remove(e.schedule_obj_id));
        }
        assert forall|id: i32| closed_by(stored, inputs, id) <==> (closed_by(rest, inputs, id) || (
        e.schedule_obj_id == id && !has_input_at(inputs, obj_pos(e)))) by {
            if closed_by(stored, inputs, id) {
                let k = choose|k: int|
                    0 <= k < stored.len() && (#[trigger] stored[k]).schedule_obj_id == id && !has_input_at(
                        inputs,
                        obj_pos(stored[k]),
                    );
                if k < rest.len() {
                    assert(rest[k] == stored[k]);
                }
            }
            if closed_by(rest, inputs, id) {
                let k = choose|k: int|
                    0 <= k < rest.len() && (#[trigger] rest[k]).schedule_obj_id == id && !has_input_at(
                        inputs,
                        obj_pos(rest[k]),
                    );
                assert(stored[k] == rest[k]);
            }
            if e.schedule_obj_id == id && !has_input_at(inputs, obj_pos(e)) {
                assert(stored[stored.len() - 1] == e);
            }
        }
    }
}

/// The current lessons of the subject once the writes that the merge plans
/// are applied to the current lessons `t0`, the database holding inserted
/// rows as `inserted` says.
pub open spec fn table_after_merge(
    inputs: Seq<ScheduleObjModel>,
    existing: Seq<ScheduleObjModel>,
    ctx: MergeContext,
    t0: Map<i32, ScheduleObjModel>,
    inserted: spec_fn(int) -> ScheduleObjModel,
) -> Map<i32, ScheduleObjModel> {
    apply_steps(t0, plan_steps(inputs, existing, ctx), inserted, 0)
}

/// Once the writes of a merge are applied, with incoming and stored lessons
/// each at distinct positions: every incoming lesson has exactly one current
/// lesson at its position, with its teachers and auditorium; every current
/// lesson is such a lesson; and a lesson that was current before stays
/// current exactly when an incoming lesson at its position has the same
/// teachers and auditorium, every other one being ended.
pub proof fn merge_leaves_one_current_lesson_per_incoming_lesson(
    inputs: Seq<ScheduleObjModel>,
    existing: Seq<ScheduleObjModel>,
    ctx: MergeContext,
    t0: Map<i32, ScheduleObjModel>,
    inserted: spec_fn(int) -> ScheduleObjModel,
)
    requires
        distinct_positions(inputs),
        distinct_positions(existing),
        lists_table(existing, t0),
        stores_inserts(plan_steps(inputs, existing, ctx), t0, inserted),
    ensures
        forall|i: int|
            0 <= i < inputs.len() ==> exists|id: i32|
                table_after_merge(inputs, existing, ctx, t0, inserted).contains_key(id) && same_lesson(
                    table_after_merge(inputs, existing, ctx, t0, inserted)[id],
                    #[trigger] inputs[i],
                ),
        forall|id: i32|
            #[trigger] table_after_merge(inputs, existing, ctx, t0, inserted).contains_key(id) ==> exists|i: int|
                0 <= i < inputs.len() && same_lesson(
                    table_after_merge(inputs, existing, ctx, t0, inserted)[id],
                    #[trigger] inputs[i],
                ),
        forall|id1: i32, id2: i32|
            #[trigger] table_after_merge(inputs, existing, ctx, t0, inserted).contains_key(id1)
                && #[trigger] table_after_merge(inputs, existing, ctx, t0, inserted).contains_key(id2) && id1
                != id2 ==> obj_pos(table_after_merge(inputs, existing, ctx, t0, inserted)[id1]) != obj_pos(
                table_after_merge(inputs, existing, ctx, t0, inserted)[id2],
            ),
        forall|k: int|
            0 <= k < existing.len() ==> (table_after_merge(inputs, existing, ctx, t0, inserted).contains_key(
                (#[trigger] existing[k]).schedule_obj_id,
            ) <==> exists|i: int| 0 <= i < inputs.len() && same_lesson(existing[k], #[trigger] inputs[i])),
{
    let is = inputs_steps(inputs, existing, ctx);
    let cs = closing_steps(existing, inputs, ctx);
    lemma_stores_inserts_prefix(is, cs, t0, inserted);
    lemma_inputs_phase(inputs, existing, t0, inserted, ctx);
    let ti = apply_steps(t0, is, inserted, 0);
    lemma_apply_concat(t0, is, cs, inserted, 0);
    lemma_closing_phase(ti, existing, inputs, ctx, inserted, is.len() as int);
    let after = table_after_merge(inputs, existing, ctx, t0, inserted);
    assert(after == apply_steps(ti, cs, inserted, is.len() as int));
    // a current lesson whose position an incoming lesson occupies is not closed
    assert forall|id: i32| t0.contains_key(id) && ti.contains_key(id) && closed_by(existing, inputs, id)
        implies !has_input_at(inputs, obj_pos(t0[id])) by {
        let k = choose|k: int|
            0 <= k < existing.len() && (#[trigger] existing[k]).schedule_obj_id == id && !has_input_at(
                inputs,
                obj_pos(existing[k]),
            );
        assert(t0[existing[k].schedule_obj_id] == existing[k]);
    }
    assert forall|i: int| 0 <= i < inputs.len() implies exists|id: i32|
        after.contains_key(id) && same_lesson(after[id], #[trigger] inputs[i]) by {
        let id = choose|id: i32| ti.contains_key(id) && same_lesson(ti[id], #[trigger] inputs[i]);
        if closed_by(existing, inputs, id) {
            let k = choose|k: int|
                0 <= k < existing.len() && (#[trigger] existing[k]).schedule_obj_id == id && !has_input_at(
                    inputs,
                    obj_pos(existing[k]),
                );
            assert(t0.contains_key(id) && t0[id] == existing[k]);
            assert(obj_pos(ti[id]) == obj_pos(t0[id]));
            assert(obj_pos(inputs[i]) == obj_pos(existing[k]));
            assert(has_input_at(inputs, obj_pos(existing[k])));
        }
        assert(after.contains_key(id));
    }
    assert forall|id: i32| #[trigger] after.contains_key(id) implies exists|i: int|
        0 <= i < inputs.len() && same_lesson(after[id], #[trigger] inputs[i]) by {
        assert(ti.contains_key(id) && !closed_by(existing, inputs, id));
        if t0.contains_key(id) && same_lesson(ti[id], t0[id]) && !replaced(t0[id], inputs) {
            lemma_table_rows(existing, t0, id);
            let k = choose|k: int|
                0 <= k < existing.len() && existing[k].schedule_obj_id == id && t0[id] == existing[k];
            assert(has_input_at(inputs, obj_pos(existing[k]))) by {
                if !has_input_at(inputs, obj_pos(existing[k])) {
                    assert(closed_by(existing, inputs, id));
                }
            }
            let i = choose|i: int| 0 <= i < inputs.len() && obj_pos(#[trigger] inputs[i]) == obj_pos(existing[k]);
            assert(!tracked_changed(inputs[i], existing[k]));
            assert(same_lesson(after[id], inputs[i]));
        }
    }
    assert forall|id1: i32, id2: i32|
        #[trigger] after.contains_key(id1) && #[trigger] after.contains_key(id2) && id1 != id2 implies obj_pos(
        after[id1],
    ) != obj_pos(after[id2]) by {
        assert(ti.contains_key(id1) && ti.contains_key(id2));
    }
    assert forall|k: int| 0 <= k < existing.len() implies (after.contains_key(
        (#[trigger] existing[k]).schedule_obj_id,
    ) <==> exists|i: int| 0 <= i < inputs.len() && same_lesson(existing[k], #[trigger] inputs[i])) by {
        let id = existing[k].schedule_obj_id;
        assert(t0.contains_key(id) && t0[id] == existing[k]);
        if after.contains_key(id) {
            assert(ti.contains_key(id) && !closed_by(existing, inputs, id));
            assert(!replaced(existing[k], inputs));
            assert(has_input_at(inputs, obj_pos(existing[k]))) by {
                if !has_input_at(inputs, obj_pos(existing[k])) {
                    assert(closed_by(existing, inputs, id));
                }
            }
            let i = choose|i: int| 0 <= i < inputs.len() && obj_pos(#[trigger] inputs[i]) == obj_pos(existing[k]);
            assert(!tracked_changed(inputs[i], existing[k]));
            assert(same_lesson(existing[k], inputs[i]));
        }
        if exists|i: int| 0 <= i < inputs.len() && same_lesson(existing[k], #[trigger] inputs[i]) {
            let i = choose|i: int| 0 <= i < inputs.len() && same_lesson(existing[k], #[trigger] inputs[i]);
            assert(!replaced(existing[k], inputs)) by {
                if replaced(existing[k], inputs) {
                    let i2 = choose|i2: int|
                        0 <= i2 < inputs.len() && obj_pos(#[trigger] inputs[i2]) == obj_pos(existing[k])
                            && tracked_changed(inputs[i2], existing[k]);
                    if i2 < i {
                        assert(obj_pos(inputs[i2]) != obj_pos(inputs[i]));
                    } else if i2 > i {
                        assert(obj_pos(inputs[i]) != obj_pos(inputs[i2]));
                    }
                }
            }
            assert(ti.contains_key(id));
            assert(!closed_by(existing, inputs, id)) by {
                if closed_by(existing, inputs, id) {
                    let k2 = choose|k2: int|
                        0 <= k2 < existing.len() && (#[trigger] existing[k2]).schedule_obj_id == id
                            && !has_input_at(inputs, obj_pos(existing[k2]));
                    if k2 < k {
                        assert(existing[k2].schedule_obj_id != existing[k].schedule_obj_id);
                    } else if k2 > k {
                        assert(existing[k].schedule_obj_id != existing[k2].schedule_obj_id);
                    }
                    assert(obj_pos(inputs[i]) == obj_pos(existing[k]));
                }
            }
        }
    }
}

/// Merging the same incoming lessons again, into the current lessons that
/// the first merge left (read back in any order), reports every lesson
/// unmodified and writes nothing but refreshes of untracked fields: no new
/// row, no ended lesson, no generation.
pub proof fn merging_again_writes_no_lesson(
    inputs: Seq<ScheduleObjModel>,
    existing: Seq<ScheduleObjModel>,
    ctx: MergeContext,
    t0: Map<i32, ScheduleObjModel>,
    inserted: spec_fn(int) -> ScheduleObjModel,
    existing_again: Seq<ScheduleObjModel>,
    ctx_again: MergeContext,
)
    requires
        distinct_positions(inputs),
        distinct_positions(existing),
        lists_table(existing, t0),
        stores_inserts(plan_steps(inputs, existing, ctx), t0, inserted),
        lists_table(existing_again, table_after_merge(inputs, existing, ctx, t0, inserted)),
    ensures
        forall|i: int|
            0 <= i < inputs.len() ==> #[trigger] plan_results(inputs, existing_again)[i]
                == MergeResult::NotModified,
        forall|k: int|
            0 <= k < plan_steps(inputs, existing_again, ctx_again).len() ==> (#[trigger] plan_steps(
                inputs,
                existing_again,
                ctx_again,
            )[k]) is RefreshObject,
{
    let after = table_after_merge(inputs, existing, ctx, t0, inserted);
    merge_leaves_one_current_lesson_per_incoming_lesson(inputs, existing, ctx, t0, inserted);
    assert(distinct_positions(existing_again)) by {
        assert forall|a: int, b: int| 0 <= a < b < existing_again.len() implies obj_pos(
            #[trigger] existing_again[a],
        ) != obj_pos(#[trigger] existing_again[b]) by {
            let ia = existing_again[a].schedule_obj_id;
            let ib = existing_again[b].schedule_obj_id;
            assert(after.contains_key(ia) && after[ia] == existing_again[a]);
            assert(after.contains_key(ib) && after[ib] == existing_again[b]);
        }
    }
    assert forall|i: int| 0 <= i < inputs.len() implies (#[trigger] first_match(
        existing_again,
        obj_pos(inputs[i]),
    )) is Some && !tracked_changed(
        inputs[i],
        existing_again[first_match(existing_again, obj_pos(inputs[i]))->0],
    ) by {
        let id = choose|id: i32| after.contains_key(id) && same_lesson(after[id], #[trigger] inputs[i]);
        let k = choose|k: int| 0 <= k < existing_again.len() && (#[trigger] existing_again[k]).schedule_obj_id == id;
        assert(after[existing_again[k].schedule_obj_id] == existing_again[k]);
        lemma_first_match_unique(existing_again, obj_pos(inputs[i]));
    }
    assert forall|k: int| 0 <= k < existing_again.len() implies has_input_at(
        inputs,
        obj_pos(#[trigger] existing_again[k]),
    ) by {
        let id = existing_again[k].schedule_obj_id;
        assert(after.contains_key(id) && after[id] == existing_again[k]);
        let i = choose|i: int| 0 <= i < inputs.len() && same_lesson(after[id], #[trigger] inputs[i]);
        assert(obj_pos(inputs[i]) == obj_pos(existing_again[k]));
    }
    merge_of_unchanged_lessons_writes_no_lesson(inputs, existing_again, ctx_again);
}

} // verus!
