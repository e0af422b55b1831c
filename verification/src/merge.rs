use vstd::prelude::*;
use std::collections::HashMap;
use crate::week_day::WeekDay;
use crate::schedule::{ScheduleObjModel, lesson_pos, clone_opt_string, opt_text};

verus! {

/// What the merge did with one incoming lesson.
#[derive(Debug, Clone, Copy, PartialEq, Eq, Structural)]
pub enum MergeResult {
    Inserted,
    Updated,
    NotModified,
}

/// Why a stored lesson row was written: a lesson that was not there before,
/// or a new version of a stored one.
#[derive(Debug, Clone, Copy, PartialEq, Eq, Structural)]
pub enum ExistenceDiff {
    New,
    Changed,
}

impl ExistenceDiff {
    /// The text stored in a row's `existence_diff` column.
    pub fn as_text(self) -> (text: String)
        ensures
            text@ == match self {
                ExistenceDiff::New => "new"@,
                ExistenceDiff::Changed => "changed"@,
            },
    {
        match self {
            ExistenceDiff::New => String::from_str("new"),
            ExistenceDiff::Changed => String::from_str("changed"),
        }
    }
}

/// The merge of one subject's lessons was refused.
#[derive(Debug, Clone, Copy, PartialEq, Eq, Structural)]
pub enum MergeError {
    /// Two incoming lessons share day, week parity and time.
    DuplicatePosition,
}

/// What the merge of one subject of one group reads besides the lessons.
#[derive(Debug, Clone, Copy)]
pub struct MergeContext {
    pub group_id: i32,
    pub subject_id: i32,
    /// The newest generation of the group's schedule.
    pub last_gen_id: u32,
    /// The current generation of the subjects.
    pub latest_subject_gen: i32,
    /// The current generation of the teachers.
    pub latest_teachers_gen: i32,
}

/// A lesson row to insert. `link_id` is `None` where a fresh link id is
/// to be allocated when the row is written.
#[derive(Debug)]
pub struct NewScheduleObj {
    pub last_known_orig_sched_obj_id: i32,
    pub group_id: i32,
    pub link_id: Option<i32>,
    pub subject_id: i32,
    pub subject_gen_id: i32,
    pub teacher_id: Option<i32>,
    pub teacher_gen_id: i32,
    pub second_teacher_id: Option<i32>,
    pub third_teacher_id: Option<i32>,
    pub fourth_teacher_id: Option<i32>,
    pub auditorium: Option<String>,
    pub modified_timestamp: i128,
    pub time: i32,
    pub week_day: WeekDay,
    pub week_parity: String,
    pub gen_start: u32,
    pub existence_diff: ExistenceDiff,
}

/// One write of a merge, in the order in which they are to be made.
#[derive(Debug)]
pub enum MergeStep {
    /// Record the generation (if it is not recorded yet).
    CreateGeneration { gen_id: u32 },
    /// End the life of a stored lesson at the given generation.
    CloseObject { schedule_obj_id: i32, gen_end: u32 },
    /// Insert a lesson row.
    InsertObject { row: NewScheduleObj },
    /// Bring the untracked fields of a stored lesson up to date.
    RefreshObject {
        schedule_obj_id: i32,
        modified_timestamp: i128,
        last_known_orig_sched_obj_id: i32,
        subject_gen_id: i32,
        teacher_gen_id: Option<i32>,
    },
}

/// The writes of a merge and the outcome for each incoming lesson.
#[derive(Debug)]
pub struct GroupMergePlan {
    pub steps: Vec<MergeStep>,
    pub results: Vec<MergeResult>,
}

/// The position of a lesson in the two-week grid.
pub open spec fn obj_pos(o: ScheduleObjModel) -> int {
    lesson_pos(o.week_day, o.week_parity@, o.time)
}

/// Two lessons occupy the same slot: day, week parity and time.
pub open spec fn same_slot(a: ScheduleObjModel, b: ScheduleObjModel) -> bool {
    &&& a.week_day == b.week_day
    &&& a.week_parity@ == b.week_parity@
    &&& a.time == b.time
}

/// No two lessons occupy the same slot.
pub open spec fn unique_slots(s: Seq<ScheduleObjModel>) -> bool {
    forall|i: int, j: int| 0 <= i < j < s.len() ==> !same_slot(#[trigger] s[i], #[trigger] s[j])
}

/// `j` is the first stored lesson at position `pos`.
pub open spec fn is_first_match(existing: Seq<ScheduleObjModel>, pos: int, j: int) -> bool {
    &&& 0 <= j < existing.len()
    &&& obj_pos(existing[j]) == pos
    &&& forall|k: int| 0 <= k < j ==> obj_pos(#[trigger] existing[k]) != pos
}

/// The index of the first stored lesson at position `pos`, if any.
pub open spec fn first_match(existing: Seq<ScheduleObjModel>, pos: int) -> Option<int> {
    if exists|j: int| is_first_match(existing, pos, j) {
        Some(choose|j: int| is_first_match(existing, pos, j))
    } else {
        None
    }
}

/// The teachers or the auditorium of a lesson differ from the stored ones.
pub open spec fn tracked_changed(input: ScheduleObjModel, stored: ScheduleObjModel) -> bool {
    ||| input.teacher_id != stored.teacher_id
    ||| input.second_teacher_id != stored.second_teacher_id
    ||| input.third_teacher_id != stored.third_teacher_id
    ||| input.fourth_teacher_id != stored.fourth_teacher_id
    ||| opt_text(input.auditorium) != opt_text(stored.auditorium)
}

/// A stored lesson's untracked fields are to be brought up to date.
pub open spec fn untracked_changed(
    input: ScheduleObjModel,
    stored: ScheduleObjModel,
    ctx: MergeContext,
) -> bool {
    ||| input.modified_timestamp != stored.modified_timestamp
    ||| input.last_known_orig_sched_obj_id != stored.last_known_orig_sched_obj_id
    ||| stored.subject_id != ctx.latest_subject_gen
    ||| (stored.teacher_id is Some && stored.teacher_id->0 != ctx.latest_teachers_gen)
}

/// The generation that every write of a merge belongs to.
pub open spec fn new_gen(ctx: MergeContext) -> u32 {
    (ctx.last_gen_id + 1) as u32
}

/// The row written for an incoming lesson.
pub open spec fn new_row(
    input: ScheduleObjModel,
    link_id: Option<i32>,
    ctx: MergeContext,
    diff: ExistenceDiff,
) -> NewScheduleObj {
    NewScheduleObj {
        last_known_orig_sched_obj_id: input.last_known_orig_sched_obj_id,
        group_id: ctx.group_id,
        link_id: link_id,
        subject_id: ctx.subject_id,
        subject_gen_id: ctx.latest_subject_gen,
        teacher_id: input.teacher_id,
        teacher_gen_id: ctx.latest_teachers_gen,
        second_teacher_id: input.second_teacher_id,
        third_teacher_id: input.third_teacher_id,
        fourth_teacher_id: input.fourth_teacher_id,
        auditorium: input.auditorium,
        modified_timestamp: input.modified_timestamp,
        time: input.time,
        week_day: input.week_day,
        week_parity: input.week_parity,
        gen_start: new_gen(ctx),
        existence_diff: diff,
    }
}

/// The outcome for one incoming lesson.
pub open spec fn input_result(input: ScheduleObjModel, existing: Seq<ScheduleObjModel>) -> MergeResult {
    match first_match(existing, obj_pos(input)) {
        None => MergeResult::Inserted,
        Some(j) => if tracked_changed(input, existing[j]) {
            MergeResult::Updated
        } else {
            MergeResult::NotModified
        },
    }
}

/// The writes made for one incoming lesson.
pub open spec fn input_steps(
    input: ScheduleObjModel,
    existing: Seq<ScheduleObjModel>,
    ctx: MergeContext,
) -> Seq<MergeStep> {
    let g = new_gen(ctx);
    match first_match(existing, obj_pos(input)) {
        None => seq![
            MergeStep::CreateGeneration { gen_id: g },
            MergeStep::InsertObject { row: new_row(input, None, ctx, ExistenceDiff::New) },
        ],
        Some(j) => {
            let stored = existing[j];
            if tracked_changed(input, stored) {
                seq![
                    MergeStep::CreateGeneration { gen_id: g },
                    MergeStep::CloseObject { schedule_obj_id: stored.schedule_obj_id, gen_end: g },
                    MergeStep::InsertObject {
                        row: new_row(input, Some(stored.time_link_id), ctx, ExistenceDiff::Changed),
                    },
                ]
            } else if untracked_changed(input, stored, ctx) {
                seq![
                    MergeStep::RefreshObject {
                        schedule_obj_id: stored.schedule_obj_id,
                        modified_timestamp: input.modified_timestamp,
                        last_known_orig_sched_obj_id: input.last_known_orig_sched_obj_id,
                        subject_gen_id: ctx.latest_subject_gen,
                        teacher_gen_id: match stored.teacher_id {
                            Some(_) => Some(ctx.latest_teachers_gen),
                            None => None,
                        },
                    },
                ]
            } else {
                seq![]
            }
        },
    }
}

/// The writes made for a sequence of incoming lessons, in order.
pub open spec fn inputs_steps(
    inputs: Seq<ScheduleObjModel>,
    existing: Seq<ScheduleObjModel>,
    ctx: MergeContext,
) -> Seq<MergeStep>
    decreases inputs.len(),
{
    if inputs.len() == 0 {
        seq![]
    } else {
        inputs_steps(inputs.drop_last(), existing, ctx) + input_steps(inputs.last(), existing, ctx)
    }
}

/// Some incoming lesson is at position `pos`.
pub open spec fn has_input_at(inputs: Seq<ScheduleObjModel>, pos: int) -> bool {
    exists|i: int| 0 <= i < inputs.len() && obj_pos(#[trigger] inputs[i]) == pos
}

/// The writes that end the stored lessons that no incoming lesson replaces.
pub open spec fn closing_steps(
    existing: Seq<ScheduleObjModel>,
    inputs: Seq<ScheduleObjModel>,
    ctx: MergeContext,
) -> Seq<MergeStep>
    decreases existing.len(),
{
    if existing.len() == 0 {
        seq![]
    } else {
        let stored = existing.last();
        closing_steps(existing.drop_last(), inputs, ctx) + if has_input_at(inputs, obj_pos(stored)) {
            seq![]
        } else {
            seq![
                MergeStep::CreateGeneration { gen_id: new_gen(ctx) },
                MergeStep::CloseObject { schedule_obj_id: stored.schedule_obj_id, gen_end: new_gen(ctx) },
            ]
        }
    }
}

/// The merge records a new generation: some incoming lesson is inserted or
/// updated, or some stored lesson is ended.
pub open spec fn opens_generation(inputs: Seq<ScheduleObjModel>, existing: Seq<ScheduleObjModel>) -> bool {
    ||| exists|i: int|
        0 <= i < inputs.len() && input_result(#[trigger] inputs[i], existing) != MergeResult::NotModified
    ||| exists|k: int| 0 <= k < existing.len() && !has_input_at(inputs, obj_pos(#[trigger] existing[k]))
}

/// All writes of the merge of one subject.
pub open spec fn plan_steps(
    inputs: Seq<ScheduleObjModel>,
    existing: Seq<ScheduleObjModel>,
    ctx: MergeContext,
) -> Seq<MergeStep> {
    inputs_steps(inputs, existing, ctx) + closing_steps(existing, inputs, ctx)
}

/// The outcomes of the merge of one subject, one per incoming lesson.
pub open spec fn plan_results(inputs: Seq<ScheduleObjModel>, existing: Seq<ScheduleObjModel>) -> Seq<
    MergeResult,
> {
    inputs.map_values(|i: ScheduleObjModel| input_result(i, existing))
}

/// A stored lesson is the first at its own position when no two stored
/// lessons share a position.
proof fn lemma_first_match_distinct(existing: Seq<ScheduleObjModel>, k: int)
    requires
        0 <= k < existing.len(),
        forall|a: int, b: int|
            0 <= a < b < existing.len() ==> obj_pos(#[trigger] existing[a]) != obj_pos(
                #[trigger] existing[b],
            ),
    ensures
        first_match(existing, obj_pos(existing[k])) == Some(k),
{
    let pos = obj_pos(existing[k]);
    assert forall|c: int| 0 <= c < k implies obj_pos(#[trigger] existing[c]) != pos by {
        assert(obj_pos(existing[c]) != obj_pos(existing[k]));
    }
    assert(is_first_match(existing, pos, k));
    let c = choose|c: int| is_first_match(existing, pos, c);
    if c < k {
        assert(obj_pos(existing[c]) != obj_pos(existing[k]));
    } else if c > k {
        assert(obj_pos(existing[k]) != obj_pos(existing[c]));
    }
}

/// When each incoming lesson has a stored lesson at its position with the
/// same teachers and auditorium, the incoming lessons write nothing but
/// refreshes of untracked fields.
proof fn lemma_inputs_steps_refresh_only(
    inputs: Seq<ScheduleObjModel>,
    existing: Seq<ScheduleObjModel>,
    ctx: MergeContext,
)
    requires
        forall|i: int|
            0 <= i < inputs.len() ==> (#[trigger] first_match(existing, obj_pos(inputs[i]))) is Some
                && !tracked_changed(inputs[i], existing[first_match(existing, obj_pos(inputs[i]))->0]),
    ensures
        forall|k: int|
            0 <= k < inputs_steps(inputs, existing, ctx).len() ==> (#[trigger] inputs_steps(
                inputs,
                existing,
                ctx,
            )[k]) is RefreshObject,
    decreases inputs.len(),
{
    if inputs.len() > 0 {
        let rest = inputs.drop_last();
        assert forall|i: int| 0 <= i < rest.len() implies (#[trigger] first_match(
            existing,
            obj_pos(rest[i]),
        )) is Some && !tracked_changed(rest[i], existing[first_match(existing, obj_pos(rest[i]))->0]) by {
            assert(rest[i] == inputs[i]);
        }
        lemma_inputs_steps_refresh_only(rest, existing, ctx);
        let last = inputs.last();
        assert(first_match(existing, obj_pos(inputs[inputs.len() - 1])) is Some);
        let head = inputs_steps(rest, existing, ctx);
        let tail = input_steps(last, existing, ctx);
        assert(forall|k: int| 0 <= k < tail.len() ==> (#[trigger] tail[k]) is RefreshObject);
        assert forall|k: int|
            0 <= k < inputs_steps(inputs, existing, ctx).len() implies (#[trigger] inputs_steps(
            inputs,
            existing,
            ctx,
        )[k]) is RefreshObject by {
            if k < head.len() {
                assert(inputs_steps(inputs, existing, ctx)[k] == head[k]);
            } else {
                assert(inputs_steps(inputs, existing, ctx)[k] == tail[k - head.len()]);
            }
        }
    }
}

/// When each stored lesson has an incoming lesson at its position, nothing
/// is closed.
proof fn lemma_closing_steps_empty(
    existing: Seq<ScheduleObjModel>,
    inputs: Seq<ScheduleObjModel>,
    ctx: MergeContext,
)
    requires
        forall|k: int| 0 <= k < existing.len() ==> has_input_at(inputs, obj_pos(#[trigger] existing[k])),
    ensures
        closing_steps(existing, inputs, ctx) == Seq::<MergeStep>::empty(),
    decreases existing.len(),
{
    if existing.len() > 0 {
        let rest = existing.drop_last();
        assert forall|k: int| 0 <= k < rest.len() implies has_input_at(
            inputs,
            obj_pos(#[trigger] rest[k]),
        ) by {
            assert(rest[k] == existing[k]);
        }
        lemma_closing_steps_empty(rest, inputs, ctx);
        assert(has_input_at(inputs, obj_pos(existing[existing.len() - 1])));
        assert(closing_steps(existing, inputs, ctx) =~= Seq::<MergeStep>::empty());
    }
}

/// A merge in which every incoming lesson has a stored lesson at its
/// position with the same teachers and auditorium, and every stored lesson
/// has an incoming one at its position, reports every lesson unmodified and
/// writes nothing but refreshes of untracked fields: no generation, no new
/// row, no closed lesson.
pub proof fn merge_of_unchanged_lessons_writes_no_lesson(
    inputs: Seq<ScheduleObjModel>,
    existing: Seq<ScheduleObjModel>,
    ctx: MergeContext,
)
    requires
        forall|i: int|
            0 <= i < inputs.len() ==> (#[trigger] first_match(existing, obj_pos(inputs[i]))) is Some
                && !tracked_changed(inputs[i], existing[first_match(existing, obj_pos(inputs[i]))->0]),
        forall|k: int| 0 <= k < existing.len() ==> has_input_at(inputs, obj_pos(#[trigger] existing[k])),
    ensures
        forall|i: int|
            0 <= i < inputs.len() ==> #[trigger] plan_results(inputs, existing)[i]
                == MergeResult::NotModified,
        forall|k: int|
            0 <= k < plan_steps(inputs, existing, ctx).len() ==> (#[trigger] plan_steps(
                inputs,
                existing,
                ctx,
            )[k]) is RefreshObject,
{
    lemma_inputs_steps_refresh_only(inputs, existing, ctx);
    lemma_closing_steps_empty(existing, inputs, ctx);
    assert(plan_steps(inputs, existing, ctx) =~= inputs_steps(inputs, existing, ctx));
    assert forall|i: int| 0 <= i < inputs.len() implies #[trigger] plan_results(inputs, existing)[i]
        == MergeResult::NotModified by {
        assert(first_match(existing, obj_pos(inputs[i])) is Some);
    }
}

/// Merging a stored schedule whose lessons have distinct positions into
/// itself reports every lesson unmodified and writes nothing but refreshes
/// of untracked fields.
pub proof fn merge_of_stored_schedule_into_itself_writes_no_lesson(
    stored: Seq<ScheduleObjModel>,
    ctx: MergeContext,
)
    requires
        forall|a: int, b: int|
            0 <= a < b < stored.len() ==> obj_pos(#[trigger] stored[a]) != obj_pos(#[trigger] stored[b]),
    ensures
        forall|i: int|
            0 <= i < stored.len() ==> #[trigger] plan_results(stored, stored)[i]
                == MergeResult::NotModified,
        forall|k: int|
            0 <= k < plan_steps(stored, stored, ctx).len() ==> (#[trigger] plan_steps(
                stored,
                stored,
                ctx,
            )[k]) is RefreshObject,
{
    assert forall|i: int| 0 <= i < stored.len() implies (#[trigger] first_match(
        stored,
        obj_pos(stored[i]),
    )) is Some && !tracked_changed(stored[i], stored[first_match(stored, obj_pos(stored[i]))->0]) by {
        lemma_first_match_distinct(stored, i);
    }
    assert forall|k: int| 0 <= k < stored.len() implies has_input_at(
        stored,
        obj_pos(#[trigger] stored[k]),
    ) by {
        assert(obj_pos(stored[k]) == obj_pos(stored[k]));
    }
    merge_of_unchanged_lessons_writes_no_lesson(stored, stored, ctx);
}

/// A write belongs to generation `g`, where it names one.
pub open spec fn step_in_generation(step: MergeStep, g: u32) -> bool {
    match step {
        MergeStep::CreateGeneration { gen_id } => gen_id == g,
        MergeStep::CloseObject { gen_end, .. } => gen_end == g,
        MergeStep::InsertObject { row } => row.gen_start == g,
        MergeStep::RefreshObject { .. } => true,
    }
}

proof fn lemma_inputs_steps_generation(
    inputs: Seq<ScheduleObjModel>,
    existing: Seq<ScheduleObjModel>,
    ctx: MergeContext,
)
    ensures
        forall|k: int|
            0 <= k < inputs_steps(inputs, existing, ctx).len() ==> step_in_generation(
                #[trigger] inputs_steps(inputs, existing, ctx)[k],
                new_gen(ctx),
            ),
    decreases inputs.len(),
{
    if inputs.len() > 0 {
        let rest = inputs.drop_last();
        lemma_inputs_steps_generation(rest, existing, ctx);
        let head = inputs_steps(rest, existing, ctx);
        let tail = input_steps(inputs.last(), existing, ctx);
        assert(forall|k: int| 0 <= k < tail.len() ==> step_in_generation(#[trigger] tail[k], new_gen(ctx)));
        assert forall|k: int| 0 <= k < inputs_steps(inputs, existing, ctx).len() implies step_in_generation(
            #[trigger] inputs_steps(inputs, existing, ctx)[k],
            new_gen(ctx),
        ) by {
            if k < head.len() {
                assert(inputs_steps(inputs, existing, ctx)[k] == head[k]);
            } else {
                assert(inputs_steps(inputs, existing, ctx)[k] == tail[k - head.len()]);
            }
        }
    }
}

proof fn lemma_closing_steps_generation(
    existing: Seq<ScheduleObjModel>,
    inputs: Seq<ScheduleObjModel>,
    ctx: MergeContext,
)
    ensures
        forall|k: int|
            0 <= k < closing_steps(existing, inputs, ctx).len() ==> step_in_generation(
                #[trigger] closing_steps(existing, inputs, ctx)[k],
                new_gen(ctx),
            ),
    decreases existing.len(),
{
    if existing.len() > 0 {
        let rest = existing.drop_last();
        lemma_closing_steps_generation(rest, inputs, ctx);
        let head = closing_steps(rest, inputs, ctx);
        let all = closing_steps(existing, inputs, ctx);
        assert forall|k: int| 0 <= k < all.len() implies step_in_generation(
            #[trigger] all[k],
            new_gen(ctx),
        ) by {
            if k < head.len() {
                assert(all[k] == head[k]);
            }
        }
    }
}

/// Every generation that a merge records, every generation at which it ends
/// a lesson and every generation at which a row it writes starts is the one
/// after the group's newest.
pub proof fn merge_writes_one_generation(
    inputs: Seq<ScheduleObjModel>,
    existing: Seq<ScheduleObjModel>,
    ctx: MergeContext,
)
    ensures
        forall|k: int|
            0 <= k < plan_steps(inputs, existing, ctx).len() ==> step_in_generation(
                #[trigger] plan_steps(inputs, existing, ctx)[k],
                new_gen(ctx),
            ),
{
    lemma_inputs_steps_generation(inputs, existing, ctx);
    lemma_closing_steps_generation(existing, inputs, ctx);
    let head = inputs_steps(inputs, existing, ctx);
    let tail = closing_steps(existing, inputs, ctx);
    assert forall|k: int| 0 <= k < plan_steps(inputs, existing, ctx).len() implies step_in_generation(
        #[trigger] plan_steps(inputs, existing, ctx)[k],
        new_gen(ctx),
    ) by {
        if k < head.len() {
            assert(plan_steps(inputs, existing, ctx)[k] == head[k]);
        } else {
            assert(plan_steps(inputs, existing, ctx)[k] == tail[k - head.len()]);
        }
    }
}

/// With nothing stored, every incoming lesson is reported inserted.
pub proof fn merge_into_empty_schedule_inserts_all(inputs: Seq<ScheduleObjModel>)
    ensures
        forall|i: int|
            0 <= i < inputs.len() ==> #[trigger] plan_results(inputs, Seq::empty())[i]
                == MergeResult::Inserted,
{
    assert forall|i: int| 0 <= i < inputs.len() implies #[trigger] plan_results(
        inputs,
        Seq::empty(),
    )[i] == MergeResult::Inserted by {
        let pos = obj_pos(inputs[i]);
        assert(!exists|j: int| is_first_match(Seq::<ScheduleObjModel>::empty(), pos, j));
    }
}

/// A merge is refused exactly when two incoming lessons agree on week day,
/// week parity and time; incoming lessons on pairwise different days are
/// never refused.
pub proof fn duplicate_slot_means_same_day_parity_and_time(inputs: Seq<ScheduleObjModel>)
    ensures
        !unique_slots(inputs) <==> exists|a: int, b: int|
            0 <= a < b < inputs.len() && (#[trigger] inputs[a]).week_day == (#[trigger] inputs[b]).week_day
                && inputs[a].week_parity@ == inputs[b].week_parity@ && inputs[a].time == inputs[b].time,
        (forall|a: int, b: int|
            0 <= a < b < inputs.len() ==> (#[trigger] inputs[a]).week_day != (#[trigger] inputs[b]).week_day)
            ==> unique_slots(inputs),
{
}

/// An incoming lesson that meets a stored one at its position is reported
/// unmodified exactly when all four teachers and the auditorium are the
/// stored ones, and updated otherwise; an updated lesson ends the stored one
/// in the merge's generation and inserts a row that carries the incoming
/// teachers and auditorium under the stored lesson's link id.
pub proof fn merge_updates_exactly_on_changed_teachers_or_auditorium(
    inputs: Seq<ScheduleObjModel>,
    existing: Seq<ScheduleObjModel>,
    ctx: MergeContext,
    i: int,
)
    requires
        0 <= i < inputs.len(),
        first_match(existing, obj_pos(inputs[i])) is Some,
    ensures
        ({
            let x = inputs[i];
            let e = existing[first_match(existing, obj_pos(inputs[i]))->0];
            let same = x.teacher_id == e.teacher_id && x.second_teacher_id == e.second_teacher_id
                && x.third_teacher_id == e.third_teacher_id && x.fourth_teacher_id == e.fourth_teacher_id
                && opt_text(x.auditorium) == opt_text(e.auditorium);
            &&& obj_pos(e) == obj_pos(x)
            &&& plan_results(inputs, existing)[i] == (if same {
                MergeResult::NotModified
            } else {
                MergeResult::Updated
            })
            &&& !same ==> exists|k: int|
                0 <= k < plan_steps(inputs, existing, ctx).len() && (#[trigger] plan_steps(
                    inputs,
                    existing,
                    ctx,
                )[k]) == MergeStep::CloseObject {
                    schedule_obj_id: e.schedule_obj_id,
                    gen_end: (ctx.last_gen_id + 1) as u32,
                }
            &&& !same ==> exists|k: int|
                0 <= k < plan_steps(inputs, existing, ctx).len() && (#[trigger] plan_steps(
                    inputs,
                    existing,
                    ctx,
                )[k] matches MergeStep::InsertObject { row } && row.teacher_id == x.teacher_id
                    && row.second_teacher_id == x.second_teacher_id && row.third_teacher_id
                    == x.third_teacher_id && row.fourth_teacher_id == x.fourth_teacher_id && opt_text(
                    row.auditorium,
                ) == opt_text(x.auditorium) && row.link_id == Some(e.time_link_id) && row.existence_diff
                    == ExistenceDiff::Changed && row.week_day == x.week_day && row.time == x.time)
        }),
{
    let x = inputs[i];
    let j = first_match(existing, obj_pos(x))->0;
    assert(is_first_match(existing, obj_pos(x), j));
    let xs = input_steps(x, existing, ctx);
    if tracked_changed(x, existing[j]) {
        lemma_input_steps_in_plan(inputs, existing, ctx, i, 1);
        lemma_input_steps_in_plan(inputs, existing, ctx, i, 2);
    }
}

/// An incoming lesson with no stored lesson at its position is reported
/// inserted, and a row carrying its teachers and auditorium is inserted for
/// it with a fresh link id.
pub proof fn merge_inserts_lessons_with_no_stored_twin(
    inputs: Seq<ScheduleObjModel>,
    existing: Seq<ScheduleObjModel>,
    ctx: MergeContext,
    i: int,
)
    requires
        0 <= i < inputs.len(),
        forall|k: int| 0 <= k < existing.len() ==> obj_pos(#[trigger] existing[k]) != obj_pos(inputs[i]),
    ensures
        plan_results(inputs, existing)[i] == MergeResult::Inserted,
        exists|k: int|
            0 <= k < plan_steps(inputs, existing, ctx).len() && (#[trigger] plan_steps(
                inputs,
                existing,
                ctx,
            )[k] matches MergeStep::InsertObject { row } && row.teacher_id == inputs[i].teacher_id
                && row.second_teacher_id == inputs[i].second_teacher_id && row.third_teacher_id
                == inputs[i].third_teacher_id && row.fourth_teacher_id == inputs[i].fourth_teacher_id
                && opt_text(row.auditorium) == opt_text(inputs[i].auditorium) && row.link_id is None
                && row.existence_diff == ExistenceDiff::New && row.week_day == inputs[i].week_day
                && row.time == inputs[i].time),
{
    let x = inputs[i];
    assert(!exists|j: int| is_first_match(existing, obj_pos(x), j));
    lemma_input_steps_in_plan(inputs, existing, ctx, i, 1);
}

/// An incoming lesson whose stored twin has the same teachers and
/// auditorium writes nothing but a refresh, and that exactly when the
/// stored lesson's modification time or original id differ from the
/// incoming ones, its subject id differs from the current subjects'
/// generation, or its teacher is not of the current teachers' generation;
/// the refresh takes the incoming values and the current generations.
pub proof fn unchanged_lesson_refreshes_exactly_stale_fields(
    x: ScheduleObjModel,
    existing: Seq<ScheduleObjModel>,
    ctx: MergeContext,
)
    requires
        first_match(existing, obj_pos(x)) is Some,
        ({
            let e = existing[first_match(existing, obj_pos(x))->0];
            x.teacher_id == e.teacher_id && x.second_teacher_id == e.second_teacher_id
                && x.third_teacher_id == e.third_teacher_id && x.fourth_teacher_id == e.fourth_teacher_id
                && opt_text(x.auditorium) == opt_text(e.auditorium)
        }),
    ensures
        ({
            let e = existing[first_match(existing, obj_pos(x))->0];
            let stale = x.modified_timestamp != e.modified_timestamp || x.last_known_orig_sched_obj_id
                != e.last_known_orig_sched_obj_id || e.subject_id != ctx.latest_subject_gen
                || (e.teacher_id is Some && e.teacher_id->0 != ctx.latest_teachers_gen);
            input_steps(x, existing, ctx) == if stale {
                seq![
                    MergeStep::RefreshObject {
                        schedule_obj_id: e.schedule_obj_id,
                        modified_timestamp: x.modified_timestamp,
                        last_known_orig_sched_obj_id: x.last_known_orig_sched_obj_id,
                        subject_gen_id: ctx.latest_subject_gen,
                        teacher_gen_id: if e.teacher_id is Some {
                            Some(ctx.latest_teachers_gen)
                        } else {
                            None
                        },
                    },
                ]
            } else {
                Seq::<MergeStep>::empty()
            }
        }),
{
    let e = existing[first_match(existing, obj_pos(x))->0];
    assert(!tracked_changed(x, e));
}

proof fn lemma_closes_only_unoccupied(
    existing: Seq<ScheduleObjModel>,
    inputs: Seq<ScheduleObjModel>,
    ctx: MergeContext,
    k: int,
)
    requires
        0 <= k < closing_steps(existing, inputs, ctx).len(),
        closing_steps(existing, inputs, ctx)[k] is CloseObject,
    ensures
        exists|m: int|
            0 <= m < existing.len() && (#[trigger] existing[m]).schedule_obj_id
                == closing_steps(existing, inputs, ctx)[k]->CloseObject_schedule_obj_id
                && !has_input_at(inputs, obj_pos(existing[m])),
    decreases existing.len(),
{
    let rest = existing.drop_last();
    let head = closing_steps(rest, inputs, ctx);
    let all = closing_steps(existing, inputs, ctx);
    if k < head.len() {
        assert(all[k] == head[k]);
        lemma_closes_only_unoccupied(rest, inputs, ctx, k);
        let m = choose|m: int|
            0 <= m < rest.len() && (#[trigger] rest[m]).schedule_obj_id == head[k]->CloseObject_schedule_obj_id
                && !has_input_at(inputs, obj_pos(rest[m]));
        assert(existing[m] == rest[m]);
    } else {
        assert(existing[existing.len() - 1] == existing.last());
    }
}

/// With stored lessons of distinct ids, a stored lesson is ended by the
/// closing writes exactly when no incoming lesson is at its position.
pub proof fn merge_ends_exactly_the_unoccupied_stored_lessons(
    inputs: Seq<ScheduleObjModel>,
    existing: Seq<ScheduleObjModel>,
    ctx: MergeContext,
    k: int,
)
    requires
        0 <= k < existing.len(),
        forall|a: int, b: int|
            0 <= a < b < existing.len() ==> (#[trigger] existing[a]).schedule_obj_id != (
            #[trigger] existing[b]).schedule_obj_id,
    ensures
        closing_steps(existing, inputs, ctx).contains(
            MergeStep::CloseObject {
                schedule_obj_id: existing[k].schedule_obj_id,
                gen_end: (ctx.last_gen_id + 1) as u32,
            },
        ) <==> !exists|i: int| 0 <= i < inputs.len() && obj_pos(#[trigger] inputs[i]) == obj_pos(existing[k]),
{
    let c = MergeStep::CloseObject {
        schedule_obj_id: existing[k].schedule_obj_id,
        gen_end: (ctx.last_gen_id + 1) as u32,
    };
    let cs = closing_steps(existing, inputs, ctx);
    if !has_input_at(inputs, obj_pos(existing[k])) {
        lemma_closing_steps_close_unmatched(existing, inputs, ctx, k);
    }
    if cs.contains(c) {
        let idx = choose|idx: int| 0 <= idx < cs.len() && cs[idx] == c;
        lemma_closes_only_unoccupied(existing, inputs, ctx, idx);
        let m = choose|m: int|
            0 <= m < existing.len() && (#[trigger] existing[m]).schedule_obj_id
                == cs[idx]->CloseObject_schedule_obj_id && !has_input_at(inputs, obj_pos(existing[m]));
        if m < k {
            assert(existing[m].schedule_obj_id != existing[k].schedule_obj_id);
        } else if m > k {
            assert(existing[k].schedule_obj_id != existing[m].schedule_obj_id);
        }
    }
}

/// The lessons grouped under a subject are exactly the given lessons of that
/// subject.
pub proof fn subject_group_holds_exactly_its_lessons(objs: Seq<ScheduleObjModel>, subject_id: i32)
    ensures
        forall|o: ScheduleObjModel|
            #[trigger] lessons_of_subject(objs, subject_id).contains(o) <==> (objs.contains(o)
                && o.subject_id == subject_id),
        lessons_of_subject(objs, subject_id).len() <= objs.len(),
{
    let f = lessons_of_subject(objs, subject_id);
    objs.lemma_filter_len(of_subject(subject_id));
    assert forall|o: ScheduleObjModel| #[trigger] f.contains(o) <==> (objs.contains(o)
        && o.subject_id == subject_id) by {
        if f.contains(o) {
            objs.lemma_filter_contains_rev(of_subject(subject_id), o);
            let j = choose|j: int| 0 <= j < f.len() && f[j] == o;
            objs.lemma_filter_pred(of_subject(subject_id), j);
        }
        if objs.contains(o) && o.subject_id == subject_id {
            let i = choose|i: int| 0 <= i < objs.len() && objs[i] == o;
            objs.lemma_filter_contains(of_subject(subject_id), i);
        }
    }
}

/// Every write that names a step of `input_steps` for the `i`-th incoming
/// lesson is among the writes of the merge.
proof fn lemma_input_steps_in_plan(
    inputs: Seq<ScheduleObjModel>,
    existing: Seq<ScheduleObjModel>,
    ctx: MergeContext,
    i: int,
    o: int,
)
    requires
        0 <= i < inputs.len(),
        0 <= o < input_steps(inputs[i], existing, ctx).len(),
    ensures
        exists|k: int|
            0 <= k < plan_steps(inputs, existing, ctx).len() && #[trigger] plan_steps(
                inputs,
                existing,
                ctx,
            )[k] == input_steps(inputs[i], existing, ctx)[o],
{
    lemma_input_steps_in_inputs_steps(inputs, existing, ctx, i, o);
    let k = choose|k: int|
        0 <= k < inputs_steps(inputs, existing, ctx).len() && #[trigger] inputs_steps(
            inputs,
            existing,
            ctx,
        )[k] == input_steps(inputs[i], existing, ctx)[o];
    assert(plan_steps(inputs, existing, ctx)[k] == inputs_steps(inputs, existing, ctx)[k]);
}

proof fn lemma_input_steps_in_inputs_steps(
    inputs: Seq<ScheduleObjModel>,
    existing: Seq<ScheduleObjModel>,
    ctx: MergeContext,
    i: int,
    o: int,
)
    requires
        0 <= i < inputs.len(),
        0 <= o < input_steps(inputs[i], existing, ctx).len(),
    ensures
        exists|k: int|
            0 <= k < inputs_steps(inputs, existing, ctx).len() && #[trigger] inputs_steps(
                inputs,
                existing,
                ctx,
            )[k] == input_steps(inputs[i], existing, ctx)[o],
    decreases inputs.len(),
{
    let rest = inputs.drop_last();
    let head = inputs_steps(rest, existing, ctx);
    let all = inputs_steps(inputs, existing, ctx);
    if i == inputs.len() - 1 {
        assert(all[head.len() + o] == input_steps(inputs[i], existing, ctx)[o]);
    } else {
        assert(rest[i] == inputs[i]);
        lemma_input_steps_in_inputs_steps(rest, existing, ctx, i, o);
        let k = choose|k: int|
            0 <= k < head.len() && #[trigger] head[k] == input_steps(rest[i], existing, ctx)[o];
        assert(all[k] == head[k]);
    }
}

/// A row the merge inserts carries the group, the subject and the current
/// generations of the subjects and the teachers.
pub open spec fn row_in_context(step: MergeStep, ctx: MergeContext) -> bool {
    step matches MergeStep::InsertObject { row } ==> {
        &&& row.group_id == ctx.group_id
        &&& row.subject_id == ctx.subject_id
        &&& row.subject_gen_id == ctx.latest_subject_gen
        &&& row.teacher_gen_id == ctx.latest_teachers_gen
    }
}

proof fn lemma_inputs_steps_in_context(
    inputs: Seq<ScheduleObjModel>,
    existing: Seq<ScheduleObjModel>,
    ctx: MergeContext,
)
    ensures
        forall|k: int|
            0 <= k < inputs_steps(inputs, existing, ctx).len() ==> row_in_context(
                #[trigger] inputs_steps(inputs, existing, ctx)[k],
                ctx,
            ),
    decreases inputs.len(),
{
    if inputs.len() > 0 {
        let rest = inputs.drop_last();
        lemma_inputs_steps_in_context(rest, existing, ctx);
        let head = inputs_steps(rest, existing, ctx);
        let tail = input_steps(inputs.last(), existing, ctx);
        assert(forall|k: int| 0 <= k < tail.len() ==> row_in_context(#[trigger] tail[k], ctx));
        assert forall|k: int| 0 <= k < inputs_steps(inputs, existing, ctx).len() implies row_in_context(
            #[trigger] inputs_steps(inputs, existing, ctx)[k],
            ctx,
        ) by {
            if k < head.len() {
                assert(inputs_steps(inputs, existing, ctx)[k] == head[k]);
            } else {
                assert(inputs_steps(inputs, existing, ctx)[k] == tail[k - head.len()]);
            }
        }
    }
}

proof fn lemma_closing_steps_insert_nothing(
    existing: Seq<ScheduleObjModel>,
    inputs: Seq<ScheduleObjModel>,
    ctx: MergeContext,
)
    ensures
        forall|k: int|
            0 <= k < closing_steps(existing, inputs, ctx).len() ==> !((#[trigger] closing_steps(
                existing,
                inputs,
                ctx,
            )[k]) is InsertObject),
    decreases existing.len(),
{
    if existing.len() > 0 {
        let rest = existing.drop_last();
        lemma_closing_steps_insert_nothing(rest, inputs, ctx);
        let head = closing_steps(rest, inputs, ctx);
        let all = closing_steps(existing, inputs, ctx);
        assert forall|k: int| 0 <= k < all.len() implies !((#[trigger] all[k]) is InsertObject) by {
            if k < head.len() {
                assert(all[k] == head[k]);
            }
        }
    }
}

/// Every row that a merge inserts belongs to the merged group and subject
/// and carries the current generations of the subjects and of the teachers.
pub proof fn merge_rows_carry_current_generations(
    inputs: Seq<ScheduleObjModel>,
    existing: Seq<ScheduleObjModel>,
    ctx: MergeContext,
)
    ensures
        forall|k: int|
            0 <= k < plan_steps(inputs, existing, ctx).len() ==> (#[trigger] plan_steps(
                inputs,
                existing,
                ctx,
            )[k] matches MergeStep::InsertObject { row } ==> row.group_id == ctx.group_id
                && row.subject_id == ctx.subject_id && row.subject_gen_id == ctx.latest_subject_gen
                && row.teacher_gen_id == ctx.latest_teachers_gen),
{
    lemma_inputs_steps_in_context(inputs, existing, ctx);
    lemma_closing_steps_insert_nothing(existing, inputs, ctx);
    let head = inputs_steps(inputs, existing, ctx);
    let tail = closing_steps(existing, inputs, ctx);
    assert forall|k: int| 0 <= k < plan_steps(inputs, existing, ctx).len() implies (#[trigger] plan_steps(
        inputs,
        existing,
        ctx,
    )[k] matches MergeStep::InsertObject { row } ==> row.group_id == ctx.group_id
        && row.subject_id == ctx.subject_id && row.subject_gen_id == ctx.latest_subject_gen
        && row.teacher_gen_id == ctx.latest_teachers_gen) by {
        if k < head.len() {
            assert(plan_steps(inputs, existing, ctx)[k] == head[k]);
            assert(row_in_context(head[k], ctx));
        } else {
            assert(plan_steps(inputs, existing, ctx)[k] == tail[k - head.len()]);
        }
    }
}

/// A merge is reported as modifying the schedule exactly when some lesson
/// was inserted or updated; in particular whenever a lesson was updated.
pub proof fn modified_means_inserted_or_updated(s: Seq<MergeResult>)
    ensures
        any_modified(s) <==> exists|i: int|
            0 <= i < s.len() && (#[trigger] s[i] == MergeResult::Inserted || s[i] == MergeResult::Updated),
        count_of(s, MergeResult::Updated) > 0 ==> any_modified(s),
        count_of(s, MergeResult::Inserted) > 0 ==> any_modified(s),
        !any_modified(s) ==> count_of(s, MergeResult::Inserted) == 0 && count_of(s, MergeResult::Updated)
            == 0,
    decreases s.len(),
{
    if s.len() > 0 {
        let rest = s.drop_last();
        modified_means_inserted_or_updated(rest);
        if any_modified(rest) {
            let i = choose|i: int| 0 <= i < rest.len() && rest[i] != MergeResult::NotModified;
            assert(s[i] == rest[i]);
        }
        if any_modified(s) && s.last() == MergeResult::NotModified {
            let i = choose|i: int| 0 <= i < s.len() && s[i] != MergeResult::NotModified;
            assert(rest[i] == s[i]);
        }
        if s.last() != MergeResult::NotModified {
            assert(s[s.len() - 1] != MergeResult::NotModified);
        }
    }
}

proof fn lemma_closing_steps_close_unmatched(
    existing: Seq<ScheduleObjModel>,
    inputs: Seq<ScheduleObjModel>,
    ctx: MergeContext,
    k: int,
)
    requires
        0 <= k < existing.len(),
        !has_input_at(inputs, obj_pos(existing[k])),
    ensures
        closing_steps(existing, inputs, ctx).contains(
            MergeStep::CloseObject { schedule_obj_id: existing[k].schedule_obj_id, gen_end: new_gen(ctx) },
        ),
    decreases existing.len(),
{
    let close = MergeStep::CloseObject {
        schedule_obj_id: existing[k].schedule_obj_id,
        gen_end: new_gen(ctx),
    };
    let rest = existing.drop_last();
    let head = closing_steps(rest, inputs, ctx);
    let all = closing_steps(existing, inputs, ctx);
    if k == existing.len() - 1 {
        assert(all[head.len() as int + 1] == close);
    } else {
        assert(rest[k] == existing[k]);
        lemma_closing_steps_close_unmatched(rest, inputs, ctx, k);
        let idx = choose|idx: int| 0 <= idx < head.len() && head[idx] == close;
        assert(all[idx] == close);
    }
}

/// Every stored lesson whose position no incoming lesson occupies is ended
/// at the merge's generation.
pub proof fn merge_closes_unmatched_stored_lessons(
    inputs: Seq<ScheduleObjModel>,
    existing: Seq<ScheduleObjModel>,
    ctx: MergeContext,
    k: int,
)
    requires
        0 <= k < existing.len(),
        !has_input_at(inputs, obj_pos(existing[k])),
    ensures
        plan_steps(inputs, existing, ctx).contains(
            MergeStep::CloseObject { schedule_obj_id: existing[k].schedule_obj_id, gen_end: new_gen(ctx) },
        ),
{
    let close = MergeStep::CloseObject {
        schedule_obj_id: existing[k].schedule_obj_id,
        gen_end: new_gen(ctx),
    };
    lemma_closing_steps_close_unmatched(existing, inputs, ctx, k);
    let head = inputs_steps(inputs, existing, ctx);
    let tail = closing_steps(existing, inputs, ctx);
    let idx = choose|idx: int| 0 <= idx < tail.len() && tail[idx] == close;
    assert(plan_steps(inputs, existing, ctx)[head.len() + idx] == close);
}

/// Whether two optional texts are equal.
fn opt_text_eq(a: &Option<String>, b: &Option<String>) -> (eq: bool)
    ensures
        eq == (opt_text(*a) == opt_text(*b)),
{
    match (a, b) {
        (Some(x), Some(y)) => *x == *y,
        (None, None) => true,
        _ => false,
    }
}

/// Whether two optional ids are equal.
fn opt_id_eq(a: Option<i32>, b: Option<i32>) -> (eq: bool)
    ensures
        eq == (a == b),
{
    match (a, b) {
        (Some(x), Some(y)) => x == y,
        (None, None) => true,
        _ => false,
    }
}

/// Refuses a set of incoming lessons in which two share a slot.
pub fn check_unique_positions(inputs: &Vec<ScheduleObjModel>) -> (r: Result<(), MergeError>)
    ensures
        r is Ok <==> unique_slots(inputs@),
        r is Err ==> r == Err::<(), MergeError>(MergeError::DuplicatePosition),
        r is Err ==> exists|a: int, b: int|
            0 <= a < b < inputs@.len() && (#[trigger] inputs@[a]).week_day == (#[trigger] inputs@[b]).week_day
                && inputs@[a].week_parity@ == inputs@[b].week_parity@ && inputs@[a].time == inputs@[b].time,
{
    let n = inputs.len();
    let mut i: usize = 0;
    while i < n
        invariant
            n == inputs@.len(),
            i <= n,
            forall|p: int, q: int|
                0 <= p < i && p < q < n ==> !same_slot(#[trigger] inputs@[p], #[trigger] inputs@[q]),
        decreases n - i,
    {
        let mut j: usize = i + 1;
        while j < n
            invariant
                n == inputs@.len(),
                i < n,
                i + 1 <= j <= n,
                forall|p: int, q: int|
                    0 <= p < i && p < q < n ==> !same_slot(#[trigger] inputs@[p], #[trigger] inputs@[q]),
                forall|q: int| i < q < j ==> !same_slot(inputs@[i as int], #[trigger] inputs@[q]),
            decreases n - j,
        {
            let a = &inputs[i];
            let b = &inputs[j];
            if a.week_day == b.week_day && a.week_parity == b.week_parity && a.time == b.time {
                assert(same_slot(inputs@[i as int], inputs@[j as int]));
                return Err(MergeError::DuplicatePosition);
            }
            j = j + 1;
        }
        i = i + 1;
    }
    Ok(())
}

/// The index of the first stored lesson at position `pos`.
fn find_first_match(existing: &Vec<ScheduleObjModel>, pos: i32) -> (r: Option<usize>)
    ensures
        match r {
            None => first_match(existing@, pos as int) is None,
            Some(j) => first_match(existing@, pos as int) == Some(j as int),
        },
{
    let n = existing.len();
    let mut j: usize = 0;
    while j < n
        invariant
            n == existing@.len(),
            j <= n,
            forall|k: int| 0 <= k < j ==> obj_pos(#[trigger] existing@[k]) != pos,
        decreases n - j,
    {
        if existing[j].get_lesson_pos() == pos {
            proof {
                assert(is_first_match(existing@, pos as int, j as int));
                let c = choose|c: int| is_first_match(existing@, pos as int, c);
                assert(c == j) by {
                    if c < j {
                        assert(obj_pos(existing@[c]) != pos);
                    } else if c > j {
                        assert(obj_pos(existing@[j as int]) != pos);
                    }
                }
            }
            return Some(j);
        }
        j = j + 1;
    }
    assert(!exists|c: int| is_first_match(existing@, pos as int, c)) by {
        if exists|c: int| is_first_match(existing@, pos as int, c) {
            let c = choose|c: int| is_first_match(existing@, pos as int, c);
            assert(obj_pos(existing@[c]) != pos);
        }
    }
    None
}

/// Whether some incoming lesson is at position `pos`.
fn any_input_at(inputs: &Vec<ScheduleObjModel>, pos: i32) -> (found: bool)
    ensures
        found == has_input_at(inputs@, pos as int),
{
    let n = inputs.len();
    let mut i: usize = 0;
    while i < n
        invariant
            n == inputs@.len(),
            i <= n,
            forall|k: int| 0 <= k < i ==> obj_pos(#[trigger] inputs@[k]) != pos,
        decreases n - i,
    {
        if inputs[i].get_lesson_pos() == pos {
            assert(obj_pos(inputs@[i as int]) == pos);
            return true;
        }
        i = i + 1;
    }
    false
}

/// The row written for an incoming lesson.
fn make_row(
    input: &ScheduleObjModel,
    link_id: Option<i32>,
    ctx: MergeContext,
    diff: ExistenceDiff,
) -> (row: NewScheduleObj)
    requires
        ctx.last_gen_id < u32::MAX,
    ensures
        row == new_row(*input, link_id, ctx, diff),
{
    NewScheduleObj {
        last_known_orig_sched_obj_id: input.last_known_orig_sched_obj_id,
        group_id: ctx.group_id,
        link_id: link_id,
        subject_id: ctx.subject_id,
        subject_gen_id: ctx.latest_subject_gen,
        teacher_id: input.teacher_id,
        teacher_gen_id: ctx.latest_teachers_gen,
        second_teacher_id: input.second_teacher_id,
        third_teacher_id: input.third_teacher_id,
        fourth_teacher_id: input.fourth_teacher_id,
        auditorium: clone_opt_string(&input.auditorium),
        modified_timestamp: input.modified_timestamp,
        time: input.time,
        week_day: input.week_day,
        week_parity: input.week_parity.clone(),
        gen_start: ctx.last_gen_id + 1,
        existence_diff: diff,
    }
}

/// Whether two lessons differ in teachers or auditorium.
fn tracked_differs(input: &ScheduleObjModel, stored: &ScheduleObjModel) -> (differ: bool)
    ensures
        differ == tracked_changed(*input, *stored),
{
    !opt_id_eq(input.teacher_id, stored.teacher_id)
        || !opt_id_eq(input.second_teacher_id, stored.second_teacher_id)
        || !opt_id_eq(input.third_teacher_id, stored.third_teacher_id)
        || !opt_id_eq(input.fourth_teacher_id, stored.fourth_teacher_id)
        || !opt_text_eq(&input.auditorium, &stored.auditorium)
}

/// Whether the merge of `inputs` into `existing` records a new generation:
/// some incoming lesson is inserted or updated, or some stored lesson is
/// ended.
pub fn merge_opens_generation(
    inputs: &Vec<ScheduleObjModel>,
    existing: &Vec<ScheduleObjModel>,
) -> (opens: bool)
    ensures
        opens == opens_generation(inputs@, existing@),
{
    let n = inputs.len();
    for i in 0..n
        invariant
            n == inputs@.len(),
            forall|k: int|
                0 <= k < i ==> input_result(#[trigger] inputs@[k], existing@) == MergeResult::NotModified,
    {
        let input = &inputs[i];
        let pos = input.get_lesson_pos();
        assert(obj_pos(inputs@[i as int]) == pos);
        match find_first_match(existing, pos) {
            None => {
                assert(input_result(inputs@[i as int], existing@) == MergeResult::Inserted);
                return true;
            },
            Some(j) => {
                if tracked_differs(input, &existing[j]) {
                    assert(input_result(inputs@[i as int], existing@) == MergeResult::Updated);
                    return true;
                }
                assert(input_result(inputs@[i as int], existing@) == MergeResult::NotModified);
            },
        }
    }
    let m = existing.len();
    for j in 0..m
        invariant
            m == existing@.len(),
            forall|k: int| 0 <= k < j ==> has_input_at(inputs@, obj_pos(#[trigger] existing@[k])),
    {
        if !any_input_at(inputs, existing[j].get_lesson_pos()) {
            assert(!has_input_at(inputs@, obj_pos(existing@[j as int])));
            return true;
        }
    }
    false
}

/// Plans the merge of one subject's freshly fetched lessons (`inputs`) into
/// the group's stored lessons of that subject (`existing`): the writes to
/// make, in order, and what became of each incoming lesson. Incoming lessons
/// that share a slot refuse the whole merge.
pub fn plan_group_merge(
    inputs: &Vec<ScheduleObjModel>,
    existing: &Vec<ScheduleObjModel>,
    ctx: MergeContext,
) -> (r: Result<GroupMergePlan, MergeError>)
    requires
        ctx.last_gen_id < u32::MAX || !opens_generation(inputs@, existing@),
    ensures
        match r {
            Err(e) => e == MergeError::DuplicatePosition && !unique_slots(inputs@),
            Ok(plan) => {
                &&& unique_slots(inputs@)
                &&& plan.steps@ == plan_steps(inputs@, existing@, ctx)
                &&& plan.results@ == plan_results(inputs@, existing@)
            },
        },
{
    match check_unique_positions(inputs) {
        Err(e) => {
            return Err(e);
        },
        Ok(()) => {},
    }
    let n = inputs.len();
    let m = existing.len();
    let mut steps: Vec<MergeStep> = Vec::new();
    let mut results: Vec<MergeResult> = Vec::new();
    for i in 0..n
        invariant
            n == inputs@.len(),
            m == existing@.len(),
            ctx.last_gen_id < u32::MAX || !opens_generation(inputs@, existing@),
            steps@ == inputs_steps(inputs@.take(i as int), existing@, ctx),
            results@ == plan_results(inputs@.take(i as int), existing@),
    {
        let input = &inputs[i];
        let pos = input.get_lesson_pos();
        let ghost prev_steps = steps@;
        let ghost prev_results = results@;
        match find_first_match(existing, pos) {
            None => {
                assert(input_result(inputs@[i as int], existing@) == MergeResult::Inserted);
                let g = ctx.last_gen_id + 1;
                steps.push(MergeStep::CreateGeneration { gen_id: g });
                let row = make_row(input, None, ctx, ExistenceDiff::New);
                steps.push(MergeStep::InsertObject { row });
                results.push(MergeResult::Inserted);
            },
            Some(j) => {
                let stored = &existing[j];
                let changed = tracked_differs(input, stored);
                if changed {
                    assert(input_result(inputs@[i as int], existing@) == MergeResult::Updated);
                    let g = ctx.last_gen_id + 1;
                    steps.push(MergeStep::CreateGeneration { gen_id: g });
                    steps.push(
                        MergeStep::CloseObject { schedule_obj_id: stored.schedule_obj_id, gen_end: g },
                    );
                    let row = make_row(input, Some(stored.time_link_id), ctx, ExistenceDiff::Changed);
                    steps.push(MergeStep::InsertObject { row });
                    results.push(MergeResult::Updated);
                } else {
                    let teacher_gen_stale = match stored.teacher_id {
                        Some(id) => id != ctx.latest_teachers_gen,
                        None => false,
                    };
                    if input.modified_timestamp != stored.modified_timestamp
                        || input.last_known_orig_sched_obj_id != stored.last_known_orig_sched_obj_id
                        || stored.subject_id != ctx.latest_subject_gen || teacher_gen_stale {
                        let teacher_gen_id = match stored.teacher_id {
                            Some(_) => Some(ctx.latest_teachers_gen),
                            None => None,
                        };
                        steps.push(
                            MergeStep::RefreshObject {
                                schedule_obj_id: stored.schedule_obj_id,
                                modified_timestamp: input.modified_timestamp,
                                last_known_orig_sched_obj_id: input.last_known_orig_sched_obj_id,
                                subject_gen_id: ctx.latest_subject_gen,
                                teacher_gen_id,
                            },
                        );
                    }
                    results.push(MergeResult::NotModified);
                }
            },
        }
        proof {
            let taken = inputs@.take(i as int + 1);
            assert(taken.drop_last() =~= inputs@.take(i as int));
            assert(taken.last() == inputs@[i as int]);
            assert(steps@ =~= prev_steps + input_steps(inputs@[i as int], existing@, ctx));
            assert(plan_results(taken, existing@) =~= prev_results.push(
                input_result(inputs@[i as int], existing@),
            ));
        }
    }
    proof {
        assert(inputs@.take(n as int) =~= inputs@);
    }
    for j in 0..m
        invariant
            n == inputs@.len(),
            m == existing@.len(),
            ctx.last_gen_id < u32::MAX || !opens_generation(inputs@, existing@),
            steps@ == inputs_steps(inputs@, existing@, ctx) + closing_steps(
                existing@.take(j as int),
                inputs@,
                ctx,
            ),
    {
        let ghost prev_steps = steps@;
        let stored = &existing[j];
        let covered = any_input_at(inputs, stored.get_lesson_pos());
        if !covered {
            assert(!has_input_at(inputs@, obj_pos(existing@[j as int])));
            let g = ctx.last_gen_id + 1;
            steps.push(MergeStep::CreateGeneration { gen_id: g });
            steps.push(MergeStep::CloseObject { schedule_obj_id: stored.schedule_obj_id, gen_end: g });
        }
        proof {
            let taken = existing@.take(j as int + 1);
            assert(taken.drop_last() =~= existing@.take(j as int));
            assert(taken.last() == existing@[j as int]);
            assert(steps@ =~= inputs_steps(inputs@, existing@, ctx) + closing_steps(taken, inputs@, ctx));
        }
    }
    proof {
        assert(existing@.take(m as int) =~= existing@);
    }
    Ok(GroupMergePlan { steps, results })
}

/// The counts that the merge of a group reports.
#[derive(Debug, Clone, Copy)]
pub struct MergeSummary {
    pub inserted: usize,
    pub changed: usize,
    pub modified: bool,
}

/// How many times `r` occurs in `s`.
pub open spec fn count_of(s: Seq<MergeResult>, r: MergeResult) -> nat
    decreases s.len(),
{
    if s.len() == 0 {
        0
    } else {
        count_of(s.drop_last(), r) + if s.last() == r {
            1nat
        } else {
            0nat
        }
    }
}

/// Some lesson of `s` was inserted or updated.
pub open spec fn any_modified(s: Seq<MergeResult>) -> bool {
    exists|i: int| 0 <= i < s.len() && s[i] != MergeResult::NotModified
}

/// Each outcome is one of the three kinds, so the three counts add up to
/// the number of outcomes.
pub proof fn merge_counts_add_up(s: Seq<MergeResult>)
    ensures
        count_of(s, MergeResult::Inserted) + count_of(s, MergeResult::Updated) + count_of(
            s,
            MergeResult::NotModified,
        ) == s.len(),
    decreases s.len(),
{
    if s.len() > 0 {
        merge_counts_add_up(s.drop_last());
    }
}

proof fn lemma_count_of_bounded(s: Seq<MergeResult>, r: MergeResult)
    ensures
        count_of(s, r) <= s.len(),
    decreases s.len(),
{
    if s.len() > 0 {
        lemma_count_of_bounded(s.drop_last(), r);
    }
}

impl MergeSummary {
    /// Nothing counted yet.
    pub fn new() -> (summary: MergeSummary)
        ensures
            summary.inserted == 0,
            summary.changed == 0,
            !summary.modified,
    {
        MergeSummary { inserted: 0, changed: 0, modified: false }
    }

    /// Adds the outcomes of a merge to the counts.
    pub fn tally(&mut self, results: &Vec<MergeResult>)
        requires
            old(self).inserted + results@.len() <= usize::MAX,
            old(self).changed + results@.len() <= usize::MAX,
        ensures
            final(self).inserted == old(self).inserted + count_of(results@, MergeResult::Inserted),
            final(self).changed == old(self).changed + count_of(results@, MergeResult::Updated),
            final(self).modified == (old(self).modified || any_modified(results@)),
    {
        let n = results.len();
        let ghost start = *self;
        for i in 0..n
            invariant
                n == results@.len(),
                start.inserted + n <= usize::MAX,
                start.changed + n <= usize::MAX,
                self.inserted == start.inserted + count_of(results@.take(i as int), MergeResult::Inserted),
                self.changed == start.changed + count_of(results@.take(i as int), MergeResult::Updated),
                self.modified == (start.modified || any_modified(results@.take(i as int))),
        {
            proof {
                let taken = results@.take(i as int + 1);
                assert(taken.drop_last() =~= results@.take(i as int));
                lemma_count_of_bounded(taken, MergeResult::Inserted);
                lemma_count_of_bounded(taken, MergeResult::Updated);
                assert(any_modified(taken) == (any_modified(results@.take(i as int))
                    || results@[i as int] != MergeResult::NotModified)) by {
                    if any_modified(taken) && results@[i as int] == MergeResult::NotModified {
                        let k = choose|k: int| 0 <= k < taken.len() && taken[k] != MergeResult::NotModified;
                        assert(results@.take(i as int)[k] == taken[k]);
                    }
                    if any_modified(results@.take(i as int)) {
                        let k = choose|k: int|
                            0 <= k < i && results@.take(i as int)[k] != MergeResult::NotModified;
                        assert(taken[k] == results@.take(i as int)[k]);
                    }
                    if results@[i as int] != MergeResult::NotModified {
                        assert(taken[i as int] == results@[i as int]);
                    }
                }
            }
            let r = results[i];
            if r == MergeResult::Inserted {
                self.inserted = self.inserted + 1;
            }
            if r == MergeResult::Updated {
                self.changed = self.changed + 1;
            }
            if r != MergeResult::NotModified {
                self.modified = true;
            }
        }
        proof {
            assert(results@.take(n as int) =~= results@);
        }
    }
}

/// The choice of the lessons of one subject.
pub open spec fn of_subject(subject_id: i32) -> spec_fn(ScheduleObjModel) -> bool {
    |o: ScheduleObjModel| o.subject_id == subject_id
}

/// The lessons of one subject, in the order given.
pub open spec fn lessons_of_subject(objs: Seq<ScheduleObjModel>, subject_id: i32) -> Seq<
    ScheduleObjModel,
> {
    objs.filter(of_subject(subject_id))
}

/// Groups lessons by subject: one group for each subject that occurs, with
/// that subject's lessons in the order given.
pub fn group_by_subject(schedule_objs: &Vec<ScheduleObjModel>) -> (groups: HashMap<
    i32,
    Vec<ScheduleObjModel>,
>)
    ensures
        forall|s: i32|
            #[trigger] groups@.contains_key(s) <==> exists|i: int|
                0 <= i < schedule_objs@.len() && (#[trigger] schedule_objs@[i]).subject_id == s,
        forall|s: i32|
            #[trigger] groups@.contains_key(s) ==> groups@[s]@ == lessons_of_subject(
                schedule_objs@,
                s,
            ),
{
    broadcast use vstd::std_specs::hash::group_hash_axioms;

    let n = schedule_objs.len();
    let mut groups: HashMap<i32, Vec<ScheduleObjModel>> = HashMap::new();
    for i in 0..n
        invariant
            n == schedule_objs@.len(),
            forall|s: i32|
                #[trigger] groups@.contains_key(s) <==> exists|k: int|
                    0 <= k < i && (#[trigger] schedule_objs@[k]).subject_id == s,
            forall|s: i32|
                #[trigger] groups@.contains_key(s) ==> groups@[s]@ == lessons_of_subject(
                    schedule_objs@.take(i as int),
                    s,
                ),
            forall|s: i32|
                !(#[trigger] groups@.contains_key(s)) ==> lessons_of_subject(
                    schedule_objs@.take(i as int),
                    s,
                ) == Seq::<ScheduleObjModel>::empty(),
    {
        let obj = schedule_objs[i].clone();
        let sid = obj.subject_id;
        let ghost before = groups@;
        let mut group = match groups.remove(&sid) {
            Some(g) => g,
            None => Vec::new(),
        };
        proof {
            assert(group@ == lessons_of_subject(schedule_objs@.take(i as int), sid));
        }
        group.push(obj);
        groups.insert(sid, group);
        proof {
            let taken = schedule_objs@.take(i as int + 1);
            assert(taken =~= schedule_objs@.take(i as int).push(schedule_objs@[i as int]));
            assert forall|s: i32| #[trigger] groups@.contains_key(s) <==> exists|k: int|
                0 <= k < i + 1 && (#[trigger] schedule_objs@[k]).subject_id == s by {
                if s != sid && groups@.contains_key(s) {
                    assert(before.contains_key(s));
                }
                if s == sid {
                    assert(schedule_objs@[i as int].subject_id == s);
                }
                if s != sid && (exists|k: int| 0 <= k < i + 1 && (#[trigger] schedule_objs@[k]).subject_id == s) {
                    let k = choose|k: int| 0 <= k < i + 1 && (#[trigger] schedule_objs@[k]).subject_id == s;
                    assert(k < i);
                    assert(before.contains_key(s));
                }
            }
            assert forall|s: i32| #[trigger] groups@.contains_key(s) implies groups@[s]@ == lessons_of_subject(
                taken,
                s,
            ) by {
                schedule_objs@.take(i as int).lemma_filter_push(schedule_objs@[i as int], of_subject(s));
            }
            assert forall|s: i32| !(#[trigger] groups@.contains_key(s)) implies lessons_of_subject(
                taken,
                s,
            ) == Seq::<ScheduleObjModel>::empty() by {
                schedule_objs@.take(i as int).lemma_filter_push(schedule_objs@[i as int], of_subject(s));
            }
        }
    }
    proof {
        assert(schedule_objs@.take(n as int) =~= schedule_objs@);
    }
    groups
}

} // verus!
