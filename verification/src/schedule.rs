use vstd::prelude::*;
use std::collections::HashSet;
use crate::week_day::{WeekDay, day_number};

verus! {

/// Rust's remainder on integers: it takes the sign of the dividend.
pub open spec fn truncated_rem(a: int, m: int) -> int {
    if a >= 0 {
        a % m
    } else {
        -((-a) % m)
    }
}

/// The parity code of the second week of the two-week cycle.
pub open spec fn second_week_parity() -> Seq<char> {
    seq!['2']
}

/// The position of a lesson in the two-week grid: 14 slots per day, the days
/// of the second week after the seven of the first.
pub open spec fn lesson_pos(day: WeekDay, parity: Seq<char>, time: i32) -> int {
    (day_number(day) + if parity == second_week_parity() { 7int } else { 0int }) * 14
        + truncated_rem(time as int, 1000)
}

/// A stored lesson of a group's schedule. The timestamps are nanoseconds
/// since the Unix epoch, the stored date-time read as UTC.
#[derive(Debug)]
pub struct ScheduleObjModel {
    pub schedule_obj_id: i32,
    pub last_known_orig_sched_obj_id: i32,
    pub group_id: i32,
    pub time_link_id: i32,
    pub prev_time_link_id: Option<i32>,
    pub subject_id: i32,
    pub subject_gen_id: i32,
    pub teacher_id: Option<i32>,
    pub teacher_gen_id: Option<i32>,
    pub second_teacher_id: Option<i32>,
    pub third_teacher_id: Option<i32>,
    pub fourth_teacher_id: Option<i32>,
    pub auditorium: Option<String>,
    pub created_timestamp: i128,
    pub modified_timestamp: i128,
    pub time: i32,
    pub week_day: WeekDay,
    pub week_parity: String,
    pub gen_start: i32,
    pub gen_end: Option<i32>,
    pub existence_diff: String,
}

/// The characters of an optional text.
pub open spec fn opt_text(s: Option<String>) -> Option<Seq<char>> {
    match s {
        Some(t) => Some(t@),
        None => None,
    }
}

/// A copy of an optional text.
pub fn clone_opt_string(s: &Option<String>) -> (c: Option<String>)
    ensures
        c == *s,
{
    match s {
        Some(t) => Some(t.clone()),
        None => None,
    }
}

impl Clone for ScheduleObjModel {
    fn clone(&self) -> (c: Self)
        ensures
            c == *self,
    {
        ScheduleObjModel {
            schedule_obj_id: self.schedule_obj_id,
            last_known_orig_sched_obj_id: self.last_known_orig_sched_obj_id,
            group_id: self.group_id,
            time_link_id: self.time_link_id,
            prev_time_link_id: self.prev_time_link_id,
            subject_id: self.subject_id,
            subject_gen_id: self.subject_gen_id,
            teacher_id: self.teacher_id,
            teacher_gen_id: self.teacher_gen_id,
            second_teacher_id: self.second_teacher_id,
            third_teacher_id: self.third_teacher_id,
            fourth_teacher_id: self.fourth_teacher_id,
            auditorium: clone_opt_string(&self.auditorium),
            created_timestamp: self.created_timestamp,
            modified_timestamp: self.modified_timestamp,
            time: self.time,
            week_day: self.week_day,
            week_parity: self.week_parity.clone(),
            gen_start: self.gen_start,
            gen_end: self.gen_end,
            existence_diff: self.existence_diff.clone(),
        }
    }
}

impl ScheduleObjModel {
    /// The position of this lesson in the two-week grid.
    pub fn get_lesson_pos(&self) -> (pos: i32)
        ensures
            pos == lesson_pos(self.week_day, self.week_parity@, self.time),
    {
        let mut res: i32 = self.week_day.as_num() as i32;
        let second = String::from_str("2");
        proof {
            reveal_strlit("2");
            assert(second@ =~= second_week_parity());
        }
        if self.week_parity == second {
            res += 7;
        }
        res *= 14;
        res += self.time % 1000;
        res
    }
}

/// A generation of a group's schedule; `creation_time` is in microseconds
/// since the Unix epoch, read as UTC.
#[derive(Debug, Clone, Copy, Default)]
pub struct ScheduleGenerationModel {
    pub gen_id: i32,
    pub creation_time: i64,
    pub group_id: i32,
}

/// Within the 14 daily slots, a lesson position names the day, the week
/// parity (second week or not) and the slot: two lessons whose times lie in
/// the first 14 slots of the day have equal positions exactly when they
/// agree on all three.
pub proof fn lesson_pos_identifies_slot(
    day1: WeekDay,
    parity1: Seq<char>,
    time1: i32,
    day2: WeekDay,
    parity2: Seq<char>,
    time2: i32,
)
    requires
        0 <= (time1 as int) % 1000 < 14,
        0 <= (time2 as int) % 1000 < 14,
        time1 >= 0,
        time2 >= 0,
    ensures
        lesson_pos(day1, parity1, time1) == lesson_pos(day2, parity2, time2) <==> {
            &&& day1 == day2
            &&& (parity1 == second_week_parity()) == (parity2 == second_week_parity())
            &&& (time1 as int) % 1000 == (time2 as int) % 1000
        },
{
    let w1: int = day_number(day1) + if parity1 == second_week_parity() { 7int } else { 0int };
    let w2: int = day_number(day2) + if parity2 == second_week_parity() { 7int } else { 0int };
    let r1: int = (time1 as int) % 1000;
    let r2: int = (time2 as int) % 1000;
    assert(lesson_pos(day1, parity1, time1) == w1 * 14 + r1);
    assert(lesson_pos(day2, parity2, time2) == w2 * 14 + r2);
    if w1 * 14 + r1 == w2 * 14 + r2 {
        assert(w1 == w2 && r1 == r2) by (nonlinear_arith)
            requires
                w1 * 14 + r1 == w2 * 14 + r2,
                0 <= r1 < 14,
                0 <= r2 < 14,
        ;
        crate::week_day::week_day_number_injective(day1, day2);
    }
}

/// How positions are laid out: a first-week Monday lesson sits at its slot
/// (the time modulo 1000), each following day is 14 positions further, the
/// second week (parity "2") is 98 positions after the first, and a time's
/// thousands do not matter.
pub proof fn lesson_pos_layout(day: WeekDay, parity: Seq<char>, time: i32)
    ensures
        time >= 0 && parity != second_week_parity() ==> lesson_pos(WeekDay::Mon, parity, time) == (
        time as int) % 1000,
        lesson_pos(day, second_week_parity(), time) == lesson_pos(day, seq!['1'], time) + 98,
        parity != second_week_parity() ==> lesson_pos(day, parity, time) == lesson_pos(
            day,
            seq!['1'],
            time,
        ),
        lesson_pos(WeekDay::Tue, parity, time) == lesson_pos(WeekDay::Mon, parity, time) + 14,
        lesson_pos(WeekDay::Wed, parity, time) == lesson_pos(WeekDay::Tue, parity, time) + 14,
        lesson_pos(WeekDay::Thu, parity, time) == lesson_pos(WeekDay::Wed, parity, time) + 14,
        lesson_pos(WeekDay::Fri, parity, time) == lesson_pos(WeekDay::Thu, parity, time) + 14,
        lesson_pos(WeekDay::Sat, parity, time) == lesson_pos(WeekDay::Fri, parity, time) + 14,
        lesson_pos(WeekDay::Sun, parity, time) == lesson_pos(WeekDay::Sat, parity, time) + 14,
        0 <= time <= i32::MAX - 1000 ==> lesson_pos(day, parity, (time + 1000) as i32) == lesson_pos(
            day,
            parity,
            time,
        ),
{
    assert(seq!['1'] != second_week_parity()) by {
        assert(seq!['1'][0] != second_week_parity()[0]);
    }
    if 0 <= time <= i32::MAX - 1000 {
        assert(((time + 1000) as int) % 1000 == (time as int) % 1000);
    }
}

/// Whether the link ids of a group's current lessons are pairwise distinct,
/// as the stored schedule guarantees.
pub fn link_ids_are_distinct(ids: &Vec<i32>) -> (distinct: bool)
    ensures
        distinct == ids@.no_duplicates(),
{
    broadcast use vstd::std_specs::hash::group_hash_axioms;

    let n = ids.len();
    let mut seen: HashSet<i32> = HashSet::new();
    for i in 0..n
        invariant
            n == ids@.len(),
            ids@.take(i as int).no_duplicates(),
            forall|x: i32| #[trigger] seen@.contains(x) <==> ids@.take(i as int).contains(x),
    {
        let id = ids[i];
        let fresh = seen.insert(id);
        if !fresh {
            proof {
                let k = choose|k: int| 0 <= k < i && ids@.take(i as int)[k] == id;
                assert(ids@[k] == ids@[i as int]);
            }
            return false;
        }
        proof {
            let taken = ids@.take(i as int + 1);
            assert(taken =~= ids@.take(i as int).push(id));
            assert forall|x: i32| #[trigger] seen@.contains(x) <==> taken.contains(x) by {
                if x == id {
                    assert(taken[i as int] == id);
                }
                if taken.contains(x) && x != id {
                    let k = choose|k: int| 0 <= k < taken.len() && taken[k] == x;
                    assert(ids@.take(i as int)[k] == x);
                }
            }
            assert forall|a: int, b: int| 0 <= a < taken.len() && 0 <= b < taken.len() && a != b
                implies taken[a] != taken[b] by {
                if a == i {
                    assert(ids@.take(i as int)[b] == taken[b]);
                } else if b == i {
                    assert(ids@.take(i as int)[a] == taken[a]);
                }
            }
        }
    }
    proof {
        assert(ids@.take(n as int) =~= ids@);
    }
    true
}

/// The link id for a newly inserted lesson: one past the largest stored,
/// or 1 when none is stored.
pub fn next_link_id(max_link_id: Option<i32>) -> (id: i32)
    requires
        max_link_id is Some ==> max_link_id->0 < i32::MAX,
    ensures
        id == match max_link_id {
            Some(m) => m + 1,
            None => 1,
        },
{
    match max_link_id {
        Some(m) => m + 1,
        None => 1,
    }
}

/// The newest generation of a group's schedule: 0 when none is stored.
pub fn last_gen_id(max_gen_id: Option<u32>) -> (id: u32)
    ensures
        id == match max_gen_id {
            Some(m) => m,
            None => 0,
        },
{
    match max_gen_id {
        Some(m) => m,
        None => 0,
    }
}

} // verus!
