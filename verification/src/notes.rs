use vstd::prelude::*;
use std::collections::BTreeMap;

verus! {

broadcast use {vstd::std_specs::btree::group_btree_axioms, vstd::laws_cmp::group_laws_cmp};

/// A note that a user left on a lesson of a given week. The timestamps are
/// nanoseconds since the Unix epoch, the stored date-time read as UTC.
#[derive(Debug)]
pub struct UserNote {
    pub user_id: i32,
    pub schedule_obj_time_link_id: i32,
    pub text: String,
    pub week_num: i32,
    pub creation_timestamp: i128,
    pub modified_timestamp: Option<i128>,
}

/// What a note shows in the week's list: its text and the lesson it is on.
pub open spec fn note_entry(note: UserNote) -> (String, i32) {
    (note.text, note.schedule_obj_time_link_id)
}

/// The choice of the notes of one week.
pub open spec fn of_week(week: i32) -> spec_fn(UserNote) -> bool {
    |n: UserNote| n.week_num == week
}

/// The entries of the notes of one week, in the order given.
pub open spec fn notes_of_week(notes: Seq<UserNote>, week: i32) -> Seq<(String, i32)> {
    notes.filter(of_week(week)).map_values(|n: UserNote| note_entry(n))
}

/// A week's list holds exactly the text and lesson of each note of that
/// week, and nothing else.
pub proof fn week_list_holds_exactly_its_notes(notes: Seq<UserNote>, week: i32)
    ensures
        forall|entry: (String, i32)|
            #[trigger] notes_of_week(notes, week).contains(entry) <==> exists|i: int|
                0 <= i < notes.len() && (#[trigger] notes[i]).week_num == week && entry == (
                notes[i].text,
                notes[i].schedule_obj_time_link_id,
            ),
{
    let f = notes.filter(of_week(week));
    let m = notes_of_week(notes, week);
    assert forall|entry: (String, i32)| #[trigger] m.contains(entry) <==> exists|i: int|
        0 <= i < notes.len() && (#[trigger] notes[i]).week_num == week && entry == (
        notes[i].text,
        notes[i].schedule_obj_time_link_id,
    ) by {
        if m.contains(entry) {
            let j = choose|j: int| 0 <= j < m.len() && m[j] == entry;
            notes.lemma_filter_pred(of_week(week), j);
            notes.lemma_filter_contains_rev(of_week(week), f[j]);
            let i = choose|i: int| 0 <= i < notes.len() && notes[i] == f[j];
            assert(notes[i].week_num == week);
        }
        if exists|i: int|
            0 <= i < notes.len() && (#[trigger] notes[i]).week_num == week && entry == (
            notes[i].text,
            notes[i].schedule_obj_time_link_id,
        ) {
            let i = choose|i: int|
                0 <= i < notes.len() && (#[trigger] notes[i]).week_num == week && entry == (
                notes[i].text,
                notes[i].schedule_obj_time_link_id,
            );
            notes.lemma_filter_contains(of_week(week), i);
            let j = choose|j: int| 0 <= j < f.len() && f[j] == notes[i];
            assert(m[j] == entry);
        }
    }
}

/// Groups a user's notes by week: one entry for each week that has a note,
/// listing that week's notes in the order given.
pub fn group_notes_by_week(notes: &Vec<UserNote>) -> (map: BTreeMap<i32, Vec<(String, i32)>>)
    ensures
        forall|w: i32|
            #[trigger] map@.contains_key(w) <==> exists|i: int|
                0 <= i < notes@.len() && (#[trigger] notes@[i]).week_num == w,
        forall|w: i32| #[trigger] map@.contains_key(w) ==> map@[w]@ == notes_of_week(notes@, w),
{
    let n = notes.len();
    let mut map: BTreeMap<i32, Vec<(String, i32)>> = BTreeMap::new();
    for i in 0..n
        invariant
            n == notes@.len(),
            forall|w: i32|
                #[trigger] map@.contains_key(w) <==> exists|k: int|
                    0 <= k < i && (#[trigger] notes@[k]).week_num == w,
            forall|w: i32|
                #[trigger] map@.contains_key(w) ==> map@[w]@ == notes_of_week(
                    notes@.take(i as int),
                    w,
                ),
            forall|w: i32|
                !(#[trigger] map@.contains_key(w)) ==> notes@.take(i as int).filter(of_week(w))
                    == Seq::<UserNote>::empty(),
    {
        let note = &notes[i];
        let week = note.week_num;
        let entry = (note.text.clone(), note.schedule_obj_time_link_id);
        let ghost before = map@;
        let mut list = match map.remove(&week) {
            Some(l) => l,
            None => Vec::new(),
        };
        proof {
            if !before.contains_key(week) {
                assert(notes_of_week(notes@.take(i as int), week) =~= Seq::<(String, i32)>::empty());
            }
            assert(list@ == notes_of_week(notes@.take(i as int), week));
        }
        list.push(entry);
        map.insert(week, list);
        proof {
            let taken = notes@.take(i as int + 1);
            assert(taken =~= notes@.take(i as int).push(notes@[i as int]));
            assert forall|w: i32| #[trigger] map@.contains_key(w) <==> exists|k: int|
                0 <= k < i + 1 && (#[trigger] notes@[k]).week_num == w by {
                if w != week && map@.contains_key(w) {
                    assert(before.contains_key(w));
                }
                if w == week {
                    assert(notes@[i as int].week_num == w);
                }
                if w != week && (exists|k: int| 0 <= k < i + 1 && (#[trigger] notes@[k]).week_num == w) {
                    let k = choose|k: int| 0 <= k < i + 1 && (#[trigger] notes@[k]).week_num == w;
                    assert(k < i);
                    assert(before.contains_key(w));
                }
            }
            assert forall|w: i32| #[trigger] map@.contains_key(w) implies map@[w]@ == notes_of_week(
                taken,
                w,
            ) by {
                notes@.take(i as int).lemma_filter_push(notes@[i as int], of_week(w));
                if w == week {
                    assert(notes_of_week(taken, w) =~= notes_of_week(notes@.take(i as int), w).push(
                        note_entry(notes@[i as int]),
                    ));
                }
            }
            assert forall|w: i32| !(#[trigger] map@.contains_key(w)) implies taken.filter(of_week(w))
                == Seq::<UserNote>::empty() by {
                notes@.take(i as int).lemma_filter_push(notes@[i as int], of_week(w));
            }
        }
    }
    proof {
        assert(notes@.take(n as int) =~= notes@);
    }
    map
}

} // verus!
