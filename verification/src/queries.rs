//! The timetable queries the presentation layer invokes: conflicts
//! between two users' weeks, and whether a user is free at a moment.
//! The embedder parses the raw timetable payloads; these functions take
//! the parsed values and answer over the standard period tables.

use crate::schedule::{
    day_conflicts, find_day_conflicts, in_lunch, initialize_lunch_periods, initialize_time_slots,
    is_user_free_at, lunch_table_wf, slot_blocks, time_slot_table_wf, time_to_minutes_bytes,
    CompactTimetable, ConflictView, LunchTable, TimeSlotTable,
};
use vstd::prelude::*;
use vstd::string::StringSliceAdditionalSpecFns;

verus! {

/// One free stretch of a day, as reported to the caller.
#[derive(Clone, Debug, PartialEq, Eq)]
pub struct FreeTimeResult {
    pub day: u8,
    pub start_time: String,
    pub end_time: String,
}

/// One conflict between two users, as reported to the caller.
#[derive(Clone, Debug, PartialEq, Eq)]
pub struct ConflictResult {
    pub day: u8,
    pub user1_class: String,
    pub user1_time: String,
    pub user2_class: String,
    pub user2_time: String,
}

/// Mathematical image of a [`ConflictResult`].
#[verifier::ext_equal]
pub struct ConflictResultView {
    pub day: u8,
    pub user1_class: Seq<char>,
    pub user1_time: Seq<char>,
    pub user2_class: Seq<char>,
    pub user2_time: Seq<char>,
}

impl View for ConflictResult {
    type V = ConflictResultView;

    open spec fn view(&self) -> ConflictResultView {
        ConflictResultView {
            day: self.day,
            user1_class: self.user1_class@,
            user1_time: self.user1_time@,
            user2_class: self.user2_class@,
            user2_time: self.user2_time@,
        }
    }
}

/// What the caller sees of one detected conflict: the day, each side's
/// cell text and printed time range.
pub open spec fn conflict_result_of(c: ConflictView) -> ConflictResultView {
    ConflictResultView {
        day: c.day,
        user1_class: c.user1_slot.class_text,
        user1_time: c.user1_slot.time_range,
        user2_class: c.user2_slot.class_text,
        user2_time: c.user2_slot.time_range,
    }
}

/// The reported conflicts of every day from `d` through 7, in day order.
pub open spec fn week_conflicts(
    u1: Seq<crate::data::CompactSlot>,
    u2: Seq<crate::data::CompactSlot>,
    ts: TimeSlotTable,
    lp: LunchTable,
    d: int,
) -> Seq<ConflictResultView>
    decreases 8 - d,
{
    if d < 1 || d > 7 {
        seq![]
    } else {
        day_conflicts(u1, u2, d as u8, ts, lp, 0).map_values(
            |c: ConflictView| conflict_result_of(c),
        ) + week_conflicts(u1, u2, ts, lp, d + 1)
    }
}

/// Every conflict between the two users' weeks, day by day, each day's
/// pairs in schedule order, judged against the standard tables.
pub fn check_conflicts(
    user1_schedule: &CompactTimetable,
    user2_schedule: &CompactTimetable,
) -> (r: Vec<ConflictResult>)
    ensures
        exists|ts: TimeSlotTable, lp: LunchTable|
            #[trigger] time_slot_table_wf(ts) && #[trigger] lunch_table_wf(lp) && r@.map_values(
                |c: ConflictResult| c@,
            ) == week_conflicts(user1_schedule.o@, user2_schedule.o@, ts, lp, 1),
{
    let time_slots = initialize_time_slots();
    let lunch_periods = initialize_lunch_periods();
    let ghost full = week_conflicts(
        user1_schedule.o@,
        user2_schedule.o@,
        time_slots,
        lunch_periods,
        1,
    );
    let mut all_conflicts: Vec<ConflictResult> = Vec::new();
    let mut day: u8 = 1;
    while day <= 7
        invariant
            1 <= day <= 8,
            time_slot_table_wf(time_slots),
            lunch_table_wf(lunch_periods),
            full == week_conflicts(
                user1_schedule.o@,
                user2_schedule.o@,
                time_slots,
                lunch_periods,
                1,
            ),
            all_conflicts@.map_values(|c: ConflictResult| c@) + week_conflicts(
                user1_schedule.o@,
                user2_schedule.o@,
                time_slots,
                lunch_periods,
                day as int,
            ) == full,
        decreases 8 - day,
    {
        let found = find_day_conflicts(
            user1_schedule,
            user2_schedule,
            day,
            &time_slots,
            &lunch_periods,
        );
        let ghost day_results = day_conflicts(
            user1_schedule.o@,
            user2_schedule.o@,
            day,
            time_slots,
            lunch_periods,
            0,
        ).map_values(|c: ConflictView| conflict_result_of(c));
        let mut k: usize = 0;
        let ghost before = all_conflicts@.map_values(|c: ConflictResult| c@);
        while k < found.len()
            invariant
                0 <= k <= found@.len(),
                found@.map_values(|c: crate::schedule::Conflict| c@) == day_conflicts(
                    user1_schedule.o@,
                    user2_schedule.o@,
                    day,
                    time_slots,
                    lunch_periods,
                    0,
                ),
                day_results == day_conflicts(
                    user1_schedule.o@,
                    user2_schedule.o@,
                    day,
                    time_slots,
                    lunch_periods,
                    0,
                ).map_values(|c: ConflictView| conflict_result_of(c)),
                all_conflicts@.map_values(|c: ConflictResult| c@) =~= before + day_results.take(
                    k as int,
                ),
            decreases found@.len() - k,
        {
            let c = &found[k];
            all_conflicts.push(
                ConflictResult {
                    day: c.day,
                    user1_class: c.user1_slot.class_text.clone(),
                    user1_time: c.user1_slot.time_range.clone(),
                    user2_class: c.user2_slot.class_text.clone(),
                    user2_time: c.user2_slot.time_range.clone(),
                },
            );
            proof {
                assert(day_results[k as int] == conflict_result_of(found@[k as int]@));
                assert(all_conflicts@[all_conflicts@.len() - 1]@ == conflict_result_of(
                    found@[k as int]@,
                ));
                assert(all_conflicts@.map_values(|c: ConflictResult| c@) =~= (before
                    + day_results.take(k as int)).push(day_results[k as int]));
                assert((before + day_results.take(k as int)).push(day_results[k as int]) =~= before
                    + day_results.take(k + 1));
            }
            k += 1;
        }
        proof {
            assert(day_results.take(day_results.len() as int) =~= day_results);
            assert(week_conflicts(
                user1_schedule.o@,
                user2_schedule.o@,
                time_slots,
                lunch_periods,
                day as int,
            ) == day_results + week_conflicts(
                user1_schedule.o@,
                user2_schedule.o@,
                time_slots,
                lunch_periods,
                day + 1,
            ));
            assert(before + (day_results + week_conflicts(
                user1_schedule.o@,
                user2_schedule.o@,
                time_slots,
                lunch_periods,
                day + 1,
            )) =~= (before + day_results) + week_conflicts(
                user1_schedule.o@,
                user2_schedule.o@,
                time_slots,
                lunch_periods,
                day + 1,
            ));
        }
        day += 1;
    }
    proof {
        assert(week_conflicts(user1_schedule.o@, user2_schedule.o@, time_slots, lunch_periods, 8)
            =~= Seq::<ConflictResultView>::empty());
        assert(all_conflicts@.map_values(|c: ConflictResult| c@) + Seq::<
            ConflictResultView,
        >::empty() =~= all_conflicts@.map_values(|c: ConflictResult| c@));
    }
    all_conflicts
}

/// Whether the user is free at the given moment of the given day, judged
/// against the standard tables.
pub fn is_free_at(schedule: &CompactTimetable, day: u8, time: &str) -> (r: bool)
    ensures
        exists|ts: TimeSlotTable, lp: LunchTable|
            #[trigger] time_slot_table_wf(ts) && #[trigger] lunch_table_wf(lp) && r == (in_lunch(
                time_to_minutes_bytes(time.spec_bytes()),
                lp,
            ) || (forall|i: int|
                0 <= i < schedule.o@.len() ==> !slot_blocks(
                    #[trigger] schedule.o@[i],
                    day,
                    time_to_minutes_bytes(time.spec_bytes()),
                    ts,
                    lp,
                ))),
{
    let time_slots = initialize_time_slots();
    let lunch_periods = initialize_lunch_periods();
    let r = is_user_free_at(schedule, day, time, &time_slots, &lunch_periods);
    proof {
        assert(time_slot_table_wf(time_slots) && lunch_table_wf(lunch_periods) && r == (in_lunch(
            time_to_minutes_bytes(time.spec_bytes()),
            lunch_periods,
        ) || (forall|i: int|
            0 <= i < schedule.o@.len() ==> !slot_blocks(
                #[trigger] schedule.o@[i],
                day,
                time_to_minutes_bytes(time.spec_bytes()),
                time_slots,
                lunch_periods,
            ))));
    }
    r
}

} // verus!
