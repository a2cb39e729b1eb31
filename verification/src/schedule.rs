//! Timetable utilities at the engine's boundary: the period tables, the
//! "HH:MM" time parser and the overlap test that the conflict and
//! free-time features are built on.

use crate::codec::{digits_val, is_digit, lemma_digits_val_monotone, lemma_digits_val_nonneg};
use vstd::prelude::*;
use vstd::string::StringSliceAdditionalSpecFns;

verus! {

/// How many occurrences of `c` stand in `b` at or after `i`.
pub open spec fn count_from(b: Seq<u8>, c: u8, i: int) -> int
    decreases b.len() - i,
{
    if i < 0 || i >= b.len() {
        0
    } else {
        (if b[i] == c {
            1int
        } else {
            0int
        }) + count_from(b, c, i + 1)
    }
}

/// Index of the first `c` in `b` at or after `i`, or -1.
pub open spec fn find_byte(b: Seq<u8>, c: u8, i: int) -> int
    decreases b.len() - i,
{
    if i < 0 || i >= b.len() {
        -1
    } else if b[i] == c {
        i
    } else {
        find_byte(b, c, i + 1)
    }
}

pub open spec fn all_digits(b: Seq<u8>, i: int, j: int) -> bool {
    forall|k: int| i <= k < j ==> is_digit(#[trigger] b[k])
}

/// What `str::parse::<i32>` accepts: an optional sign, then digits, the
/// value in range.
pub open spec fn parse_i32(b: Seq<u8>) -> Option<int> {
    if b.len() == 0 {
        None
    } else {
        let sign: int = if b[0] == 45 {
            -1
        } else {
            1
        };
        let lo: int = if b[0] == 43 || b[0] == 45 {
            1
        } else {
            0
        };
        if lo >= b.len() || !all_digits(b, lo, b.len() as int) {
            None
        } else {
            let v = sign * digits_val(b, lo, b.len() as int);
            if i32::MIN <= v <= i32::MAX {
                Some(v)
            } else {
                None
            }
        }
    }
}

/// The UTF-8 bytes of the literal `"Lunch"`.
pub open spec fn lunch_bytes() -> Seq<u8> {
    seq![76u8, 117, 110, 99, 104]
}

/// Minutes since midnight for a `"HH:MM"` string, over its UTF-8 bytes:
/// the literal `"Lunch"`, a shape other than two integers around one
/// colon, or a value outside `i32` all map to -1.
pub open spec fn time_to_minutes_bytes(b: Seq<u8>) -> int {
    if b == lunch_bytes() {
        -1
    } else if count_from(b, 58, 0) != 1 {
        -1
    } else {
        let p = find_byte(b, 58, 0);
        match (parse_i32(b.take(p)), parse_i32(b.skip(p + 1))) {
            (Some(h), Some(m)) => if i32::MIN <= h * 60 + m <= i32::MAX {
                h * 60 + m
            } else {
                -1
            },
            _ => -1,
        }
    }
}

/// Parse a decimal integer with optional sign, as `str::parse::<i32>`
/// reads it.
fn parse_i32_bytes(b: &[u8]) -> (r: Option<i32>)
    ensures
        r is Some <==> parse_i32(b@) is Some,
        r matches Some(v) ==> parse_i32(b@) == Some(v as int),
{
    if b.len() == 0 {
        return None;
    }
    let negative = b[0] == 45;
    let lo: usize = if b[0] == 43 || b[0] == 45 {
        1
    } else {
        0
    };
    if lo >= b.len() {
        return None;
    }
    let mut k: usize = lo;
    let mut mag: i64 = 0;
    while k < b.len()
        invariant
            lo <= k <= b@.len(),
            lo < b@.len(),
            b@.len() > 0,
            lo as int == (if b@[0] == 43 || b@[0] == 45 {
                1int
            } else {
                0int
            }),
            all_digits(b@, lo as int, k as int),
            mag == digits_val(b@, lo as int, k as int),
            0 <= mag <= 0x8000_0000i64,
        decreases b@.len() - k,
    {
        let c = b[k];
        if !(48 <= c && c <= 57) {
            assert(!is_digit(b@[k as int]));
            return None;
        }
        let nv = mag * 10 + (c - 48) as i64;
        assert(nv == digits_val(b@, lo as int, k + 1));
        if nv > 0x8000_0000i64 {
            proof {
                if all_digits(b@, lo as int, b@.len() as int) {
                    lemma_digits_val_monotone(b@, lo as int, k + 1, b@.len() as int);
                    assert(digits_val(b@, lo as int, b@.len() as int) >= nv);
                    if b@[0] == 45 {
                        assert(-1 * digits_val(b@, lo as int, b@.len() as int) < i32::MIN);
                        assert(parse_i32(b@) is None);
                    } else {
                        assert(1 * digits_val(b@, lo as int, b@.len() as int) > i32::MAX);
                        assert(parse_i32(b@) is None);
                    }
                } else {
                    assert(parse_i32(b@) is None);
                }
            }
            return None;
        }
        mag = nv;
        k = k + 1;
    }
    proof {
        lemma_digits_val_nonneg(b@, lo as int, b@.len() as int);
    }
    assert(k == b@.len());
    assert(all_digits(b@, lo as int, b@.len() as int));
    assert(mag == digits_val(b@, lo as int, b@.len() as int));
    if negative {
        assert(b@[0] == 45);
        assert(parse_i32(b@) == Some(-1 * digits_val(b@, lo as int, b@.len() as int)));
        Some((-mag) as i32)
    } else {
        if mag > 0x7FFF_FFFFi64 {
            return None;
        }
        Some(mag as i32)
    }
}

/// Minutes since midnight for a `"HH:MM"` string; `"Lunch"`, malformed
/// input and out-of-range values give -1.
pub fn time_to_minutes(time_string: &str) -> (r: i32)
    ensures
        r as int == time_to_minutes_bytes(time_string.spec_bytes()),
{
    let b = time_string.as_bytes();
    if b.len() == 5 && b[0] == 76 && b[1] == 117 && b[2] == 110 && b[3] == 99 && b[4] == 104 {
        assert(b@ =~= lunch_bytes());
        return -1;
    }
    assert(b@ != lunch_bytes()) by {
        if b@ == lunch_bytes() {
            assert(b@[0] == 76 && b@[1] == 117 && b@[2] == 110 && b@[3] == 99 && b@[4] == 104);
        }
    }
    let mut i: usize = 0;
    let mut colons: usize = 0;
    let mut first: usize = 0;
    let mut seen = false;
    while i < b.len()
        invariant
            0 <= i <= b@.len(),
            colons <= i,
            count_from(b@, 58, 0) == colons + count_from(b@, 58, i as int),
            seen <==> colons > 0,
            seen ==> 0 <= first < i && b@[first as int] == 58 && find_byte(b@, 58, 0)
                == first as int,
            !seen ==> find_byte(b@, 58, 0) == find_byte(b@, 58, i as int),
        decreases b@.len() - i,
    {
        if b[i] == 58 {
            colons = colons + 1;
            if !seen {
                first = i;
                seen = true;
            }
        }
        i = i + 1;
    }
    if colons != 1 {
        return -1;
    }
    let head = &b[0..first];
    let tail = &b[first + 1..b.len()];
    assert(head@ =~= b@.take(first as int));
    assert(tail@ =~= b@.skip(first as int + 1));
    let h = match parse_i32_bytes(head) {
        Some(v) => v,
        None => {
            return -1;
        },
    };
    let m = match parse_i32_bytes(tail) {
        Some(v) => v,
        None => {
            return -1;
        },
    };
    let total = (h as i64) * 60 + (m as i64);
    if -0x8000_0000i64 <= total && total <= 0x7FFF_FFFFi64 {
        total as i32
    } else {
        -1
    }
}

/// Whether the two closed-open minute ranges named by the four time
/// strings overlap.
pub fn time_ranges_overlap(start1: &str, end1: &str, start2: &str, end2: &str) -> (r: bool)
    ensures
        r == (time_to_minutes_bytes(start1.spec_bytes()) < time_to_minutes_bytes(
            end2.spec_bytes(),
        ) && time_to_minutes_bytes(end1.spec_bytes()) > time_to_minutes_bytes(
            start2.spec_bytes(),
        )),
{
    let start1_mins = time_to_minutes(start1);
    let end1_mins = time_to_minutes(end1);
    let start2_mins = time_to_minutes(start2);
    let end2_mins = time_to_minutes(end2);
    start1_mins < end2_mins && end1_mins > start2_mins
}


// ---------------------------------------------------------------------------
// The period tables and the lookups over them.
// ---------------------------------------------------------------------------

/// One period of the teaching day and its wall-clock bounds.
#[derive(Clone, Debug)]
pub struct TimeSlot {
    pub period: u8,
    pub start_time: String,
    pub end_time: String,
}

/// The lunch break's wall-clock bounds.
#[derive(Clone, Debug)]
pub struct LunchPeriod {
    pub start: String,
    pub end: String,
}

/// The twelve theory periods and the twelve lab periods: the slot kinds
/// keep separate timings.
pub struct TimeSlotTable {
    pub theory: Vec<TimeSlot>,
    pub lab: Vec<TimeSlot>,
}

/// The lunch break of each slot kind.
pub struct LunchTable {
    pub theory: LunchPeriod,
    pub lab: LunchPeriod,
}

/// A whole timetable as exchanged between peers: owner, timestamp and the
/// occupied slots.
#[derive(Clone, Debug)]
pub struct CompactTimetable {
    pub u: String,
    pub t: String,
    pub o: Vec<crate::data::CompactSlot>,
}

/// One side of a detected conflict: the slot kind, period, printed time
/// range and the cell text.
#[derive(Clone, Debug)]
pub struct SlotInfo {
    pub slot_type: String,
    pub period: u8,
    pub time_range: String,
    pub class_text: String,
}

/// Two slots of two users that overlap on one day.
#[derive(Clone, Debug)]
pub struct Conflict {
    pub day: u8,
    pub user1_slot: SlotInfo,
    pub user2_slot: SlotInfo,
}

/// A stretch of a day during which everyone asked about is free.
#[derive(Clone, Debug)]
pub struct FreeTimeSlot {
    pub day: u8,
    pub start_time: String,
    pub end_time: String,
}

/// A named peer schedule, as the free-time queries take them.
#[derive(Clone, Debug)]
pub struct Friend {
    pub name: String,
    pub schedule: CompactTimetable,
}

/// The starting times of the theory periods, by zero-based index.
pub open spec fn theory_start(i: int) -> Seq<char> {
    if i == 0 { "08:00"@ } else if i == 1 { "08:55"@ } else if i == 2 { "09:50"@ }
    else if i == 3 { "10:45"@ } else if i == 4 { "11:40"@ } else if i == 5 { "12:35"@ }
    else if i == 6 { "14:00"@ } else if i == 7 { "14:55"@ } else if i == 8 { "15:50"@ }
    else if i == 9 { "16:45"@ } else if i == 10 { "17:40"@ } else { "18:35"@ }
}

/// The ending times of the theory periods, by zero-based index.
pub open spec fn theory_end(i: int) -> Seq<char> {
    if i == 0 { "08:50"@ } else if i == 1 { "09:45"@ } else if i == 2 { "10:40"@ }
    else if i == 3 { "11:35"@ } else if i == 4 { "12:30"@ } else if i == 5 { "13:25"@ }
    else if i == 6 { "14:50"@ } else if i == 7 { "15:45"@ } else if i == 8 { "16:40"@ }
    else if i == 9 { "17:35"@ } else if i == 10 { "18:30"@ } else { "19:25"@ }
}

/// The starting times of the lab periods, by zero-based index.
pub open spec fn lab_start(i: int) -> Seq<char> {
    if i == 0 { "08:00"@ } else if i == 1 { "08:50"@ } else if i == 2 { "09:50"@ }
    else if i == 3 { "10:40"@ } else if i == 4 { "11:40"@ } else if i == 5 { "12:30"@ }
    else if i == 6 { "14:00"@ } else if i == 7 { "14:50"@ } else if i == 8 { "15:50"@ }
    else if i == 9 { "16:40"@ } else if i == 10 { "17:40"@ } else { "18:30"@ }
}

/// The ending times of the lab periods, by zero-based index.
pub open spec fn lab_end(i: int) -> Seq<char> {
    if i == 0 { "08:50"@ } else if i == 1 { "09:40"@ } else if i == 2 { "10:40"@ }
    else if i == 3 { "11:30"@ } else if i == 4 { "12:30"@ } else if i == 5 { "13:20"@ }
    else if i == 6 { "14:50"@ } else if i == 7 { "15:40"@ } else if i == 8 { "16:40"@ }
    else if i == 9 { "17:30"@ } else if i == 10 { "18:30"@ } else { "19:20"@ }
}

/// A well-formed slot table: twelve periods of each kind, numbered from
/// one, with the standard timings.
pub open spec fn time_slot_table_wf(t: TimeSlotTable) -> bool {
    &&& t.theory@.len() == 12
    &&& t.lab@.len() == 12
    &&& forall|i: int| 0 <= i < 12 ==> (#[trigger] t.theory@[i]).period == i + 1
    &&& forall|i: int| 0 <= i < 12 ==> (#[trigger] t.theory@[i]).start_time@ == theory_start(i)
    &&& forall|i: int| 0 <= i < 12 ==> (#[trigger] t.theory@[i]).end_time@ == theory_end(i)
    &&& forall|i: int| 0 <= i < 12 ==> (#[trigger] t.lab@[i]).period == i + 1
    &&& forall|i: int| 0 <= i < 12 ==> (#[trigger] t.lab@[i]).start_time@ == lab_start(i)
    &&& forall|i: int| 0 <= i < 12 ==> (#[trigger] t.lab@[i]).end_time@ == lab_end(i)
}

/// A well-formed lunch table: the standard lunch bounds of each kind.
pub open spec fn lunch_table_wf(t: LunchTable) -> bool {
    &&& t.theory.start@ == "13:25"@
    &&& t.theory.end@ == "14:00"@
    &&& t.lab.start@ == "13:20"@
    &&& t.lab.end@ == "14:00"@
}

fn slot(period: u8, start_time: &str, end_time: &str) -> (r: TimeSlot)
    ensures
        r.period == period,
        r.start_time@ == start_time@,
        r.end_time@ == end_time@,
{
    TimeSlot { period, start_time: start_time.to_owned(), end_time: end_time.to_owned() }
}

/// The standard period timings of both slot kinds.
pub fn initialize_time_slots() -> (r: TimeSlotTable)
    ensures
        time_slot_table_wf(r),
{
    let mut theory: Vec<TimeSlot> = Vec::new();
    theory.push(slot(1, "08:00", "08:50"));
    theory.push(slot(2, "08:55", "09:45"));
    theory.push(slot(3, "09:50", "10:40"));
    theory.push(slot(4, "10:45", "11:35"));
    theory.push(slot(5, "11:40", "12:30"));
    theory.push(slot(6, "12:35", "13:25"));
    theory.push(slot(7, "14:00", "14:50"));
    theory.push(slot(8, "14:55", "15:45"));
    theory.push(slot(9, "15:50", "16:40"));
    theory.push(slot(10, "16:45", "17:35"));
    theory.push(slot(11, "17:40", "18:30"));
    theory.push(slot(12, "18:35", "19:25"));
    let mut lab: Vec<TimeSlot> = Vec::new();
    lab.push(slot(1, "08:00", "08:50"));
    lab.push(slot(2, "08:50", "09:40"));
    lab.push(slot(3, "09:50", "10:40"));
    lab.push(slot(4, "10:40", "11:30"));
    lab.push(slot(5, "11:40", "12:30"));
    lab.push(slot(6, "12:30", "13:20"));
    lab.push(slot(7, "14:00", "14:50"));
    lab.push(slot(8, "14:50", "15:40"));
    lab.push(slot(9, "15:50", "16:40"));
    lab.push(slot(10, "16:40", "17:30"));
    lab.push(slot(11, "17:40", "18:30"));
    lab.push(slot(12, "18:30", "19:20"));
    let r = TimeSlotTable { theory, lab };
    assert(time_slot_table_wf(r)) by {
        assert forall|i: int| 0 <= i < 12 implies (#[trigger] r.theory@[i]).period == i + 1
            && r.theory@[i].start_time@ == theory_start(i) && r.theory@[i].end_time@ == theory_end(
            i,
        ) && (#[trigger] r.lab@[i]).period == i + 1 && r.lab@[i].start_time@ == lab_start(i)
            && r.lab@[i].end_time@ == lab_end(i) by {
            if i == 0 {
            } else if i == 1 {
            } else if i == 2 {
            } else if i == 3 {
            } else if i == 4 {
            } else if i == 5 {
            } else if i == 6 {
            } else if i == 7 {
            } else if i == 8 {
            } else if i == 9 {
            } else if i == 10 {
            } else {
            }
        }
    }
    r
}

/// The standard lunch bounds of both slot kinds.
pub fn initialize_lunch_periods() -> (r: LunchTable)
    ensures
        lunch_table_wf(r),
{
    LunchTable {
        theory: LunchPeriod { start: "13:25".to_owned(), end: "14:00".to_owned() },
        lab: LunchPeriod { start: "13:20".to_owned(), end: "14:00".to_owned() },
    }
}

/// Whether a kind tag names the theory timings (the tag `"t"`); any
/// other tag selects the lab timings.
pub open spec fn is_theory_tag(b: Seq<u8>) -> bool {
    b == seq![116u8]
}

/// The wall-clock bounds a lookup yields: the lunch bounds for period
/// zero, the table entry for a period whose index is in range, nothing
/// otherwise.
pub open spec fn lookup_times(period: u8, tag: Seq<u8>, ts: TimeSlotTable, lp: LunchTable) -> Option<
    (Seq<char>, Seq<char>),
> {
    let slots = if is_theory_tag(tag) {
        ts.theory@
    } else {
        ts.lab@
    };
    let lunch = if is_theory_tag(tag) {
        lp.theory
    } else {
        lp.lab
    };
    if period == 0 {
        Some((lunch.start@, lunch.end@))
    } else if period - 1 < slots.len() {
        Some((slots[period - 1].start_time@, slots[period - 1].end_time@))
    } else {
        None
    }
}

/// The wall-clock bounds of one slot, as [`lookup_times`] names them.
pub fn get_time_slot_info(
    _day: u8,
    period: u8,
    slot_type: &str,
    time_slots: &TimeSlotTable,
    lunch_periods: &LunchTable,
) -> (r: Option<(String, String)>)
    ensures
        match (r, lookup_times(period, slot_type.spec_bytes(), *time_slots, *lunch_periods)) {
            (Some((a, b)), Some((x, y))) => a@ == x && b@ == y,
            (None, None) => true,
            _ => false,
        },
{
    let tb = slot_type.as_bytes();
    let theory = tb.len() == 1 && tb[0] == 116;
    proof {
        if theory {
            assert(slot_type.spec_bytes() =~= seq![116u8]);
        } else {
            if slot_type.spec_bytes() == seq![116u8] {
                assert(slot_type.spec_bytes().len() == 1);
                assert(slot_type.spec_bytes()[0] == 116);
            }
        }
    }
    if period == 0 {
        let lunch = if theory {
            &lunch_periods.theory
        } else {
            &lunch_periods.lab
        };
        return Some((lunch.start.clone(), lunch.end.clone()));
    }
    let slots = if theory {
        &time_slots.theory
    } else {
        &time_slots.lab
    };
    let period_index = (period - 1) as usize;
    if period_index < slots.len() {
        let st = &slots[period_index];
        Some((st.start_time.clone(), st.end_time.clone()))
    } else {
        None
    }
}


/// Minutes since midnight of a time text, over its characters.
pub open spec fn minutes_of(s: Seq<char>) -> int {
    time_to_minutes_bytes(vstd::utf8::encode_utf8(s))
}

/// Whether a moment falls inside either kind's lunch break.
pub open spec fn in_lunch(tmin: int, lp: LunchTable) -> bool {
    (tmin >= minutes_of(lp.theory.start@) && tmin < minutes_of(lp.theory.end@)) || (tmin
        >= minutes_of(lp.lab.start@) && tmin < minutes_of(lp.lab.end@))
}

/// Whether one occupied slot covers the moment `tmin` on `day`.
pub open spec fn slot_blocks(
    slot: crate::data::CompactSlot,
    day: u8,
    tmin: int,
    ts: TimeSlotTable,
    lp: LunchTable,
) -> bool {
    &&& slot.d == day
    &&& slot.p != 0
    &&& match lookup_times(slot.p, vstd::utf8::encode_utf8(slot.s@), ts, lp) {
        Some((st, en)) => tmin >= minutes_of(st) && tmin < minutes_of(en),
        None => false,
    }
}

/// Whether the user is free at the given moment of the given day: lunch
/// is always free; otherwise no occupied slot may cover the moment.
pub fn is_user_free_at(
    user_schedule: &CompactTimetable,
    day: u8,
    time_string: &str,
    time_slots: &TimeSlotTable,
    lunch_periods: &LunchTable,
) -> (r: bool)
    ensures
        r == (in_lunch(time_to_minutes_bytes(time_string.spec_bytes()), *lunch_periods) || (
        forall|i: int|
            0 <= i < user_schedule.o@.len() ==> !slot_blocks(
                #[trigger] user_schedule.o@[i],
                day,
                time_to_minutes_bytes(time_string.spec_bytes()),
                *time_slots,
                *lunch_periods,
            ))),
{
    let time_minutes = time_to_minutes(time_string);
    let ghost tmin: int = time_to_minutes_bytes(time_string.spec_bytes());
    let lunch_start_theory = time_to_minutes(lunch_periods.theory.start.as_str());
    let lunch_end_theory = time_to_minutes(lunch_periods.theory.end.as_str());
    let lunch_start_lab = time_to_minutes(lunch_periods.lab.start.as_str());
    let lunch_end_lab = time_to_minutes(lunch_periods.lab.end.as_str());
    if (time_minutes >= lunch_start_theory && time_minutes < lunch_end_theory) || (time_minutes
        >= lunch_start_lab && time_minutes < lunch_end_lab) {
        return true;
    }
    assert(!in_lunch(tmin, *lunch_periods));
    let mut i: usize = 0;
    while i < user_schedule.o.len()
        invariant
            0 <= i <= user_schedule.o@.len(),
            tmin == time_to_minutes_bytes(time_string.spec_bytes()),
            time_minutes as int == tmin,
            !in_lunch(tmin, *lunch_periods),
            forall|j: int|
                0 <= j < i ==> !slot_blocks(
                    #[trigger] user_schedule.o@[j],
                    day,
                    tmin,
                    *time_slots,
                    *lunch_periods,
                ),
        decreases user_schedule.o@.len() - i,
    {
        let slot = &user_schedule.o[i];
        if slot.d == day && slot.p != 0 {
            match get_time_slot_info(slot.d, slot.p, slot.s.as_str(), time_slots, lunch_periods) {
                Some((slot_start, slot_end)) => {
                    let slot_start_minutes = time_to_minutes(slot_start.as_str());
                    let slot_end_minutes = time_to_minutes(slot_end.as_str());
                    if time_minutes >= slot_start_minutes && time_minutes < slot_end_minutes {
                        assert(slot_blocks(
                            user_schedule.o@[i as int],
                            day,
                            tmin,
                            *time_slots,
                            *lunch_periods,
                        ));
                        return false;
                    }
                },
                None => {},
            }
        }
        assert(!slot_blocks(user_schedule.o@[i as int], day, tmin, *time_slots, *lunch_periods));
        i += 1;
    }
    true
}

/// Whether two occupied slots of one day overlap in wall-clock time.
pub open spec fn slots_conflict(
    a: crate::data::CompactSlot,
    b: crate::data::CompactSlot,
    ts: TimeSlotTable,
    lp: LunchTable,
) -> bool {
    &&& a.d == b.d
    &&& match (
        lookup_times(a.p, vstd::utf8::encode_utf8(a.s@), ts, lp),
        lookup_times(b.p, vstd::utf8::encode_utf8(b.s@), ts, lp),
    ) {
        (Some((astart, aend)), Some((bstart, bend))) => minutes_of(astart) < minutes_of(bend)
            && minutes_of(aend) > minutes_of(bstart),
        _ => false,
    }
}

/// Whether one slot overlaps any same-day slot of another schedule.
pub fn slot_conflicts_with_schedule(
    slot: &crate::data::CompactSlot,
    other_schedule: &CompactTimetable,
    time_slots: &TimeSlotTable,
    lunch_periods: &LunchTable,
) -> (r: bool)
    ensures
        r == (exists|i: int|
            0 <= i < other_schedule.o@.len() && slots_conflict(
                *slot,
                #[trigger] other_schedule.o@[i],
                *time_slots,
                *lunch_periods,
            )),
{
    let own = get_time_slot_info(slot.d, slot.p, slot.s.as_str(), time_slots, lunch_periods);
    match own {
        Some((slot_start, slot_end)) => {
            let mut i: usize = 0;
            while i < other_schedule.o.len()
                invariant
                    0 <= i <= other_schedule.o@.len(),
                    lookup_times(
                        slot.p,
                        vstd::utf8::encode_utf8(slot.s@),
                        *time_slots,
                        *lunch_periods,
                    ) matches Some((x, y)) && slot_start@ == x && slot_end@ == y,
                    forall|j: int|
                        0 <= j < i ==> !slots_conflict(
                            *slot,
                            #[trigger] other_schedule.o@[j],
                            *time_slots,
                            *lunch_periods,
                        ),
                decreases other_schedule.o@.len() - i,
            {
                let other = &other_schedule.o[i];
                if slot.d == other.d {
                    match get_time_slot_info(
                        other.d,
                        other.p,
                        other.s.as_str(),
                        time_slots,
                        lunch_periods,
                    ) {
                        Some((other_start, other_end)) => {
                            if time_ranges_overlap(
                                slot_start.as_str(),
                                slot_end.as_str(),
                                other_start.as_str(),
                                other_end.as_str(),
                            ) {
                                assert(slots_conflict(
                                    *slot,
                                    other_schedule.o@[i as int],
                                    *time_slots,
                                    *lunch_periods,
                                ));
                                return true;
                            }
                        },
                        None => {},
                    }
                }
                assert(!slots_conflict(
                    *slot,
                    other_schedule.o@[i as int],
                    *time_slots,
                    *lunch_periods,
                ));
                i += 1;
            }
            false
        },
        None => {
            assert forall|i: int|
                0 <= i < other_schedule.o@.len() implies !slots_conflict(
                *slot,
                #[trigger] other_schedule.o@[i],
                *time_slots,
                *lunch_periods,
            ) by {}
            false
        },
    }
}


/// Mathematical image of a [`SlotInfo`].
#[verifier::ext_equal]
pub struct SlotInfoView {
    pub slot_type: Seq<char>,
    pub period: u8,
    pub time_range: Seq<char>,
    pub class_text: Seq<char>,
}

impl View for SlotInfo {
    type V = SlotInfoView;

    open spec fn view(&self) -> SlotInfoView {
        SlotInfoView {
            slot_type: self.slot_type@,
            period: self.period,
            time_range: self.time_range@,
            class_text: self.class_text@,
        }
    }
}

/// Mathematical image of a [`Conflict`].
#[verifier::ext_equal]
pub struct ConflictView {
    pub day: u8,
    pub user1_slot: SlotInfoView,
    pub user2_slot: SlotInfoView,
}

impl View for Conflict {
    type V = ConflictView;

    open spec fn view(&self) -> ConflictView {
        ConflictView { day: self.day, user1_slot: self.user1_slot@, user2_slot: self.user2_slot@ }
    }
}

/// The conflict record's description of one slot: the kind name, the
/// period, the printed `start-end` range and the cell text.
pub open spec fn slot_info_of(
    slot: crate::data::CompactSlot,
    start: Seq<char>,
    end: Seq<char>,
) -> SlotInfoView {
    SlotInfoView {
        slot_type: if is_theory_tag(vstd::utf8::encode_utf8(slot.s@)) {
            "Theory"@
        } else {
            "Lab"@
        },
        period: slot.p,
        time_range: start + "-"@ + end,
        class_text: slot.f@,
    }
}

/// The conflicts of one eligible slot `a` against the tail of `u2` from
/// index `j` on, in schedule order.
pub open spec fn conflicts_against(
    a: crate::data::CompactSlot,
    u2: Seq<crate::data::CompactSlot>,
    day: u8,
    ts: TimeSlotTable,
    lp: LunchTable,
    j: int,
) -> Seq<ConflictView>
    decreases u2.len() - j,
{
    if j < 0 || j >= u2.len() {
        seq![]
    } else {
        let b = u2[j];
        let head: Seq<ConflictView> = if b.d == day && b.p != 0 && slots_conflict(a, b, ts, lp) {
            match (
                lookup_times(a.p, vstd::utf8::encode_utf8(a.s@), ts, lp),
                lookup_times(b.p, vstd::utf8::encode_utf8(b.s@), ts, lp),
            ) {
                (Some((astart, aend)), Some((bstart, bend))) => seq![
                    ConflictView {
                        day,
                        user1_slot: slot_info_of(a, astart, aend),
                        user2_slot: slot_info_of(b, bstart, bend),
                    },
                ],
                _ => seq![],
            }
        } else {
            seq![]
        };
        head + conflicts_against(a, u2, day, ts, lp, j + 1)
    }
}

/// All conflicts of `u1` from index `i` on against `u2`, on `day`, in
/// schedule order.
pub open spec fn day_conflicts(
    u1: Seq<crate::data::CompactSlot>,
    u2: Seq<crate::data::CompactSlot>,
    day: u8,
    ts: TimeSlotTable,
    lp: LunchTable,
    i: int,
) -> Seq<ConflictView>
    decreases u1.len() - i,
{
    if i < 0 || i >= u1.len() {
        seq![]
    } else {
        let a = u1[i];
        let head: Seq<ConflictView> = if a.d == day && a.p != 0 && lookup_times(
            a.p,
            vstd::utf8::encode_utf8(a.s@),
            ts,
            lp,
        ) is Some {
            conflicts_against(a, u2, day, ts, lp, 0)
        } else {
            seq![]
        };
        head + day_conflicts(u1, u2, day, ts, lp, i + 1)
    }
}

/// The kind name a conflict record prints.
fn slot_type_name(s: &String) -> (r: String)
    ensures
        r@ == (if is_theory_tag(vstd::utf8::encode_utf8(s@)) {
            "Theory"@
        } else {
            "Lab"@
        }),
{
    let sb = s.as_str().as_bytes();
    let theory = sb.len() == 1 && sb[0] == 116;
    proof {
        if theory {
            assert(vstd::utf8::encode_utf8(s@) =~= seq![116u8]);
        } else {
            if vstd::utf8::encode_utf8(s@) == seq![116u8] {
                assert(sb@[0] == 116);
            }
        }
    }
    if theory {
        "Theory".to_owned()
    } else {
        "Lab".to_owned()
    }
}

/// The printed `start-end` range.
fn time_range_text(start: &String, end: &String) -> (r: String)
    ensures
        r@ == start@ + "-"@ + end@,
{
    let mut out = start.clone();
    out.append("-");
    out.append(end.as_str());
    out
}

/// Every conflict between two users' slots on one day, each pair in
/// schedule order; lunch entries (period zero) never conflict.
pub fn find_day_conflicts(
    user1_schedule: &CompactTimetable,
    user2_schedule: &CompactTimetable,
    day: u8,
    time_slots: &TimeSlotTable,
    lunch_periods: &LunchTable,
) -> (r: Vec<Conflict>)
    ensures
        r@.map_values(|c: Conflict| c@) == day_conflicts(
            user1_schedule.o@,
            user2_schedule.o@,
            day,
            *time_slots,
            *lunch_periods,
            0,
        ),
{
    let u1 = &user1_schedule.o;
    let u2 = &user2_schedule.o;
    let ghost full = day_conflicts(u1@, u2@, day, *time_slots, *lunch_periods, 0);
    let mut conflicts: Vec<Conflict> = Vec::new();
    let mut i: usize = 0;
    while i < u1.len()
        invariant
            0 <= i <= u1@.len(),
            full == day_conflicts(u1@, u2@, day, *time_slots, *lunch_periods, 0),
            conflicts@.map_values(|c: Conflict| c@) + day_conflicts(
                u1@,
                u2@,
                day,
                *time_slots,
                *lunch_periods,
                i as int,
            ) == full,
        decreases u1@.len() - i,
    {
        let slot1 = &u1[i];
        let ghost before_outer = conflicts@.map_values(|c: Conflict| c@);
        if slot1.d == day && slot1.p != 0 {
            match get_time_slot_info(slot1.d, slot1.p, slot1.s.as_str(), time_slots, lunch_periods)
            {
                Some((slot1_start, slot1_end)) => {
                    let mut j: usize = 0;
                    while j < u2.len()
                        invariant
                            0 <= j <= u2@.len(),
                            full == day_conflicts(u1@, u2@, day, *time_slots, *lunch_periods, 0),
                            0 <= i < u1@.len(),
                            *slot1 == u1@[i as int],
                            u1@[i as int].d == day && u1@[i as int].p != 0,
                            lookup_times(
                                u1@[i as int].p,
                                vstd::utf8::encode_utf8(u1@[i as int].s@),
                                *time_slots,
                                *lunch_periods,
                            ) matches Some((x, y)) && slot1_start@ == x && slot1_end@ == y,
                            conflicts@.map_values(|c: Conflict| c@) + conflicts_against(
                                u1@[i as int],
                                u2@,
                                day,
                                *time_slots,
                                *lunch_periods,
                                j as int,
                            ) + day_conflicts(
                                u1@,
                                u2@,
                                day,
                                *time_slots,
                                *lunch_periods,
                                i + 1,
                            ) == full,
                        decreases u2@.len() - j,
                    {
                        let slot2 = &u2[j];
                        let ghost before = conflicts@.map_values(|c: Conflict| c@);
                        if slot2.d == day && slot2.p != 0 {
                            match get_time_slot_info(
                                slot2.d,
                                slot2.p,
                                slot2.s.as_str(),
                                time_slots,
                                lunch_periods,
                            ) {
                                Some((slot2_start, slot2_end)) => {
                                    if time_ranges_overlap(
                                        slot1_start.as_str(),
                                        slot1_end.as_str(),
                                        slot2_start.as_str(),
                                        slot2_end.as_str(),
                                    ) {
                                        let c = Conflict {
                                            day,
                                            user1_slot: SlotInfo {
                                                slot_type: slot_type_name(&slot1.s),
                                                period: slot1.p,
                                                time_range: time_range_text(
                                                    &slot1_start,
                                                    &slot1_end,
                                                ),
                                                class_text: slot1.f.clone(),
                                            },
                                            user2_slot: SlotInfo {
                                                slot_type: slot_type_name(&slot2.s),
                                                period: slot2.p,
                                                time_range: time_range_text(
                                                    &slot2_start,
                                                    &slot2_end,
                                                ),
                                                class_text: slot2.f.clone(),
                                            },
                                        };
                                        assert(slots_conflict(
                                            u1@[i as int],
                                            u2@[j as int],
                                            *time_slots,
                                            *lunch_periods,
                                        ));
                                        proof {
                                            let a = u1@[i as int];
                                            let b = u2@[j as int];
                                            assert(lookup_times(
                                                a.p,
                                                vstd::utf8::encode_utf8(a.s@),
                                                *time_slots,
                                                *lunch_periods,
                                            ) == Some((slot1_start@, slot1_end@)));
                                            assert(lookup_times(
                                                b.p,
                                                vstd::utf8::encode_utf8(b.s@),
                                                *time_slots,
                                                *lunch_periods,
                                            ) == Some((slot2_start@, slot2_end@)));
                                            assert(c@.user1_slot =~= slot_info_of(
                                                a,
                                                slot1_start@,
                                                slot1_end@,
                                            ));
                                            assert(c@.user2_slot =~= slot_info_of(
                                                b,
                                                slot2_start@,
                                                slot2_end@,
                                            ));
                                            assert(conflicts_against(
                                                a,
                                                u2@,
                                                day,
                                                *time_slots,
                                                *lunch_periods,
                                                j as int,
                                            ) =~= seq![c@] + conflicts_against(
                                                a,
                                                u2@,
                                                day,
                                                *time_slots,
                                                *lunch_periods,
                                                j + 1,
                                            ));
                                        }
                                        conflicts.push(c);
                                        assert(conflicts@.map_values(|x: Conflict| x@)
                                            =~= before.push(conflicts@[conflicts@.len() - 1]@));
                                    } else {
                                        assert(!slots_conflict(
                                            u1@[i as int],
                                            u2@[j as int],
                                            *time_slots,
                                            *lunch_periods,
                                        ));
                                    }
                                },
                                None => {},
                            }
                        }
                        proof {
                            let a = u1@[i as int];
                            assert(before + conflicts_against(
                                a,
                                u2@,
                                day,
                                *time_slots,
                                *lunch_periods,
                                j as int,
                            ) =~= conflicts@.map_values(|c: Conflict| c@) + conflicts_against(
                                a,
                                u2@,
                                day,
                                *time_slots,
                                *lunch_periods,
                                j + 1,
                            ));
                        }
                        j += 1;
                    }
                    proof {
                        let a = u1@[i as int];
                        let now = conflicts@.map_values(|c: Conflict| c@);
                        let calen = conflicts_against(
                            a,
                            u2@,
                            day,
                            *time_slots,
                            *lunch_periods,
                            u2@.len() as int,
                        );
                        let dci1 = day_conflicts(u1@, u2@, day, *time_slots, *lunch_periods, i + 1);
                        assert(calen =~= Seq::<ConflictView>::empty());
                        assert(now + calen =~= now);
                        assert(now + dci1 == full);
                    }
                },
                None => {},
            }
        }
        proof {
            let dci1 = day_conflicts(u1@, u2@, day, *time_slots, *lunch_periods, i + 1);
            let a = u1@[i as int];
            if !(a.d == day && a.p != 0 && lookup_times(
                a.p,
                vstd::utf8::encode_utf8(a.s@),
                *time_slots,
                *lunch_periods,
            ) is Some) {
                assert(day_conflicts(u1@, u2@, day, *time_slots, *lunch_periods, i as int)
                    =~= Seq::<ConflictView>::empty() + dci1);
                assert(Seq::<ConflictView>::empty() + dci1 =~= dci1);
            }
            assert(conflicts@.map_values(|c: Conflict| c@) + dci1 == full);
        }
        i += 1;
    }
    proof {
        assert(day_conflicts(u1@, u2@, day, *time_slots, *lunch_periods, u1@.len() as int)
            =~= Seq::<ConflictView>::empty());
        assert(conflicts@.map_values(|c: Conflict| c@) + Seq::<ConflictView>::empty()
            =~= conflicts@.map_values(|c: Conflict| c@));
    }
    conflicts
}

} // verus!
