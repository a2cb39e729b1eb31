//! Day bitmaps: a student's day as twelve period flags, the kind map
//! telling lab periods from theory periods, and the current-period
//! lookup against the wall clock.

use crate::data::CompactSlot;
use vstd::prelude::*;

verus! {

/// One schedule entry, as the status queries take them.
#[derive(Clone, Debug, PartialEq, Eq)]
pub struct ScheduleEntry {
    pub d: u8,
    pub s: String,
    pub p: u8,
    pub f: String,
}

/// A student's availability at one moment.
#[derive(Clone, Debug, PartialEq, Eq)]
pub struct UserStatus {
    pub name: String,
    pub available: bool,
    pub location: String,
    pub time: String,
}

/// A free stretch between two printed times.
#[derive(Clone, Debug, PartialEq, Eq)]
pub struct FreeTimeSlot {
    pub start: String,
    pub end: String,
}

/// How many free minutes a student has, by identity.
#[derive(Clone, Debug, PartialEq, Eq)]
pub struct StudentFreeTime {
    pub student_id: String,
    pub free_minutes: u32,
}

/// The lab kind tag `"l"`, over UTF-8 bytes.
pub open spec fn is_lab_tag(b: Seq<u8>) -> bool {
    b == seq![108u8]
}

/// Whether any of the first `upto` slots occupies period `j + 1` of
/// `day`.
pub open spec fn day_occupied(s: Seq<CompactSlot>, day: u8, j: int, upto: int) -> bool
    decreases upto,
{
    if upto <= 0 || upto > s.len() {
        false
    } else {
        (s[upto - 1].d == day && 1 <= s[upto - 1].p <= 12 && s[upto - 1].p == j + 1)
            || day_occupied(s, day, j, upto - 1)
    }
}

/// The kind written last into period `j + 1` of `day` by the first
/// `upto` slots: lab is true, theory or no entry false.
pub open spec fn day_kind(s: Seq<CompactSlot>, day: u8, j: int, upto: int) -> bool
    decreases upto,
{
    if upto <= 0 || upto > s.len() {
        false
    } else if s[upto - 1].d == day && 1 <= s[upto - 1].p <= 12 && s[upto - 1].p == j + 1 {
        is_lab_tag(vstd::utf8::encode_utf8(s[upto - 1].s@))
    } else {
        day_kind(s, day, j, upto - 1)
    }
}

/// Twelve flags for one day: true where a slot occupies the period.
pub fn build_bitmap(schedule: Vec<CompactSlot>, target_day: u8) -> (r: Vec<bool>)
    ensures
        r@.len() == 12,
        forall|j: int|
            0 <= j < 12 ==> r@[j] == day_occupied(
                schedule@,
                target_day,
                j,
                schedule@.len() as int,
            ),
{
    let mut bitmap: Vec<bool> = Vec::new();
    let mut j: usize = 0;
    while j < 12
        invariant
            bitmap@.len() == j <= 12,
            forall|t: int| 0 <= t < j ==> !bitmap@[t],
        decreases 12 - j,
    {
        bitmap.push(false);
        j += 1;
    }
    let mut i: usize = 0;
    while i < schedule.len()
        invariant
            0 <= i <= schedule@.len(),
            bitmap@.len() == 12,
            forall|t: int|
                0 <= t < 12 ==> bitmap@[t] == day_occupied(schedule@, target_day, t, i as int),
        decreases schedule@.len() - i,
    {
        let slot = &schedule[i];
        if slot.d == target_day && 1 <= slot.p && slot.p <= 12 {
            bitmap.set((slot.p - 1) as usize, true);
        }
        assert forall|t: int|
            0 <= t < 12 implies bitmap@[t] == day_occupied(
            schedule@,
            target_day,
            t,
            i + 1,
        ) by {}
        i += 1;
    }
    bitmap
}

/// Twelve kind flags for one day: true where the period's last entry is
/// a lab.
pub fn build_kindmap(schedule: Vec<CompactSlot>, target_day: u8) -> (r: Vec<bool>)
    ensures
        r@.len() == 12,
        forall|j: int|
            0 <= j < 12 ==> r@[j] == day_kind(schedule@, target_day, j, schedule@.len() as int),
{
    let mut kindmap: Vec<bool> = Vec::new();
    let mut j: usize = 0;
    while j < 12
        invariant
            kindmap@.len() == j <= 12,
            forall|t: int| 0 <= t < j ==> !kindmap@[t],
        decreases 12 - j,
    {
        kindmap.push(false);
        j += 1;
    }
    let mut i: usize = 0;
    while i < schedule.len()
        invariant
            0 <= i <= schedule@.len(),
            kindmap@.len() == 12,
            forall|t: int|
                0 <= t < 12 ==> kindmap@[t] == day_kind(schedule@, target_day, t, i as int),
        decreases schedule@.len() - i,
    {
        let slot = &schedule[i];
        if slot.d == target_day && 1 <= slot.p && slot.p <= 12 {
            let sb = slot.s.as_str().as_bytes();
            let lab = sb.len() == 1 && sb[0] == 108;
            proof {
                if lab {
                    assert(vstd::utf8::encode_utf8(slot.s@) =~= seq![108u8]);
                } else {
                    if vstd::utf8::encode_utf8(slot.s@) == seq![108u8] {
                        assert(sb@[0] == 108);
                    }
                }
            }
            kindmap.set((slot.p - 1) as usize, lab);
        }
        assert forall|t: int|
            0 <= t < 12 implies kindmap@[t] == day_kind(schedule@, target_day, t, i + 1) by {}
        i += 1;
    }
    kindmap
}

/// Start of period `i` (zero-based), in minutes since midnight, for the
/// kind given by `lab`.
pub open spec fn period_start_min(lab: bool, i: int) -> int {
    if lab {
        if i == 0 { 480 } else if i == 1 { 530 } else if i == 2 { 590 }
        else if i == 3 { 640 } else if i == 4 { 700 } else if i == 5 { 750 }
        else if i == 6 { 840 } else if i == 7 { 890 } else if i == 8 { 950 }
        else if i == 9 { 1000 } else if i == 10 { 1060 } else { 1110 }
    } else {
        if i == 0 { 480 } else if i == 1 { 535 } else if i == 2 { 590 }
        else if i == 3 { 645 } else if i == 4 { 700 } else if i == 5 { 755 }
        else if i == 6 { 840 } else if i == 7 { 895 } else if i == 8 { 950 }
        else if i == 9 { 1005 } else if i == 10 { 1060 } else { 1115 }
    }
}

/// End of period `i` (zero-based), in minutes since midnight.
pub open spec fn period_end_min(lab: bool, i: int) -> int {
    if lab {
        if i == 0 { 530 } else if i == 1 { 580 } else if i == 2 { 640 }
        else if i == 3 { 690 } else if i == 4 { 750 } else if i == 5 { 800 }
        else if i == 6 { 890 } else if i == 7 { 940 } else if i == 8 { 1000 }
        else if i == 9 { 1050 } else if i == 10 { 1110 } else { 1160 }
    } else {
        if i == 0 { 530 } else if i == 1 { 585 } else if i == 2 { 640 }
        else if i == 3 { 695 } else if i == 4 { 750 } else if i == 5 { 805 }
        else if i == 6 { 890 } else if i == 7 { 945 } else if i == 8 { 1000 }
        else if i == 9 { 1055 } else if i == 10 { 1110 } else { 1165 }
    }
}

/// Both bounds of period `i`, executable.
fn period_bounds(lab: bool, i: usize) -> (r: (u32, u32))
    requires
        i < 12,
    ensures
        r.0 as int == period_start_min(lab, i as int),
        r.1 as int == period_end_min(lab, i as int),
{
    if lab {
        if i == 0 { (480, 530) } else if i == 1 { (530, 580) } else if i == 2 { (590, 640) }
        else if i == 3 { (640, 690) } else if i == 4 { (700, 750) } else if i == 5 { (750, 800) }
        else if i == 6 { (840, 890) } else if i == 7 { (890, 940) } else if i == 8 { (950, 1000) }
        else if i == 9 { (1000, 1050) } else if i == 10 { (1060, 1110) } else { (1110, 1160) }
    } else {
        if i == 0 { (480, 530) } else if i == 1 { (535, 585) } else if i == 2 { (590, 640) }
        else if i == 3 { (645, 695) } else if i == 4 { (700, 750) } else if i == 5 { (755, 805) }
        else if i == 6 { (840, 890) } else if i == 7 { (895, 945) } else if i == 8 { (950, 1000) }
        else if i == 9 { (1005, 1055) } else if i == 10 { (1060, 1110) } else { (1115, 1165) }
    }
}

/// The period code for a moment: the first busy period covering it
/// (one-based), 13 during the theory lunch window, 0 otherwise.
pub open spec fn period_code(bitmap: Seq<bool>, kindmap: Seq<bool>, now: int, i: int) -> int
    decreases 12 - i,
{
    if i < 0 || i >= 12 {
        if 805 <= now < 840 {
            13
        } else {
            0
        }
    } else if i < bitmap.len() && i < kindmap.len() && period_start_min(kindmap[i], i) <= now && now
        < period_end_min(kindmap[i], i) && bitmap[i] {
        i + 1
    } else {
        period_code(bitmap, kindmap, now, i + 1)
    }
}

/// The period the moment `now` falls in, against the day's bitmap and
/// kind map.
pub fn current_period_at(bitmap: &[bool; 12], kindmap: &[bool; 12], now: u32) -> (r: u8)
    ensures
        r as int == period_code(bitmap@, kindmap@, now as int, 0),
{
    let mut i: usize = 0;
    while i < 12
        invariant
            0 <= i <= 12,
            period_code(bitmap@, kindmap@, now as int, 0) == period_code(
                bitmap@,
                kindmap@,
                now as int,
                i as int,
            ),
        decreases 12 - i,
    {
        let (start, end) = period_bounds(kindmap[i], i);
        if now >= start && now < end && bitmap[i] {
            return (i + 1) as u8;
        }
        i += 1;
    }
    if 805 <= now && now < 840 {
        13
    } else {
        0
    }
}

/// Relies on `chrono::Local::now`: whatever moment the clock reports,
/// its hour is below 24 and its minute below 60.
#[verifier::external_body]
fn now_minute_of_day() -> (r: u32)
    ensures
        r < 1440,
{
    let t = chrono::Local::now().time();
    chrono::Timelike::hour(&t) * 60 + chrono::Timelike::minute(&t)
}

/// The period code for this very moment: whatever the clock reports, the
/// result is the period code of some minute of the day.
pub fn currentbit(bitmap: [bool; 12], kindmap: [bool; 12]) -> (r: Result<u8, String>)
    ensures
        r matches Ok(v) && (exists|now: int|
            0 <= now < 1440 && v as int == period_code(bitmap@, kindmap@, now, 0)),
{
    let now = now_minute_of_day();
    let v = current_period_at(&bitmap, &kindmap, now);
    assert(v as int == period_code(bitmap@, kindmap@, now as int, 0));
    Ok(v)
}

} // verus!
