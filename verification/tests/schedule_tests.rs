use vfriend::data::CompactSlot;
use vfriend::schedule::{
    get_time_slot_info, initialize_lunch_periods, initialize_time_slots, is_user_free_at,
    slot_conflicts_with_schedule, time_ranges_overlap, time_to_minutes, CompactTimetable,
};

fn slot(d: u8, s: &str, p: u8, f: &str) -> CompactSlot {
    CompactSlot { d, s: s.to_string(), p, f: f.to_string() }
}

fn timetable(slots: Vec<CompactSlot>) -> CompactTimetable {
    CompactTimetable { u: "u".to_string(), t: "t".to_string(), o: slots }
}

#[test]
fn time_to_minutes_parses_clock_times() {
    assert_eq!(time_to_minutes("08:30"), 510);
    assert_eq!(time_to_minutes("00:00"), 0);
    assert_eq!(time_to_minutes("19:25"), 1165);
    assert_eq!(time_to_minutes("24:00"), 1440);
}

#[test]
fn time_to_minutes_flags_special_and_malformed_input() {
    assert_eq!(time_to_minutes("Lunch"), -1);
    assert_eq!(time_to_minutes("not a time"), -1);
    assert_eq!(time_to_minutes("1:2:3"), -1);
    assert_eq!(time_to_minutes(""), -1);
    assert_eq!(time_to_minutes("08:"), -1);
    assert_eq!(time_to_minutes(":30"), -1);
    // a component beyond i32 is a parse failure
    assert_eq!(time_to_minutes("2147483648:00"), -1);
}

#[test]
fn time_to_minutes_accepts_signs_and_leading_zeros() {
    // str::parse::<i32> accepts both, so the original did too
    assert_eq!(time_to_minutes("008:005"), 485);
    assert_eq!(time_to_minutes("+1:+1"), 61);
    assert_eq!(time_to_minutes("-1:30"), -30);
}

#[test]
fn overlap_is_strict_on_shared_endpoints() {
    assert!(time_ranges_overlap("08:00", "08:50", "08:30", "09:00"));
    assert!(!time_ranges_overlap("08:00", "08:50", "08:50", "09:40"));
    assert!(time_ranges_overlap("08:00", "09:00", "08:10", "08:20"));
    assert!(!time_ranges_overlap("08:00", "08:10", "09:00", "09:10"));
}

#[test]
fn the_tables_hold_the_standard_timings() {
    let slots = initialize_time_slots();
    assert_eq!(slots.theory.len(), 12);
    assert_eq!(slots.lab.len(), 12);
    assert_eq!(slots.theory[0].start_time, "08:00");
    assert_eq!(slots.theory[0].end_time, "08:50");
    assert_eq!(slots.theory[11].start_time, "18:35");
    assert_eq!(slots.theory[11].end_time, "19:25");
    assert_eq!(slots.lab[5].start_time, "12:30");
    assert_eq!(slots.lab[5].end_time, "13:20");
    assert_eq!(slots.lab[11].end_time, "19:20");
    let lunch = initialize_lunch_periods();
    assert_eq!(lunch.theory.start, "13:25");
    assert_eq!(lunch.theory.end, "14:00");
    assert_eq!(lunch.lab.start, "13:20");
    assert_eq!(lunch.lab.end, "14:00");
}

#[test]
fn slot_lookup_covers_lunch_periods_and_misses() {
    let slots = initialize_time_slots();
    let lunch = initialize_lunch_periods();
    assert_eq!(
        get_time_slot_info(1, 0, "t", &slots, &lunch),
        Some(("13:25".to_string(), "14:00".to_string()))
    );
    assert_eq!(
        get_time_slot_info(1, 0, "l", &slots, &lunch),
        Some(("13:20".to_string(), "14:00".to_string()))
    );
    assert_eq!(
        get_time_slot_info(2, 1, "t", &slots, &lunch),
        Some(("08:00".to_string(), "08:50".to_string()))
    );
    assert_eq!(
        get_time_slot_info(2, 2, "l", &slots, &lunch),
        Some(("08:50".to_string(), "09:40".to_string()))
    );
    assert_eq!(get_time_slot_info(2, 13, "t", &slots, &lunch), None);
}

#[test]
fn a_user_is_busy_inside_an_occupied_slot() {
    let slots = initialize_time_slots();
    let lunch = initialize_lunch_periods();
    let tt = timetable(vec![slot(1, "t", 1, "math")]);
    assert!(!is_user_free_at(&tt, 1, "08:10", &slots, &lunch));
    assert!(is_user_free_at(&tt, 1, "09:00", &slots, &lunch));
    // a slot on another day does not block
    assert!(is_user_free_at(&tt, 2, "08:10", &slots, &lunch));
}

#[test]
fn lunch_is_always_free() {
    let slots = initialize_time_slots();
    let lunch = initialize_lunch_periods();
    // even against a slot that covers the early afternoon
    let tt = timetable(vec![slot(1, "t", 6, "long class")]);
    assert!(is_user_free_at(&tt, 1, "13:30", &slots, &lunch));
}

#[test]
fn overlapping_slots_of_one_day_conflict() {
    let slots = initialize_time_slots();
    let lunch = initialize_lunch_periods();
    // theory period 2 (08:55-09:45) overlaps lab period 2 (08:50-09:40)
    let mine = slot(3, "t", 2, "mine");
    let theirs = timetable(vec![slot(3, "l", 2, "theirs")]);
    assert!(slot_conflicts_with_schedule(&mine, &theirs, &slots, &lunch));
    // the same pair on different days does not
    let elsewhere = timetable(vec![slot(4, "l", 2, "theirs")]);
    assert!(!slot_conflicts_with_schedule(&mine, &elsewhere, &slots, &lunch));
    // disjoint periods do not conflict
    let later = timetable(vec![slot(3, "t", 9, "theirs")]);
    assert!(!slot_conflicts_with_schedule(&mine, &later, &slots, &lunch));
}
