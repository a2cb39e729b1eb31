use vfriend::bitmap::{build_bitmap, build_kindmap, current_period_at, currentbit};
use vfriend::data::CompactSlot;

fn slot(d: u8, s: &str, p: u8) -> CompactSlot {
    CompactSlot { d, s: s.to_string(), p, f: "class".to_string() }
}

#[test]
fn bitmap_marks_exactly_the_occupied_periods() {
    let schedule = vec![slot(1, "t", 1), slot(1, "l", 12), slot(2, "t", 5), slot(1, "t", 0)];
    let bitmap = build_bitmap(schedule, 1);
    assert_eq!(bitmap.len(), 12);
    assert!(bitmap[0]);
    assert!(bitmap[11]);
    // period 5 belongs to day 2, period 0 is out of range
    assert!(!bitmap[4]);
    assert_eq!(bitmap.iter().filter(|&&b| b).count(), 2);
}

#[test]
fn kindmap_remembers_the_last_writer() {
    let schedule = vec![slot(1, "t", 3), slot(1, "l", 3), slot(1, "l", 7), slot(1, "t", 7)];
    let kindmap = build_kindmap(schedule, 1);
    assert!(kindmap[2], "the lab entry wrote last");
    assert!(!kindmap[6], "the theory entry wrote last");
    assert!(!kindmap[0], "untouched periods read as theory");
}

#[test]
fn period_lookup_follows_the_clock() {
    let busy = [true; 12];
    let theory = [false; 12];
    let lab = [true; 12];
    // 08:10 = 490 falls in period one either way
    assert_eq!(current_period_at(&busy, &theory, 490), 1);
    // 08:52 = 532: between theory periods, inside lab period two
    assert_eq!(current_period_at(&busy, &theory, 532), 0);
    assert_eq!(current_period_at(&busy, &lab, 532), 2);
    // 13:30 = 810 is the lunch window
    assert_eq!(current_period_at(&busy, &theory, 810), 13);
    // a free period reports no active period
    let mut partly = [true; 12];
    partly[0] = false;
    assert_eq!(current_period_at(&partly, &theory, 490), 0);
    // late evening is past every period
    assert_eq!(current_period_at(&busy, &theory, 1200), 0);
}

#[test]
fn current_period_is_always_a_period_code() {
    let v = currentbit([true; 12], [false; 12]).expect("the lookup itself cannot fail");
    assert!(v <= 13);
}
