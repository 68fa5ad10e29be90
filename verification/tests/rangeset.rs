use rv::rangeset::{Error, RangeSet};

fn intervals(set: &RangeSet) -> Vec<(u32, u32)> {
    let mut out = Vec::new();
    let mut i = 0;
    while let Some(r) = set.get(i) {
        out.push(r);
        i += 1;
    }
    assert_eq!(out.len(), set.len());
    out
}

#[test]
fn rangeset() {
    let mut rs = RangeSet::new(0, 1024);
    println!("{rs:?}");
    assert!(rs.remove(0, 512).is_ok());
    println!("{rs:?}");

    let mut rs = RangeSet::new(0, 1024);
    println!("{rs:?}");
    assert!(rs.remove(1, 512).is_ok());
    println!("{rs:?}");

    let mut rs = RangeSet::new(0, 1024);
    println!("{rs:?}");
    assert!(rs.remove(512, 1024).is_ok());
    println!("{rs:?}");

    let mut rs = RangeSet::new(0, 1024);
    println!("{rs:?}");
    assert!(rs.remove(512, 1025).is_err());
    println!("{rs:?}");

    let mut rs = RangeSet::new(0, 1024);
    println!("{rs:?}");
    assert!(rs.remove_first_fit(512).is_ok());
    println!("{rs:?}");
    assert!(rs.remove_first_fit(12).is_ok());
    println!("{rs:?}");
}

#[test]
fn new_holds_one_interval() {
    let rs = RangeSet::new(16, 64);
    assert_eq!(intervals(&rs), vec![(16, 64)]);
    assert_eq!(rs.get(1), None);
}

#[test]
fn remove_from_the_bottom_truncates() {
    let mut rs = RangeSet::new(0, 1024);
    assert_eq!(rs.remove(0, 512), Ok(()));
    assert_eq!(intervals(&rs), vec![(512, 1024)]);
}

#[test]
fn remove_from_the_top_truncates() {
    let mut rs = RangeSet::new(0, 1024);
    assert_eq!(rs.remove(512, 1024), Ok(()));
    assert_eq!(intervals(&rs), vec![(0, 512)]);
}

#[test]
fn remove_in_the_middle_splits_in_place() {
    let mut rs = RangeSet::new(0, 1024);
    assert_eq!(rs.remove(1, 512), Ok(()));
    assert_eq!(intervals(&rs), vec![(0, 1), (512, 1024)]);
    assert_eq!(rs.remove(600, 700), Ok(()));
    assert_eq!(intervals(&rs), vec![(0, 1), (512, 600), (700, 1024)]);
    assert_eq!(rs.remove(0, 1), Ok(()));
    assert_eq!(intervals(&rs), vec![(512, 600), (700, 1024)]);
}

#[test]
fn remove_whole_interval_drops_it() {
    let mut rs = RangeSet::new(8, 16);
    assert_eq!(rs.remove(8, 16), Ok(()));
    assert_eq!(rs.len(), 0);
}

#[test]
fn remove_outside_fails_and_changes_nothing() {
    let mut rs = RangeSet::new(0, 1024);
    assert_eq!(rs.remove(512, 1025), Err(Error::OutOfBounds));
    assert_eq!(rs.remove(1024, 1024), Err(Error::OutOfBounds));
    assert_eq!(rs.remove(2000, 2001), Err(Error::OutOfBounds));
    assert_eq!(intervals(&rs), vec![(0, 1024)]);
}

#[test]
fn remove_across_a_gap_fails() {
    let mut rs = RangeSet::new(0, 100);
    assert_eq!(rs.remove(40, 60), Ok(()));
    assert_eq!(rs.remove(30, 70), Err(Error::OutOfBounds));
    assert_eq!(intervals(&rs), vec![(0, 40), (60, 100)]);
}

#[test]
fn first_fit_of_fresh_set_returns_its_bottom() {
    let mut rs = RangeSet::new(100, 1000);
    assert_eq!(rs.remove_first_fit(300), Ok((100, 400)));
    assert_eq!(intervals(&rs), vec![(400, 1000)]);
}

#[test]
fn first_fit_of_the_whole_interval_empties_the_set() {
    let mut rs = RangeSet::new(100, 1000);
    assert_eq!(rs.remove_first_fit(900), Ok((100, 1000)));
    assert_eq!(rs.len(), 0);
    assert_eq!(rs.remove_first_fit(1), Err(Error::NoFit));
}

#[test]
fn first_fit_of_nothing_in_an_empty_interval() {
    let mut rs = RangeSet::new(7, 7);
    assert_eq!(rs.remove_first_fit(0), Ok((7, 7)));
    assert_eq!(rs.len(), 0);
}

#[test]
fn first_fit_skips_intervals_that_are_too_short() {
    let mut rs = RangeSet::new(0, 100);
    assert_eq!(rs.remove(10, 90), Ok(()));
    assert_eq!(intervals(&rs), vec![(0, 10), (90, 100)]);
    assert_eq!(rs.remove(94, 95), Ok(()));
    assert_eq!(intervals(&rs), vec![(0, 10), (90, 94), (95, 100)]);
    assert_eq!(rs.remove_first_fit(5), Ok((0, 5)));
    assert_eq!(rs.remove_first_fit(5), Ok((5, 10)));
    assert_eq!(rs.remove_first_fit(5), Ok((95, 100)));
    assert_eq!(intervals(&rs), vec![(90, 94)]);
    assert_eq!(rs.remove_first_fit(5), Err(Error::NoFit));
    assert_eq!(intervals(&rs), vec![(90, 94)]);
}

#[test]
fn first_fit_no_fit_fails() {
    let mut rs = RangeSet::new(0, 16);
    assert_eq!(rs.remove_first_fit(17), Err(Error::NoFit));
    assert_eq!(intervals(&rs), vec![(0, 16)]);
}

#[test]
fn inverted_interval_fits_nothing() {
    let mut rs = RangeSet::new(10, 5);
    assert_eq!(rs.remove_first_fit(0), Err(Error::NoFit));
    assert_eq!(rs.remove(7, 8), Err(Error::OutOfBounds));
}

#[test]
fn first_fits_until_exhausted_hand_out_everything() {
    let (a, b) = (4096u32, 4096 + 1000);
    let mut rs = RangeSet::new(a, b);
    let mut removed = 0u32;
    let mut expected_start = a;
    for k in [1u32, 99, 400, 250, 250] {
        let (start, end) = rs.remove_first_fit(k).unwrap();
        assert_eq!(start, expected_start);
        assert_eq!(end, start + k);
        expected_start = end;
        removed += k;
    }
    assert_eq!(removed, b - a);
    assert_eq!(rs.len(), 0);
    assert_eq!(rs.remove_first_fit(1), Err(Error::NoFit));
}

#[test]
fn top_of_the_address_space() {
    let mut rs = RangeSet::new(0, u32::MAX);
    assert_eq!(rs.remove_first_fit(u32::MAX), Ok((0, u32::MAX)));
    assert_eq!(rs.len(), 0);
}
