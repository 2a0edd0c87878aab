use randgen::progress::{Meter, ProgressState};

#[test]
fn the_counter_adds_up_to_its_total() {
    let mut p = ProgressState::new(Some(100));
    let mut last = 0;
    for step in [24, 24, 24, 24, 4] {
        p.increment(step);
        assert!(p.done >= last);
        last = p.done;
    }
    assert_eq!(p.done, 100);
}

#[test]
fn the_counter_stops_at_its_total() {
    let mut p = ProgressState::new(Some(10));
    p.increment(7);
    p.increment(7);
    assert_eq!(p.done, 10);
    let mut p = ProgressState::new(None);
    p.increment(usize::MAX);
    p.increment(1);
    assert_eq!(p.done, usize::MAX);
}

#[test]
fn templates() {
    assert_eq!(
        Meter::BinaryBytes.template(),
        "{percent}% {bar:40.cyan/blue} {bytes_per_sec:.green} {bytes:.yellow}/{total_bytes:.magenta} ({eta:.cyan})"
    );
    assert_eq!(
        Meter::DecimalBytes.template(),
        "{percent}% {bar:40.cyan/blue} {decimal_bytes_per_sec:.green} {decimal_bytes:.yellow}/{decimal_total_bytes:.magenta} ({eta:.cyan})"
    );
    assert_eq!(
        Meter::Items.template(),
        "{percent}% {bar:40.cyan/blue} {human_pos:.yellow}/{human_len:.magenta} ({eta:.cyan})"
    );
}
