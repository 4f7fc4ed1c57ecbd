use mission_centre_pg::clock::{Moment, Span};

#[test]
fn time_since_an_earlier_moment_is_the_difference() {
    let a = Moment { nanos: 5 };
    let b = Moment { nanos: 12 };
    assert_eq!(b.duration_since(a), Span { nanos: 7 });
}

#[test]
fn time_since_a_later_moment_saturates_at_zero() {
    let a = Moment { nanos: 5 };
    let b = Moment { nanos: 12 };
    assert_eq!(a.duration_since(b), Span { nanos: 0 });
}

#[test]
fn spans_are_counted_in_nanoseconds() {
    assert_eq!(Span::from_secs(2), Span { nanos: 2_000_000_000 });
    assert_eq!(Span::from_millis(1500), Span { nanos: 1_500_000_000 });
}
