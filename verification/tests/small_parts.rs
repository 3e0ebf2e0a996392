use amity_fx::assets::reserve_amount;
use amity_fx::error::IndexError;
use amity_fx::redraw::needs_redraw;

#[test]
fn index_error_text() {
    assert_eq!(IndexError::Overflow.to_string(), "[overflow]");
    assert_eq!(IndexError::Value(0).to_string(), "0");
    assert_eq!(IndexError::Value(1204).to_string(), "1204");
    assert_eq!(IndexError::Value(usize::MAX).to_string(), usize::MAX.to_string());
}

#[test]
fn reservation_doubles() {
    assert_eq!(reserve_amount(0), 1);
    assert_eq!(reserve_amount(1), 1);
    assert_eq!(reserve_amount(2), 2);
    assert_eq!(reserve_amount(40), 40);
}

#[test]
fn redraw_when_anything_changed() {
    assert!(!needs_redraw(false, &[]));
    assert!(needs_redraw(true, &[]));
    assert!(!needs_redraw(false, &[false, false]));
    assert!(needs_redraw(false, &[false, true, false]));
}
