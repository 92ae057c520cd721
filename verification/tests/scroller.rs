use octothorpe::scroller::Scroller;

#[test]
fn letters_are_three_leds_wide_and_others_one() {
    assert_eq!(Scroller::get_letter('h'), vec![1, 0, 1, 1, 0, 1, 1, 1, 1, 1, 0, 1, 1, 0, 1]);
    assert_eq!(Scroller::get_letter(' '), vec![0; 9]);
}

#[test]
fn text_rows_hold_letter_rows_with_spacing() {
    // "h" then a space: each row is 3 leds of h, a dark led, 1 dark led of the space, a dark led
    let leds = Scroller::get_text_as_vector(String::from("h "));
    assert_eq!(leds.len(), 30);
    assert_eq!(&leds[0..6], &[1, 0, 1, 0, 0, 0]);
    assert_eq!(&leds[12..18], &[1, 1, 1, 0, 0, 0]);
}

#[test]
fn frames_scroll_one_column_and_repeat() {
    let mut scroller = Scroller::new(String::from("t"));
    // "t" and two spaces: 4 + 2 + 2 columns wide
    let first = scroller.get_frame();
    assert_eq!(first.len(), 40);
    // The first column is the left column of the t, top to bottom
    assert_eq!(&first[0..5], &[1, 0, 0, 0, 0]);
    assert_eq!(&first[5..10], &[1, 1, 1, 1, 1]);
    scroller.next_frame();
    let second = scroller.get_frame();
    assert_eq!(&second[0..35], &first[5..40]);
    for _ in 1..8 {
        scroller.next_frame();
    }
    assert_eq!(scroller.get_frame(), first);
}
