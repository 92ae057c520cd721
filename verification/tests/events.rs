use octothorpe::events::{LoopableEvent, LoopablePatternEvent};

fn new(start: u32, stop: Option<u32>) -> LoopablePatternEvent {
    LoopablePatternEvent { start, stop, pattern: 0 }
}

#[test]
fn contains() {
    let no_end = new(0, None);
    let normal = new(50, Some(150));
    let looping = new(150, Some(50));

    assert_eq!(no_end.contains(&normal, 200), false);
    assert_eq!(no_end.contains(&looping, 200), false);
    assert_eq!(normal.contains(&looping, 200), false);
    assert_eq!(normal.contains(&no_end, 200), false);
    assert_eq!(normal.contains(&new(50, Some(100)), 200), true);
    assert_eq!(normal.contains(&new(100, Some(150)), 200), true);
    assert_eq!(normal.contains(&new(50, Some(150)), 200), true);
    assert_eq!(normal.contains(&new(50, Some(150)), 200), true);
    assert_eq!(looping.contains(&new(50, Some(150)), 200), false);
    assert_eq!(looping.contains(&new(150, Some(170)), 200), true);
    assert_eq!(looping.contains(&new(20, Some(50)), 200), true);
    assert_eq!(looping.contains(&new(160, Some(40)), 200), true);
    assert_eq!(looping.contains(&new(150, Some(50)), 200), true);
    assert_eq!(looping.contains(&new(120, Some(50)), 200), false);
    assert_eq!(looping.contains(&new(150, None), 200), false);
}

#[test]
fn resize_to_fit() {
    let mut event = new(50, Some(150));
    let split = event.resize_to_fit(&new(100, Some(150)), 200);
    assert_eq!((50, Some(100)), (event.start, event.stop));
    assert_eq!(true, split.is_none());

    let mut event = new(50, Some(150));
    let split = event.resize_to_fit(&new(0, Some(30)), 200);
    assert_eq!((50, Some(150)), (event.start, event.stop));
    assert_eq!(true, split.is_none());

    let mut event = new(50, Some(150));
    let split = event.resize_to_fit(&new(50, Some(100)), 200);
    assert_eq!((100, Some(150)), (event.start, event.stop));
    assert_eq!(true, split.is_none());

    let mut event = new(150, Some(50));
    let split = event.resize_to_fit(&new(100, Some(170)), 200);
    assert_eq!((170, Some(50)), (event.start, event.stop));
    assert_eq!(true, split.is_none());

    let mut event = new(150, Some(50));
    let split = event.resize_to_fit(&new(40, Some(100)), 200);
    assert_eq!((150, Some(40)), (event.start, event.stop));
    assert_eq!(true, split.is_none());

    let mut event = new(150, Some(50));
    let split = event.resize_to_fit(&new(60, Some(100)), 200);
    assert_eq!((150, Some(50)), (event.start, event.stop));
    assert_eq!(true, split.is_none());

    let mut event = new(50, Some(150));
    let split = event.resize_to_fit(&new(80, Some(100)), 200);
    assert_eq!((50, Some(80)), (event.start, event.stop));
    assert_eq!(Some((100, Some(150))), split.and_then(|e| Some((e.start, e.stop))));

    let mut event = new(150, Some(50));
    let split = event.resize_to_fit(&new(20, Some(40)), 200);
    assert_eq!((150, Some(20)), (event.start, event.stop));
    assert_eq!(Some((40, Some(50))), split.and_then(|e| Some((e.start, e.stop))));

    let mut event = new(150, Some(50));
    let split = event.resize_to_fit(&new(170, Some(40)), 200);
    assert_eq!((150, Some(170)), (event.start, event.stop));
    assert_eq!(Some((40, Some(50))), split.and_then(|e| Some((e.start, e.stop))));

    let mut event = new(150, Some(50));
    let split = event.resize_to_fit(&new(160, Some(180)), 200);
    assert_eq!((150, Some(160)), (event.start, event.stop));
    assert_eq!(Some((180, Some(50))), split.and_then(|e| Some((e.start, e.stop))));
}

#[test]
fn an_event_round_the_whole_loop_contains_every_stopped_event() {
    let whole = new(20, Some(20));
    assert_eq!(whole.contains(&new(10, Some(30)), 200), true);
    assert_eq!(whole.contains(&new(150, Some(50)), 200), true);
    assert_eq!(whole.contains(&new(10, None), 200), false);
    // A span stopping at 0 covers nothing past the end, so a plain span to the end holds it
    assert_eq!(new(100, Some(200)).contains(&new(150, Some(0)), 200), true);
    assert_eq!(new(160, Some(200)).contains(&new(150, Some(0)), 200), false);
}

#[test]
fn what_follows_an_event_stopping_at_the_end_starts_at_zero() {
    let mut event = new(150, Some(50));
    let split = event.resize_to_fit(&new(160, Some(200)), 200);
    assert_eq!((150, Some(160)), (event.start, event.stop));
    assert_eq!(Some((0, Some(50))), split.map(|e| (e.start, e.stop)));

    let mut event = new(150, Some(50));
    let split = event.resize_to_fit(&new(40, Some(200)), 200);
    assert_eq!((0, Some(40)), (event.start, event.stop));
    assert!(split.is_none());
}
