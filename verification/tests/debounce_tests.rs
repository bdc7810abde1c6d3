use convay::debounce::KeyRepeat;

#[test]
fn first_press_fires_immediately() {
    let mut k = KeyRepeat::new();
    assert!(k.poll(1000, true));
}

#[test]
fn held_key_stays_silent_during_initial_delay() {
    let mut k = KeyRepeat::new();
    assert!(k.poll(0, true));
    assert!(!k.poll(100, true));
    assert!(!k.poll(300, true));
    assert!(!k.poll(499, true));
}

#[test]
fn held_key_repeats_at_fixed_cadence_after_delay() {
    let mut k = KeyRepeat::new();
    assert!(k.poll(0, true));
    assert!(k.poll(500, true));
    assert!(!k.poll(550, true));
    assert!(k.poll(600, true));
    assert!(!k.poll(650, true));
    assert!(k.poll(700, true));
}

#[test]
fn release_resets_to_not_held() {
    let mut k = KeyRepeat::new();
    assert!(k.poll(0, true));
    assert!(!k.poll(100, false));
    // A new press fires immediately again, with a fresh delay.
    assert!(k.poll(200, true));
    assert!(!k.poll(300, true));
    assert!(k.poll(700, true));
}
