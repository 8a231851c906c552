use lisa::lisa::{ask_lisa, reply_for_roll, ROLL_BOUND};

#[test]
fn replies_at_each_threshold() {
    assert_eq!(reply_for_roll(1999), "Yes! (1999)");
    assert_eq!(reply_for_roll(1801), "Yes! (1801)");
    assert_eq!(reply_for_roll(1800), "It is certain. (1800)");
    assert_eq!(reply_for_roll(1401), "Obviously. (1401)");
    assert_eq!(reply_for_roll(1201), "Probably... maybe. (1201)");
    assert_eq!(reply_for_roll(1001), "How am I supposed to know? (1001)");
    assert_eq!(reply_for_roll(801), "I don't think so. (801)");
    assert_eq!(reply_for_roll(601), "No. (601)");
    assert_eq!(reply_for_roll(401), "Never ever. (401)");
    assert_eq!(reply_for_roll(201), "Absolutely not. (201)");
    assert_eq!(reply_for_roll(101), "How about no? (101)");
    assert_eq!(reply_for_roll(51), "Maybe after I hit this fat vape. (51)");
    assert_eq!(reply_for_roll(26), "Maybe after I hit this fat vape. *blows cloud* (26)");
    assert_eq!(reply_for_roll(13), "*Starts aggressively dabbing to assert dominance* (13)");
    assert!(reply_for_roll(6).starts_with("OwO What's this?"));
    assert!(reply_for_roll(6).ends_with("~murr~ (6)"));
    assert_eq!(reply_for_roll(2), "Pebis. (2)");
    assert_eq!(reply_for_roll(1), "https://www.youtube.com/watch?v=HS3hxgREKKw (1)");
    assert_eq!(reply_for_roll(0), "https://www.youtube.com/watch?v=HS3hxgREKKw (0)");
}

#[test]
fn ask_lisa_rolls_below_the_bound() {
    for _ in 0..500 {
        let (roll, reply) = ask_lisa();
        assert!(roll < ROLL_BOUND);
        assert_eq!(reply, reply_for_roll(roll));
    }
}

#[test]
fn ask_lisa_rolls_vary() {
    let first = ask_lisa().0;
    assert!((0..200).any(|_| ask_lisa().0 != first));
}
