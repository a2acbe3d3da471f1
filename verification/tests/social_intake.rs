use pump_quant_app::social_intake::{call_quality, route_call, CallRoute, SeenRing, SOCIAL_SEEN_CAP};

#[test]
fn duplicate_posts_are_suppressed_and_the_ring_is_bounded() {
    let mut seen = SeenRing::new();
    assert!(seen.note_post(1, 100));
    assert!(!seen.note_post(1, 100), "the same author and content is a duplicate");
    assert!(seen.note_post(2, 100), "a distinct author sharing content passes");
    assert_eq!(seen.len(), 2);
    for k in 0..SOCIAL_SEEN_CAP as u64 {
        seen.note_post(1_000 + k, 7);
    }
    assert_eq!(seen.len(), SOCIAL_SEEN_CAP);
    assert!(seen.note_post(1, 100), "the oldest key was evicted and is new again");
}

#[test]
fn call_quality_and_routing() {
    assert_eq!(call_quality(true, Some(9_000), 3_000), 0, "coordinated content corroborates at zero");
    assert_eq!(call_quality(false, Some(9_000), 3_000), 9_000);
    assert_eq!(call_quality(false, None, 3_000), 3_000);
    assert_eq!(route_call(true, true, true), CallRoute::ExitPressure);
    assert_eq!(route_call(true, false, false), CallRoute::Inert);
    assert_eq!(route_call(false, true, false), CallRoute::AlphaLane);
    assert_eq!(route_call(false, false, true), CallRoute::SocialLane);
}
