use stream_ops::polled::Polled;

#[test]
fn polled_item_is_the_only_answer_with_an_item() {
    assert!(Polled::Item(3u8).is_item());
    assert!(!Polled::<u8>::Ended.is_item());
    assert!(!Polled::<u8>::Pending.is_item());
}
