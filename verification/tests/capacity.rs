use quetzalcoatl::capacity::Capacity;
use quetzalcoatl::common::close_state::CloseState;
use quetzalcoatl::common::cursors::Cursors;
use quetzalcoatl::common::endpoint_count::EndpointCount;

#[test]
fn positions_wrap_onto_the_slots() {
    let capacity = Capacity::exact(8);
    assert_eq!(capacity.get(), 8);
    for pos in 0..40 {
        assert_eq!(capacity.index_of(pos), pos % 8);
        assert_eq!(capacity.wrap(pos), pos % 8);
    }
}

#[test]
fn cursors_count_what_lies_between_them() {
    let mut cursors = Cursors::new();
    assert!(cursors.is_empty());
    cursors.tail = 4;
    cursors.head = 1;
    assert_eq!(cursors.len(), 3);
    assert!(!cursors.is_full(4));
    cursors.tail = 5;
    assert!(cursors.is_full(4));
}

#[test]
fn the_last_endpoint_is_told() {
    let mut count = EndpointCount::new();
    count.register();
    assert!(!count.release());
    assert!(count.release());
    let mut state = CloseState::new();
    assert!(!state.is_closed());
    state.close();
    assert!(state.is_closed());
}
