use myelin_environment::simulation_impl::world::{handle_from_raw_parts, raw_parts_of_handle};

#[test]
fn handle_keeps_index_below_generation() {
    assert_eq!(handle_from_raw_parts(5, 0), 5);
    assert_eq!(handle_from_raw_parts(5, 3), 5 + 3 * (1usize << 32));
}

#[test]
fn splitting_a_handle_gives_its_raw_parts() {
    assert_eq!(raw_parts_of_handle(7), (7, 0));
    assert_eq!(raw_parts_of_handle(9 + 2 * (1usize << 32)), (9, 2));
}

#[test]
fn handle_encoding_round_trips() {
    let handle = handle_from_raw_parts(0xFFFF_FFFF, 41);
    assert_eq!(raw_parts_of_handle(handle), (0xFFFF_FFFF, 41));
    assert_eq!(handle_from_raw_parts(raw_parts_of_handle(123_456).0, raw_parts_of_handle(123_456).1), 123_456);
}
