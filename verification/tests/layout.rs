use verona_rt::layout::{align_up, cown_to_data, vsizeof};

#[test]
fn align_up_rounds_to_the_next_multiple() {
    assert_eq!(align_up(0, 16), 0);
    assert_eq!(align_up(1, 16), 16);
    assert_eq!(align_up(16, 16), 16);
    assert_eq!(align_up(17, 16), 32);
    assert_eq!(align_up(31, 8), 32);
    assert_eq!(align_up(5, 1), 5);
    assert_eq!(align_up(usize::MAX - 15, 16), usize::MAX - 15);
}

#[test]
fn vsizeof_leaves_room_for_the_object_header() {
    assert_eq!(vsizeof(0), 16);
    assert_eq!(vsizeof(1), 32);
    assert_eq!(vsizeof(16), 32);
    assert_eq!(vsizeof(17), 48);
    assert_eq!(vsizeof(3932), 3952);
}

#[test]
fn the_payload_follows_the_control_block() {
    assert_eq!(cown_to_data(16), 48);
    assert_eq!(cown_to_data(4096), 4128);
    assert_eq!(cown_to_data(4096) % 16, 0);
}
