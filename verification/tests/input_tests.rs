use scamp::input::{route_input, InputAction, DEBUG_DUMP_KEY};

#[test]
fn plain_input_is_forwarded_whole() {
    assert_eq!(route_input(b"ls -l\r"), vec![InputAction::Forward(0, 6)]);
    assert_eq!(route_input(b""), vec![]);
}

#[test]
fn debug_key_dumps_and_is_not_forwarded() {
    let input = [b'a', b'b', DEBUG_DUMP_KEY, b'c'];
    assert_eq!(
        route_input(&input),
        vec![InputAction::Forward(0, 2), InputAction::Dump, InputAction::Forward(3, 4)]
    );
    assert_eq!(route_input(&[DEBUG_DUMP_KEY, DEBUG_DUMP_KEY]), vec![InputAction::Dump, InputAction::Dump]);
}

#[test]
fn forwarded_bytes_are_the_input_without_debug_keys() {
    let input = [DEBUG_DUMP_KEY, b'x', DEBUG_DUMP_KEY, b'y', b'z', DEBUG_DUMP_KEY];
    let mut sent = Vec::new();
    let mut dumps = 0;
    for action in route_input(&input) {
        match action {
            InputAction::Forward(a, b) => sent.extend_from_slice(&input[a..b]),
            InputAction::Dump => dumps += 1,
        }
    }
    assert_eq!(sent, b"xyz".to_vec());
    assert_eq!(dumps, 3);
}
