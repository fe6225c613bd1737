use xargs::cmdline::{initial_cmd_line_len, remaining_args_budget};

#[test]
fn no_argument() {
    let zero_args: &[Vec<u8>] = &[];
    assert_eq!(initial_cmd_line_len(b"x", zero_args), Some(1));
    assert_eq!(initial_cmd_line_len(b"yy", zero_args), Some(2));
}

#[test]
fn single_argument() {
    assert_eq!(initial_cmd_line_len(b"x", &[b"y".to_vec()]), Some(3));
    assert_eq!(initial_cmd_line_len(b"x", &[b"zz".to_vec()]), Some(4));
}

#[test]
fn several_arguments() {
    assert_eq!(initial_cmd_line_len(b"x", &[b"y".to_vec(), b"z".to_vec()]), Some(5));
}

#[test]
fn budget_leaves_room_for_a_separator() {
    let args = [b"-n".to_vec(), b"1".to_vec()];
    // "echo -n 1" is 9 bytes; one more separator before the batch.
    assert_eq!(remaining_args_budget(100, b"echo", &args), Some(90));
    assert_eq!(remaining_args_budget(11, b"echo", &args), Some(1));
}

#[test]
fn budget_too_small_is_refused() {
    let args = [b"-n".to_vec(), b"1".to_vec()];
    assert_eq!(remaining_args_budget(10, b"echo", &args), None);
    assert_eq!(remaining_args_budget(9, b"echo", &args), None);
    assert_eq!(remaining_args_budget(0, b"echo", &args), None);
}
