use fastup::ports::{listening_pid_in, parse_usize_chars, pid_from_field, pid_in_line};

const SS_OUTPUT: &str = "State  Recv-Q Send-Q Local Address:Port  Peer Address:Port Process\n\
LISTEN 0      4096       127.0.0.1:5432       0.0.0.0:*     users:((\"postgres\",pid=812,fd=5))\n\
LISTEN 0      5            0.0.0.0:8081       0.0.0.0:*     users:((\"python3\",pid=24310,fd=3))\n\
LISTEN 0      128          0.0.0.0:8084       0.0.0.0:*     users:((\"python\",pid=24400,fd=7))\n";

fn chars(s: &str) -> Vec<char> {
    s.chars().collect()
}

#[test]
fn finds_pid_of_listening_port() {
    assert_eq!(listening_pid_in(SS_OUTPUT, 8081), Some(24310));
    assert_eq!(listening_pid_in(SS_OUTPUT, 5432), Some(812));
    assert_eq!(listening_pid_in(SS_OUTPUT, 8084), Some(24400));
}

#[test]
fn no_pid_for_unknown_port() {
    assert_eq!(listening_pid_in(SS_OUTPUT, 9000), None);
    assert_eq!(listening_pid_in("", 80), None);
}

#[test]
fn port_does_not_match_a_longer_port() {
    // ":808" stands in ":8081", but a digit follows it: not port 808.
    assert_eq!(listening_pid_in(SS_OUTPUT, 808), None);
    let out = "LISTEN 0 128 0.0.0.0:8080 0.0.0.0:* users:((\"python\",pid=222,fd=3))";
    assert_eq!(listening_pid_in(out, 80), None);
    assert_eq!(listening_pid_in(out, 8080), Some(222));
    // A later mention that is the port itself still counts.
    let both = "LISTEN 0.0.0.0:8080 127.0.0.1:80 users:((\"x\",pid=9,fd=3))";
    assert_eq!(listening_pid_in(both, 80), Some(9));
}

#[test]
fn line_without_listen_is_skipped() {
    let out = "ESTAB 0 0 127.0.0.1:3000 users:((\"node\",pid=11,fd=1))\n\
LISTEN 0 0 127.0.0.1:3000 users:((\"node\",pid=22,fd=1))";
    assert_eq!(listening_pid_in(out, 3000), Some(22));
}

#[test]
fn pid_at_end_of_line_is_not_read() {
    // Without a character after the digits, no end of the number is found.
    assert_eq!(listening_pid_in("LISTEN 127.0.0.1:3000 pid=77", 3000), None);
    assert_eq!(listening_pid_in("LISTEN 127.0.0.1:3000 pid=77\nLISTEN :3000 pid=78,", 3000), Some(78));
}

#[test]
fn carriage_return_ends_the_number_only_without_line_feed() {
    assert_eq!(listening_pid_in("LISTEN :3000 pid=77\r\n", 3000), None);
    assert_eq!(listening_pid_in("LISTEN :3000 pid=77\r", 3000), Some(77));
}

#[test]
fn empty_or_non_ascii_numbers_are_skipped() {
    assert_eq!(listening_pid_in("LISTEN :3000 pid=,x\nLISTEN :3000 pid=5)", 3000), Some(5));
    assert_eq!(listening_pid_in("LISTEN :3000 pid=1\u{0663},", 3000), None);
}

#[test]
fn pid_in_one_line() {
    assert_eq!(pid_in_line(&chars("LISTEN 0.0.0.0:22 users:((\"sshd\",pid=901,fd=3))"), 22), Some(901));
    assert_eq!(pid_in_line(&chars("LISTEN 0.0.0.0:22 users:((\"sshd\"))"), 22), None);
}

#[test]
fn parse_usize_as_std_does() {
    assert_eq!(parse_usize_chars(&chars("0042")), Some(42));
    assert_eq!(parse_usize_chars(&chars("+7")), Some(7));
    assert_eq!(parse_usize_chars(&chars("+")), None);
    assert_eq!(parse_usize_chars(&chars("")), None);
    assert_eq!(parse_usize_chars(&chars("4a")), None);
    assert_eq!(parse_usize_chars(&chars("99999999999999999999999")), None);
    assert_eq!(parse_usize_chars(&chars(&usize::MAX.to_string())), Some(usize::MAX));
}

#[test]
fn pid_from_field_reads_up_to_the_end() {
    let field = chars("1234,fd=3))");
    assert_eq!(pid_from_field(&field, Some(4)), Some(1234));
    assert_eq!(pid_from_field(&field, Some(2)), Some(12));
    assert_eq!(pid_from_field(&field, None), None);
    assert_eq!(pid_from_field(&field, Some(0)), None);
    assert_eq!(pid_from_field(&field, Some(100)), None);
}
