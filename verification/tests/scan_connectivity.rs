use netdiag::scan::connectivity::{extract_after, extract_before, ping_counts};

fn chars(s: &str) -> Vec<char> {
    s.chars().collect()
}

#[test]
fn counts_linux_ping_statistics() {
    let output = "PING 10.0.3.1 (10.0.3.1) 56(84) bytes of data.\n64 bytes from 10.0.3.1: icmp_seq=1 ttl=64 time=1.75 ms\n64 bytes from 10.0.3.1: icmp_seq=2 ttl=64 time=2.10 ms\n\n--- 10.0.3.1 ping statistics ---\n10 packets transmitted, 10 received, 0% packet loss, time 1805ms\nrtt min/avg/max/mdev = 1.234/2.208/3.001/0.962 ms\n";
    assert_eq!(ping_counts(output, 10), (10, 10));
}

#[test]
fn counts_windows_ping_statistics() {
    let output = "\nPinging 10.0.3.1 with 32 bytes of data:\nReply from 10.0.3.1: bytes=32 time=2ms TTL=64\nReply from 10.0.3.1: bytes=32 time=3ms TTL=64\n\nPing statistics for 10.0.3.1:\n    Packets: Sent = 10, Received = 9, Lost = 1 (10% loss),\nApproximate round trip times in milli-seconds:\n    Minimum = 2ms, Maximum = 5ms, Average = 3ms\n";
    assert_eq!(ping_counts(output, 10), (10, 9));
}

#[test]
fn counts_total_loss() {
    let output = "5 packets transmitted, 0 received, 100% packet loss, time 4090ms\n";
    assert_eq!(ping_counts(output, 5), (5, 0));
}

#[test]
fn empty_output_counts_the_request_and_no_replies() {
    assert_eq!(ping_counts("", 5), (5, 0));
}

#[test]
fn number_before_marker_takes_the_last_word() {
    assert_eq!(extract_before(&chars("a 12 34 received"), " received"), Some(34));
    assert_eq!(extract_before(&chars("x12 received"), " received"), None);
    assert_eq!(extract_before(&chars("nothing here"), " received"), None);
}

#[test]
fn number_after_marker_takes_the_digit_run() {
    assert_eq!(extract_after(&chars("sent = 42, lost"), "sent = "), Some(42));
    assert_eq!(extract_after(&chars("sent = , lost"), "sent = "), None);
    assert_eq!(extract_after(&chars("sent = 99999999999"), "sent = "), None);
}
