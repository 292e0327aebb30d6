use vai::donations::{DonationError, DonationStats};
use vai::echo::{echo, pick_newline, unescape};
use vai::line_range::LineRange;
use vai::listing::{listing, order_matches, sort_by_of, visit_directory, DirMatch, SortBy};
use vai::path::{join, join_with_separator};
use vai::text::str_le;

fn strings(a: &[&str]) -> Vec<String> {
    a.iter().map(|s| s.to_string()).collect()
}

const RECORDS: &str = "a|b|c|d|201701xx|f|g|PEREZ, JOHN A|h\n\
a|b|c|d|201702xx|f|g|SMITH,  JANE|h\n\
a|b|c|d|201701xx|f|g|DOE, JOHN|h\n\
a|b|c|d|201612xx|f|g|NOCOMMA NAME|h\n";

#[test]
fn scan_chunk_counts_lines_months_and_first_names() {
    let mut st = DonationStats::new();
    assert_eq!(st.scan_chunk(RECORDS.as_bytes()), Ok(RECORDS.len()));
    assert_eq!(st.line_count, 4);
    assert_eq!(st.name_count, 4);
    let months: Vec<(&str, u32)> = st.months.iter().map(|(k, c)| (k.as_str(), *c)).collect();
    assert_eq!(months, vec![("2017-01", 2), ("2017-02", 1), ("2016-12", 1)]);
    let names: Vec<(&str, u32)> = st.names.iter().map(|(k, c)| (k.as_str(), *c)).collect();
    assert_eq!(names, vec![("JOHN", 2), ("JANE", 1), ("NOCOMMA", 1)]);
    assert_eq!(st.top_name(), ("JOHN".to_string(), 2));
    let sorted: Vec<String> = st.sorted_months().into_iter().map(|(k, _)| k).collect();
    assert_eq!(sorted, strings(&["2016-12", "2017-01", "2017-02"]));
}

#[test]
fn report_lists_the_statistics() {
    let mut st = DonationStats::new();
    st.scan_chunk(RECORDS.as_bytes()).unwrap();
    assert_eq!(
        st.report(),
        "line_count 4\nName 432: \nName 43243: \nTop name: JOHN 2\n\
Donations per month and year: 2016-12 and donation count 1\n\
Donations per month and year: 2017-01 and donation count 2\n\
Donations per month and year: 2017-02 and donation count 1\n"
    );
}

#[test]
fn scan_chunk_keeps_the_433rd_name() {
    let mut text = String::new();
    for k in 1..=433 {
        text.push_str(&format!("a|b|c|d|201701xx|f|g|L{}, F{}|h\n", k, k));
    }
    let mut st = DonationStats::new();
    assert_eq!(st.scan_chunk(text.as_bytes()), Ok(text.len()));
    assert_eq!(st.name_433, "L433, F433");
    assert_eq!(st.name_43244, "");
    assert_eq!(st.line_count, 433);
}

#[test]
fn scan_chunk_consumes_up_to_the_last_newline() {
    let text = "a|b|c|d|201701xx|f|g|X, Y|h\nq|w";
    let mut st = DonationStats::new();
    assert_eq!(st.scan_chunk(text.as_bytes()), Ok(28));
    assert_eq!(st.line_count, 1);
    let mut empty = DonationStats::new();
    assert_eq!(empty.scan_chunk(b"no newline"), Ok(0));
    assert_eq!(empty.top_name(), (String::new(), 0));
}

#[test]
fn scan_chunk_refuses_broken_records() {
    let mut st = DonationStats::new();
    assert_eq!(st.scan_chunk(b"a|b|c|d|20"), Err(DonationError::Truncated));
    let mut st = DonationStats::new();
    assert_eq!(st.scan_chunk(b"a|b|c|d|\xff\xfe\xfd\xfcxxxx\n"), Err(DonationError::InvalidUtf8));
}

#[test]
fn unescape_resolves_backslashes() {
    assert_eq!(unescape("a\\nb"), "a\nb");
    assert_eq!(unescape("a\\\\b"), "a\\b");
    assert_eq!(unescape("a\\tb"), "atb");
    assert_eq!(unescape("end\\"), "end");
    assert_eq!(unescape("plain"), "plain");
}

#[test]
fn echo_joins_arguments_by_newlines() {
    assert_eq!(echo(&strings(&["a", "b\\nc"]), "\n", true), "a\nb\nc\n");
    assert_eq!(echo(&strings(&["a", "b\\nc"]), "\r\n", false), "a\r\nb\nc");
    assert_eq!(echo(&Vec::new(), "\n", true), "\n");
    assert_eq!(echo(&Vec::new(), "\n", false), "");
}

#[test]
fn pick_newline_prefers_windows_then_posix() {
    assert_eq!(pick_newline(true, true, "\n"), "\r\n");
    assert_eq!(pick_newline(false, true, "\r\n"), "\n");
    assert_eq!(pick_newline(false, false, "x"), "x");
}

#[test]
fn feed_cuts_lines_out_of_a_stream() {
    let mut r = LineRange::new(1, 3);
    assert!(!r.done());
    assert_eq!(r.feed(b"a\nb\nc\nd\n"), b"b\nc\n".to_vec());
    assert!(r.done());
}

#[test]
fn feed_works_across_pieces() {
    let mut r = LineRange::new(1, 3);
    assert_eq!(r.feed(b"a\nb"), b"b".to_vec());
    assert_eq!(r.feed(b"\nc\nd"), b"\nc\n".to_vec());
    assert!(r.done());
    let mut all = LineRange::new(0, usize::MAX);
    assert_eq!(all.feed(b"x\ny"), b"x\ny".to_vec());
    assert!(!all.done());
}

#[test]
fn join_adds_a_separator_only_when_needed() {
    let sep = std::path::MAIN_SEPARATOR;
    assert_eq!(join("a", "b"), format!("a{}b", sep));
    assert_eq!(join("a/", "b"), "a/b");
    assert_eq!(join("a", "/b"), "a/b");
    assert_eq!(join("a\\", "b"), "a\\b");
    assert_eq!(join("", "b"), format!("{}b", sep));
    assert_eq!(join_with_separator("x", "y", '\\'), "x\\y");
}

#[test]
fn str_le_orders_strings() {
    assert!(str_le("abc", "abd"));
    assert!(str_le("ab", "abc"));
    assert!(!str_le("abc", "ab"));
    assert!(str_le("", ""));
    assert!(!str_le("b", "a"));
}

#[test]
fn sort_by_of_reads_the_option() {
    assert_eq!(sort_by_of("name"), Some(SortBy::Name));
    assert_eq!(sort_by_of("creation_time"), Some(SortBy::CreationTime));
    assert_eq!(sort_by_of("ct"), Some(SortBy::CreationTime));
    assert_eq!(sort_by_of("size"), None);
}

#[test]
fn visit_directory_descends_into_matches_only_when_asked() {
    assert_eq!(visit_directory("target", "target", false), (true, false));
    assert_eq!(visit_directory("target", "target", true), (true, true));
    assert_eq!(visit_directory("src", "target", false), (false, true));
}

fn dm(path: &str, created: i128) -> DirMatch {
    DirMatch { name: "target".to_string(), path: path.to_string(), created }
}

#[test]
fn order_matches_by_path_or_by_time() {
    let v = vec![dm("b", 1), dm("a", 3), dm("c", 2)];
    let by_name: Vec<String> = order_matches(&v, SortBy::Name).into_iter().map(|m| m.path).collect();
    assert_eq!(by_name, strings(&["a", "b", "c"]));
    let by_time: Vec<String> =
        order_matches(&v, SortBy::CreationTime).into_iter().map(|m| m.path).collect();
    assert_eq!(by_time, strings(&["a", "c", "b"]));
}

#[test]
fn listing_writes_one_match_per_line() {
    let sep = std::path::MAIN_SEPARATOR;
    let v = vec![dm("/home/x", 0), dm("/srv", 0)];
    assert_eq!(listing(&v, false), format!("/home/x{}target\n/srv{}target", sep, sep));
    assert_eq!(listing(&v, true), "/home/x\n/srv");
    assert_eq!(listing(&Vec::new(), false), "");
}
