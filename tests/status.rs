use proc_lineage::status::ProcessStatus;

const SAMPLE: &str = "Name:\tbash\nUmask:\t0022\nState:\tS (sleeping)\nTgid:\t4242\nNgid:\t0\nPid:\t4242\nPPid:\t4200\nTracerPid:\t0\nUid:\t1000\t1000\t1000\t1000\nGid:\t1000\t1000\t1000\t1000\n";

#[test]
fn parses_name_parent_and_owner() {
    let st = ProcessStatus::parse(SAMPLE).unwrap();
    assert_eq!(st.name, "bash");
    assert_eq!(st.parent_pid, 4200);
    assert_eq!(st.uid, 1000);
}

#[test]
fn parsing_twice_gives_the_same_status() {
    assert_eq!(ProcessStatus::parse(SAMPLE), ProcessStatus::parse(SAMPLE));
}

#[test]
fn missing_name_is_no_status() {
    assert_eq!(ProcessStatus::parse(""), None);
    assert_eq!(ProcessStatus::parse("PPid:\t1\nUid:\t0\n"), None);
    assert_eq!(ProcessStatus::parse("Name:\n"), None);
}

#[test]
fn bad_numbers_read_as_zero() {
    let st = ProcessStatus::parse("Name:\tx\nPPid:\tabc\nUid:\t-5\n").unwrap();
    assert_eq!(st.parent_pid, 0);
    assert_eq!(st.uid, 0);
    let st = ProcessStatus::parse("Name:\tx\nPPid:\t4294967296\nUid:\t4294967295\n").unwrap();
    assert_eq!(st.parent_pid, 0);
    assert_eq!(st.uid, 4294967295);
    let st = ProcessStatus::parse("Name:\tx\nPPid:\t+17\nUid:\t+\n").unwrap();
    assert_eq!(st.parent_pid, 17);
    assert_eq!(st.uid, 0);
}

#[test]
fn owner_line_ends_the_scan() {
    let st = ProcessStatus::parse("Name:\ta\nUid:\t5\nName:\tb\nPPid:\t9\n").unwrap();
    assert_eq!(st.name, "a");
    assert_eq!(st.parent_pid, 0);
    assert_eq!(st.uid, 5);
}

#[test]
fn later_lines_overwrite_and_unknown_keys_are_ignored() {
    let st = ProcessStatus::parse("Foo:\t1\nName:\ta\nName:\tb\nPPid:\t3\nPPid:\t4\nUid:\t2\n").unwrap();
    assert_eq!(st.name, "b");
    assert_eq!(st.parent_pid, 4);
    assert_eq!(st.uid, 2);
}

#[test]
fn words_are_split_on_any_whitespace() {
    let st = ProcessStatus::parse("  Name:   my prog\r\nPPid: 12 13\r\nUid:\u{3000}7\n").unwrap();
    assert_eq!(st.name, "my");
    assert_eq!(st.parent_pid, 12);
    assert_eq!(st.uid, 7);
}

#[test]
fn one_word_lines_say_nothing() {
    let st = ProcessStatus::parse("Name:\nName:\tz\nPPid:\nUid:\n").unwrap();
    assert_eq!(st.name, "z");
    assert_eq!(st.parent_pid, 0);
    assert_eq!(st.uid, 0);
}

#[test]
fn key_must_match_exactly() {
    assert_eq!(ProcessStatus::parse("name:\tx\nName\ty\n"), None);
}
