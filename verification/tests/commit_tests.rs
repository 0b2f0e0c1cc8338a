use data_lib::commit::Commit;
use data_lib::date::Date;

#[test]
fn git_log_lines_become_commits() {
    let log = "\"2024-01-01T10:00:00+00:00 abc123\"\n\"2024-01-08T11:30:00+00:00 def456\"\n";
    let commits = Commit::from_git_log(log.to_string());
    assert_eq!(commits.len(), 2);
    assert_eq!(commits[0].date, Date::new(2024, 1, 1));
    assert_eq!(commits[0].hash, "abc123");
    assert_eq!(commits[1].date, Date::new(2024, 1, 8));
}

#[test]
fn malformed_log_lines_are_skipped() {
    let log = "\n\"nodate\"\n\"2024-02-29T00:00:00+00:00 feed42\"".to_string();
    let commits = Commit::from_git_log(log);
    assert_eq!(commits.len(), 1);
    assert_eq!(commits[0].date, Date::new(2024, 2, 29));
}

#[test]
fn commit_prints_its_date() {
    let c = Commit { date: Date::new(2023, 7, 4), hash: "cafe".to_string() };
    let sc = c.to_string_commit();
    assert_eq!(sc.date, "2023-07-04");
    assert_eq!(sc.hash, "cafe");
}
