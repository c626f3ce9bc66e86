use contest_notifier::atcoder::{atcoder_contests, contests_from_rows, rows_from_page, PageRow};
use contest_notifier::codeforces::{codeforces_contests, contests_from_entries, entries_from_json};
use contest_notifier::contest::{Contest, Host};
use contest_notifier::error::FetchError;
use contest_notifier::order::sort_contests;
use contest_notifier::render::{contest_text, localize_weekdays, render, Block, FALLBACK_TEXT, HEADER_TEXT};
use contest_notifier::window::{collect_upcoming, keep_within_window, upcoming_contests, WINDOW_SECONDS};

const PAGE: &str = r#"<!DOCTYPE html><html><head><title>AtCoder</title></head><body>
<div id="contest-table-upcoming"><div><table><thead><tr><th>Start</th><th>Contest</th></tr></thead><tbody>
<tr><td class="text-center"><small><a href="http://www.timeanddate.com/x"><time class="fixtime">2023-01-07 21:00:00+0900</time></a></small></td>
<td><small><a href="/contests/abc285">ABC285</a></small></td></tr>
<tr><td class="text-center"><small><a href="http://www.timeanddate.com/y"><time class="fixtime">2023-01-02 21:00:00+0900</time></a></small></td>
<td><small><a href="/contests/agc061">AGC061</a></small></td></tr>
</tbody></table></div></div></body></html>"#;

const CF_BODY: &str = r#"{"status":"OK","result":[
{"id":2,"name":"Round B","type":"CF","phase":"BEFORE","startTimeSeconds":1700003600},
{"id":1,"name":"Round A","type":"CF","phase":"BEFORE","startTimeSeconds":1700000000}]}"#;

fn contest(name: &str, start: i64, url: Option<&str>, host: Host) -> Contest {
    Contest::new(name.to_string(), start, url.map(|u| u.to_string()), host)
}

fn section(text: &str) -> Block {
    Block::Section(text.to_string())
}

#[test]
fn test_fetch_atcoder_contests() {
    let contests = atcoder_contests(PAGE).unwrap();
    assert_eq!(contests.len(), 2);
    assert!(contests.iter().all(|contest| contest.host == Host::AtCoder));
    assert_eq!(contests[0].name, "AGC061");
    assert_eq!(contests[0].start_time, 1672660800);
    assert_eq!(contests[0].url.as_deref(), Some("https://atcoder.jp/contests/agc061"));
    assert_eq!(contests[1].name, "ABC285");
    assert_eq!(contests[1].start_time, 1673092800);
}

#[test]
fn test_fetch_cf_contests() {
    let contests = codeforces_contests(CF_BODY).unwrap();
    assert!(contests.iter().all(|contest| contest.host == Host::Codeforces));
    assert!(contests.iter().all(|contest| contest.url.is_none()));
    assert_eq!(contests[0].name, "Round A");
    assert_eq!(contests[0].start_time, 1700000000);
    assert_eq!(contests[1].name, "Round B");
}

#[test]
fn test_fetch_upcoming_contests() {
    let now: i64 = 1700000000;
    let atcoder = vec![
        contest("past", now - 10, Some("https://atcoder.jp/contests/p"), Host::AtCoder),
        contest("soon", now + 100, Some("https://atcoder.jp/contests/s"), Host::AtCoder),
    ];
    let codeforces = vec![
        contest("now", now, None, Host::Codeforces),
        contest("early", now + 50, None, Host::Codeforces),
        contest("far", now + 30 * 86400, None, Host::Codeforces),
    ];
    let contests = upcoming_contests(atcoder, codeforces, now);
    assert!(contests
        .iter()
        .all(|contest| contest.start_time > now && contest.start_time < now + WINDOW_SECONDS));
    let names: Vec<&str> = contests.iter().map(|c| c.name.as_str()).collect();
    assert_eq!(names, vec!["early", "soon"]);
}

#[test]
fn window_edges() {
    let now: i64 = 1700000000;
    let week: i64 = 7 * 86400;
    let input = vec![
        contest("late", now + week + 1, None, Host::Codeforces),
        contest("edge", now + week, None, Host::Codeforces),
        contest("inside", now + 6 * 86400 + 23 * 3600, None, Host::Codeforces),
        contest("first", now + 1, None, Host::Codeforces),
    ];
    let kept = keep_within_window(input, now);
    let names: Vec<&str> = kept.iter().map(|c| c.name.as_str()).collect();
    assert_eq!(names, vec!["inside", "first"]);
}

#[test]
fn window_of_nothing() {
    assert!(upcoming_contests(Vec::new(), Vec::new(), 0).is_empty());
}

#[test]
fn window_at_largest_instant() {
    let kept = keep_within_window(vec![contest("max", i64::MAX, None, Host::Codeforces)], i64::MAX - 10);
    assert_eq!(kept.len(), 1);
    let kept = keep_within_window(vec![contest("max", i64::MAX, None, Host::Codeforces)], i64::MAX);
    assert!(kept.is_empty());
}

#[test]
fn sort_is_stable() {
    let input = vec![
        contest("c", 30, None, Host::Codeforces),
        contest("a1", 10, None, Host::AtCoder),
        contest("b", 20, None, Host::Codeforces),
        contest("a2", 10, None, Host::Codeforces),
    ];
    let sorted = sort_contests(input);
    let names: Vec<&str> = sorted.iter().map(|c| c.name.as_str()).collect();
    assert_eq!(names, vec!["a1", "a2", "b", "c"]);
}

#[test]
fn render_empty() {
    let message = render(&Vec::new());
    assert_eq!(message.blocks.len(), 2);
    assert_eq!(message.blocks[0], Block::Header(HEADER_TEXT.to_string()));
    assert_eq!(message.blocks[1], Block::Divider);
    assert!(!message.text.is_empty());
    assert_eq!(message.text, FALLBACK_TEXT);
}

#[test]
fn render_is_repeatable() {
    let contests = vec![
        contest("B", 1700003600, None, Host::Codeforces),
        contest("A", 1700000000, Some("http://x/1"), Host::AtCoder),
    ];
    assert_eq!(render(&contests), render(&contests));
}

#[test]
fn render_single_source() {
    let contests = vec![
        contest("Round A", 1700000000, None, Host::Codeforces),
        contest("Round B", 1700003600, None, Host::Codeforces),
    ];
    let message = render(&contests);
    assert_eq!(message.blocks.len(), 2 + 1 + 2 + 1);
    assert_eq!(message.blocks[2], section("*Codeforces*"));
    assert_eq!(message.blocks[5], Block::Divider);
    assert!(!message.blocks.iter().any(|b| *b == section("*AtCoder*")));
}

#[test]
fn render_json_contest_without_link() {
    let body = r#"{"result":[{"name":"Round X","startTimeSeconds":1700000000}]}"#;
    let contests = codeforces_contests(body).unwrap();
    let message = render(&contests);
    match &message.blocks[3] {
        Block::Section(line) => {
            assert!(line.contains("Round X"));
            assert!(!line.contains('<'));
            assert!(!line.contains('|'));
            assert_eq!(line, "Round X 11/15 (水) 07:13 開始");
        }
        other => panic!("unexpected block {:?}", other),
    }
}

#[test]
fn render_groups_in_fixed_order() {
    let t: i64 = 1700000000;
    let contests = vec![
        contest("B", t + 3600, None, Host::Codeforces),
        contest("A", t, Some("http://x/1"), Host::AtCoder),
    ];
    let message = render(&contests);
    assert_eq!(
        message.blocks,
        vec![
            Block::Header(HEADER_TEXT.to_string()),
            Block::Divider,
            section("*AtCoder*"),
            section("<http://x/1|A>\n11/15 (水) 07:13 開始"),
            Block::Divider,
            section("*Codeforces*"),
            section("B 11/15 (水) 08:13 開始"),
            Block::Divider,
        ]
    );
}

#[test]
fn render_sunday_in_kanji() {
    let line = contest_text(&contest("New Year", 1672531200, None, Host::Yukicoder));
    assert_eq!(line, "New Year 01/01 (日) 09:00 開始");
    assert!(!line.contains("Sun"));
}

#[test]
fn render_unrepresentable_instant() {
    let line = contest_text(&contest("Far", i64::MAX, None, Host::Topcoder));
    assert_eq!(line, "Far  開始");
}

#[test]
fn localize_each_weekday() {
    assert_eq!(localize_weekdays("Mon Tue Wed Thu Fri Sat Sun"), "月 火 水 木 金 土 日");
    assert_eq!(localize_weekdays("(Sun)"), "(日)");
    assert_eq!(localize_weekdays("SSun Su"), "S日 Su");
    assert_eq!(localize_weekdays(""), "");
}

#[test]
fn host_names() {
    assert_eq!(Host::AtCoder.to_string(), "AtCoder");
    assert_eq!(Host::Codeforces.to_string(), "Codeforces");
    assert_eq!(Host::Yukicoder.to_string(), "Yukicoder");
    assert_eq!(Host::Topcoder.to_string(), "Topcoder");
}

#[test]
fn json_errors() {
    assert_eq!(codeforces_contests("not json").unwrap_err(), FetchError::MalformedJson);
    assert_eq!(codeforces_contests(r#"{"status":"FAILED"}"#).unwrap_err(), FetchError::MissingField);
    assert_eq!(codeforces_contests(r#"{"result":{}}"#).unwrap_err(), FetchError::MissingField);
    assert_eq!(
        codeforces_contests(r#"{"result":[{"name":"x"}]}"#).unwrap_err(),
        FetchError::MissingField
    );
    assert_eq!(
        codeforces_contests(r#"{"result":[{"name":1,"startTimeSeconds":5}]}"#).unwrap_err(),
        FetchError::MissingField
    );
    assert_eq!(
        codeforces_contests(r#"{"result":[{"name":"x","startTimeSeconds":9223372036854775807}]}"#).unwrap_err(),
        FetchError::TimestampOutOfRange
    );
}

#[test]
fn json_entries_read() {
    let entries = entries_from_json(CF_BODY).unwrap();
    assert_eq!(entries, vec![("Round B".to_string(), 1700003600), ("Round A".to_string(), 1700000000)]);
    let contests = contests_from_entries(entries).unwrap();
    assert_eq!(contests[0].start_time, 1700000000);
    assert!(contests_from_entries(Vec::new()).unwrap().is_empty());
}

#[test]
fn page_rows_read() {
    let rows = rows_from_page(PAGE).unwrap();
    assert_eq!(rows.len(), 2);
    assert_eq!(rows[0].name, "ABC285");
    assert_eq!(rows[0].time, "2023-01-07 21:00:00+0900");
    assert_eq!(rows[0].path, "/contests/abc285");
    assert!(rows_from_page("<html><body></body></html>").unwrap().is_empty());
}

#[test]
fn page_row_missing_link() {
    let page = r#"<html><body><div id="contest-table-upcoming"><div><table><tbody>
<tr><td><small><a><time>2023-01-07 21:00:00+0900</time></a></small></td><td><small>ABC</small></td></tr>
</tbody></table></div></div></body></html>"#;
    assert_eq!(atcoder_contests(page).unwrap_err(), FetchError::MissingElement);
}

#[test]
fn page_bad_start_time() {
    let row = |time: &str| PageRow { name: "ABC".to_string(), time: time.to_string(), path: "/c".to_string() };
    assert_eq!(contests_from_rows(vec![row("+0900")]).unwrap_err(), FetchError::BadStartTime);
    assert_eq!(contests_from_rows(vec![row("0900")]).unwrap_err(), FetchError::BadStartTime);
    assert_eq!(contests_from_rows(vec![row("2023-13-07 21:00:00+0900")]).unwrap_err(), FetchError::BadStartTime);
    let ok = contests_from_rows(vec![row("2023-01-02 21:00:00+0900")]).unwrap();
    assert_eq!(ok[0].start_time, 1672660800);
    assert_eq!(ok[0].url.as_deref(), Some("https://atcoder.jp/c"));
}

#[test]
fn collect_from_both_responses() {
    let now: i64 = 1699990000;
    let contests = collect_upcoming(PAGE, CF_BODY, now).unwrap();
    let names: Vec<&str> = contests.iter().map(|c| c.name.as_str()).collect();
    assert_eq!(names, vec!["Round A", "Round B"]);
    let earlier = collect_upcoming(PAGE, CF_BODY, 1672600000).unwrap();
    let names: Vec<&str> = earlier.iter().map(|c| c.name.as_str()).collect();
    assert_eq!(names, vec!["AGC061", "ABC285"]);
    assert_eq!(collect_upcoming(PAGE, "[]", now).unwrap_err(), FetchError::MissingField);
}

#[test]
fn collect_reports_page_error_first() {
    let page = r#"<html><body><div id="contest-table-upcoming"><div><table><tbody>
<tr><td><small><a><time>2023-01-07 21:00:00+0900</time></a></small></td><td><small>ABC</small></td></tr>
</tbody></table></div></div></body></html>"#;
    assert_eq!(collect_upcoming(page, "not json", 0).unwrap_err(), FetchError::MissingElement);
    assert_eq!(collect_upcoming(PAGE, "not json", 0).unwrap_err(), FetchError::MalformedJson);
}

#[test]
fn json_fractional_start_fails() {
    assert_eq!(
        codeforces_contests(r#"{"result":[{"name":"x","startTimeSeconds":1.5}]}"#).unwrap_err(),
        FetchError::MissingField
    );
    let ok = codeforces_contests(r#"{"result":[{"startTimeSeconds":7,"name":"x","extra":[1,{"a":null}]}]}"#).unwrap();
    assert_eq!(ok[0].start_time, 7);
}

#[test]
fn json_start_range_edges() {
    let at = |t: i64| contests_from_entries(vec![("x".to_string(), t)]);
    assert_eq!(at(-8334601228800).unwrap()[0].start_time, -8334601228800);
    assert_eq!(at(8210266876799).unwrap()[0].start_time, 8210266876799);
    assert_eq!(at(-8334601228801).unwrap_err(), FetchError::TimestampOutOfRange);
    assert_eq!(at(8210266876800).unwrap_err(), FetchError::TimestampOutOfRange);
    assert_eq!(at(i64::MIN).unwrap_err(), FetchError::TimestampOutOfRange);
}

#[test]
fn page_cell_keeps_attribute_order() {
    let page = r#"<html><body><div id="contest-table-upcoming"><div><table><tbody>
<tr><td><small><a><time>2023-01-07 21:00:00+0900</time></a></small></td>
<td><small><a href="/contests/x"><span title="t" class="c" id="i" lang="ja">X</span></a></small></td></tr>
</tbody></table></div></div></body></html>"#;
    let rows = rows_from_page(page).unwrap();
    assert_eq!(rows[0].name, r#"<span title="t" class="c" id="i" lang="ja">X</span>"#);
    assert_eq!(rows_from_page(page).unwrap()[0].name, rows[0].name);
}
